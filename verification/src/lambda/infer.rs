//! Type inference for expressions.

use vstd::prelude::*;
use std::collections::HashMap;
use super::engine::{ContextState, TypeContext};
use super::expression::Expression;
use super::language::{InferenceError, InferenceFault, Language};
use super::text::{chars_of, decimal, push_decimal, string_of};
use super::types::{Type, TypeTerm};

verus! {

/// What inference carries from node to node: the typing context, and the
/// type variable of each free index met so far, by its distance beyond the
/// outermost abstraction.
pub struct Inference {
    pub ctx: ContextState,
    pub free: Map<usize, TypeTerm>,
}

/// The message for a primitive that is not registered.
pub open spec fn missing_primitive(num: usize) -> InferenceFault {
    InferenceFault::BadExpression("primitive does not exist: "@ + decimal(num as nat))
}

/// The message for an invention that is not registered.
pub open spec fn missing_invention(num: usize) -> InferenceFault {
    InferenceFault::BadExpression("invention does not exist: "@ + decimal(num as nat))
}

/// The message for an expression that needs more type variables than there
/// are.
pub open spec fn exhausted() -> InferenceFault {
    InferenceFault::BadExpression("type variables exhausted"@)
}

/// The type of a registered item at a use site: the registered type with
/// fresh variables for its own.
pub open spec fn infer_registered(
    types: Seq<TypeTerm>,
    num: usize,
    missing: InferenceFault,
    st: Inference,
) -> (Result<TypeTerm, InferenceFault>, Inference) {
    if num < types.len() {
        match st.ctx.instantiate(types[num as int]) {
            (Some(t), ctx) => (Ok(t), Inference { ctx, ..st }),
            (None, _) => (Err(exhausted()), st),
        }
    } else {
        (Err(missing), st)
    }
}

/// The type of an index: that of its binder, or for a free index the
/// variable that stands for it, which is made when the index is first met.
pub open spec fn infer_index(i: usize, env: Seq<TypeTerm>, st: Inference) -> (
    Result<TypeTerm, InferenceFault>,
    Inference,
) {
    if i < env.len() {
        (Ok(st.ctx.apply(env[i as int])), st)
    } else {
        let k = (i - env.len()) as usize;
        if st.free.contains_key(k) {
            (Ok(st.ctx.apply(st.free[k])), st)
        } else {
            match st.ctx.new_variable() {
                (Some(v), ctx) => (Ok(ctx.apply(v)), Inference { ctx, free: st.free.insert(k, v) }),
                (None, _) => (Err(exhausted()), st),
            }
        }
    }
}

/// The type of an application whose parts have the given types: a fresh
/// variable unified as the result of the function.
pub open spec fn infer_application(f: TypeTerm, x: TypeTerm, st: Inference) -> (
    Result<TypeTerm, InferenceFault>,
    Inference,
) {
    match st.ctx.new_variable() {
        (Some(ret), made) => match made.unify(f, TypeTerm::Arrow(Box::new(x), Box::new(ret))) {
            (Ok(_), ctx) => (Ok(ctx.apply(ret)), Inference { ctx, ..st }),
            (Err(fault), ctx) => (Err(InferenceFault::Unify(fault)), Inference { ctx, ..st }),
        },
        (None, _) => (Err(exhausted()), st),
    }
}

/// The type of an expression under bound types `env`, nearest binder first,
/// and the state that inference leaves. The first failure ends it.
pub open spec fn infer_spec(
    primitives: Seq<TypeTerm>,
    invented: Seq<TypeTerm>,
    expr: Expression,
    env: Seq<TypeTerm>,
    st: Inference,
) -> (Result<TypeTerm, InferenceFault>, Inference)
    decreases expr,
{
    match expr {
        Expression::Primitive(num) => infer_registered(primitives, num, missing_primitive(num), st),
        Expression::Application(f, x) => match infer_spec(primitives, invented, *f, env, st) {
            (Ok(f_tp), after_f) => match infer_spec(primitives, invented, *x, env, after_f) {
                (Ok(x_tp), after_x) => infer_application(f_tp, x_tp, after_x),
                failed => failed,
            },
            failed => failed,
        },
        Expression::Abstraction(body) => match st.ctx.new_variable() {
            (Some(arg), ctx) => match infer_spec(
                primitives,
                invented,
                *body,
                seq![arg] + env,
                Inference { ctx, ..st },
            ) {
                (Ok(ret), after) => (
                    Ok(after.ctx.apply(TypeTerm::Arrow(Box::new(arg), Box::new(ret)))),
                    after,
                ),
                failed => failed,
            },
            (None, _) => (Err(exhausted()), st),
        },
        Expression::Index(i) => infer_index(i, env, st),
        Expression::Invented(num) => infer_registered(invented, num, missing_invention(num), st),
    }
}

/// The bound types that a stack of binders stands for, nearest binder first.
/// The stack holds the innermost binder last.
pub open spec fn bound_types(stack: Seq<Type>) -> Seq<TypeTerm> {
    Seq::new(stack.len(), |i: int| stack[stack.len() - 1 - i]@)
}

/// The free-index table as contracts see it.
pub open spec fn free_terms(free: Map<usize, Type>) -> Map<usize, TypeTerm> {
    free.map_values(|t: Type| t@)
}

/// Whether an outcome of inference is the one that the specification gives.
pub open spec fn agrees(r: Result<Type, InferenceError>, expected: Result<TypeTerm, InferenceFault>) -> bool {
    match expected {
        Ok(t) => r is Ok && r->Ok_0@ == t,
        Err(fault) => r is Err && r->Err_0@ == fault,
    }
}

/// The error for an unregistered item: the prefix followed by the number.
fn missing(prefix: &str, num: usize) -> (e: InferenceError)
    ensures
        e@ == InferenceFault::BadExpression(prefix@ + decimal(num as nat)),
{
    let mut message = chars_of(prefix);
    push_decimal(&mut message, num);
    InferenceError::BadExpression(string_of(&message))
}

/// The error for an expression that needs more type variables than there
/// are.
fn out_of_variables() -> (e: InferenceError)
    ensures
        e@ == exhausted(),
{
    InferenceError::BadExpression(string_of(&chars_of("type variables exhausted")))
}

impl Expression {
    /// Infers the type of the expression in a language, continuing in the
    /// given context, under the given stack of binders and table of free
    /// indices.
    pub fn infer(
        &self,
        dsl: &Language,
        ctx: &mut TypeContext,
        env: &mut Vec<Type>,
        free: &mut HashMap<usize, Type>,
    ) -> (r: Result<Type, InferenceError>)
        ensures
            final(env)@ == old(env)@,
            ({
                let expected = infer_spec(
                    dsl.primitive_types(),
                    dsl.invented_types(),
                    *self,
                    bound_types(old(env)@),
                    Inference { ctx: old(ctx)@, free: free_terms(old(free)@) },
                );
                &&& agrees(r, expected.0)
                &&& final(ctx)@ == expected.1.ctx
                &&& free_terms(final(free)@) == expected.1.free
            }),
        decreases self,
    {
        broadcast use vstd::std_specs::hash::group_hash_axioms;

        match self {
            Expression::Primitive(num) => {
                if *num < dsl.primitives.len() {
                    match ctx.instantiate(&dsl.primitives[*num].1) {
                        Some(t) => Ok(t),
                        None => Err(out_of_variables()),
                    }
                } else {
                    Err(missing("primitive does not exist: ", *num))
                }
            },
            Expression::Application(f, x) => {
                let f_tp = match f.infer(dsl, ctx, env, free) {
                    Ok(t) => t,
                    Err(e) => {
                        return Err(e);
                    },
                };
                let x_tp = match x.infer(dsl, ctx, env, free) {
                    Ok(t) => t,
                    Err(e) => {
                        return Err(e);
                    },
                };
                let ret_tp = match ctx.new_variable() {
                    Some(t) => t,
                    None => {
                        return Err(out_of_variables());
                    },
                };
                let arrow = Type::Arrow(Box::new(x_tp), Box::new(ret_tp.duplicate()));
                match ctx.unify(&f_tp, &arrow) {
                    Ok(()) => Ok(ctx.apply(&ret_tp)),
                    Err(e) => Err(InferenceError::Unify(e)),
                }
            },
            Expression::Abstraction(body) => {
                let arg_tp = match ctx.new_variable() {
                    Some(t) => t,
                    None => {
                        return Err(out_of_variables());
                    },
                };
                env.push(arg_tp.duplicate());
                assert(bound_types(env@) =~= seq![arg_tp@] + bound_types(old(env)@));
                let inferred = body.infer(dsl, ctx, env, free);
                env.pop();
                assert(env@ =~= old(env)@);
                match inferred {
                    Ok(ret_tp) => Ok(ctx.apply(&Type::Arrow(Box::new(arg_tp), Box::new(ret_tp)))),
                    Err(e) => Err(e),
                }
            },
            Expression::Index(i) => {
                if *i < env.len() {
                    Ok(ctx.apply(&env[env.len() - 1 - *i]))
                } else {
                    let k = *i - env.len();
                    match free.get(&k) {
                        Some(t) => Ok(ctx.apply(t)),
                        None => {
                            match ctx.new_variable() {
                                Some(v) => {
                                    let r = ctx.apply(&v);
                                    free.insert(k, v);
                                    assert(free_terms(free@) =~= free_terms(old(free)@).insert(
                                        k,
                                        v@,
                                    ));
                                    Ok(r)
                                },
                                None => Err(out_of_variables()),
                            }
                        },
                    }
                }
            },
            Expression::Invented(num) => {
                if *num < dsl.invented.len() {
                    match ctx.instantiate(&dsl.invented[*num].1) {
                        Some(t) => Ok(t),
                        None => Err(out_of_variables()),
                    }
                } else {
                    Err(missing("invention does not exist: ", *num))
                }
            },
        }
    }
}

impl Language {
    /// The type of an expression of this language, or the reason why it has
    /// none.
    pub open spec fn infer_result(self, expr: Expression) -> Result<TypeTerm, InferenceFault> {
        infer_spec(
            self.primitive_types(),
            self.invented_types(),
            expr,
            Seq::empty(),
            Inference { ctx: ContextState::empty(), free: Map::empty() },
        ).0
    }

    /// Infers the type of an expression in a fresh context: instantiating
    /// what is registered, unifying at each application, and giving each free
    /// index one type variable.
    pub fn infer(&self, expr: &Expression) -> (r: Result<Type, InferenceError>)
        ensures
            agrees(r, self.infer_result(*expr)),
    {
        let mut ctx = TypeContext::new();
        let mut env: Vec<Type> = Vec::new();
        let mut free: HashMap<usize, Type> = HashMap::new();
        assert(bound_types(env@) =~= Seq::empty());
        assert(free_terms(free@) =~= Map::empty());
        expr.infer(self, &mut ctx, &mut env, &mut free)
    }
}

} // verus!
