//! The typing context: substitutions found by unification and the supply of
//! fresh type variables. The unifier itself is `polytype`'s.

use vstd::prelude::*;
use polytype::Type as Polytype;
use super::types::{lemma_first_seen_len, Type, TypeTerm, UnificationError, UnificationFault};

verus! {

/// `polytype::Context`: substitutions and a counter of variables. Nothing
/// is known of a value but what the functions below say.
#[verifier::external_type_specification]
#[verifier::external_body]
pub struct ExContext(polytype::Context);

/// `polytype::Type`: a type as `polytype` holds it. It only passes between
/// the conversions and the calls below.
#[verifier::external_type_specification]
#[verifier::external_body]
pub struct ExPolytype(Polytype);

/// The substitutions that a `polytype::Context` holds: for each bound variable
/// the type it stands for.
pub uninterp spec fn bindings(ctx: polytype::Context) -> Map<u32, TypeTerm>;

/// The number of the next variable that a `polytype::Context` will hand out.
pub uninterp spec fn next_variable(ctx: polytype::Context) -> nat;

/// What `polytype::Context::unify` makes of two types under given
/// substitutions, where variables are left in them: the extended
/// substitutions, or the reason for failure.
pub uninterp spec fn unified(bindings: Map<u32, TypeTerm>, a: TypeTerm, b: TypeTerm) -> Result<
    Map<u32, TypeTerm>,
    UnificationFault,
>;

/// What `polytype::Type::apply` makes of the type that a bound variable
/// stands for, under given substitutions.
pub uninterp spec fn applied(bindings: Map<u32, TypeTerm>, t: TypeTerm) -> TypeTerm;

/// What `polytype::Type::apply` makes of a type: a function and a
/// constructed type are applied part by part; a bound variable becomes what
/// applying makes of the type it stands for; an unbound variable stays.
pub open spec fn substituted(bindings: Map<u32, TypeTerm>, t: TypeTerm) -> TypeTerm
    decreases t,
{
    match t {
        TypeTerm::Arrow(arg, ret) => TypeTerm::Arrow(
            Box::new(substituted(bindings, *arg)),
            Box::new(substituted(bindings, *ret)),
        ),
        TypeTerm::Constructed(name, args) => TypeTerm::Constructed(
            name,
            Seq::new(
                args.len(),
                |i: int|
                    if 0 <= i < args.len() {
                        substituted(bindings, args[i])
                    } else {
                        arbitrary()
                    },
            ),
        ),
        TypeTerm::Variable(v) => if bindings.contains_key(v) {
            applied(bindings, bindings[v])
        } else {
            t
        },
    }
}

/// What `polytype::Context::unify` makes of two types: it applies the
/// substitutions to both. Where that makes them equal, it succeeds and
/// leaves the substitutions as they are. Where it makes them different
/// types without variables, it fails and gives the two. Everywhere else it
/// gives what `unified` names.
pub open spec fn unification(bindings: Map<u32, TypeTerm>, a: TypeTerm, b: TypeTerm) -> Result<
    Map<u32, TypeTerm>,
    UnificationFault,
> {
    if settled(bindings, a, b) is Some {
        settled(bindings, a, b)->Some_0
    } else {
        unified(bindings, a, b)
    }
}

/// What unifying makes of two types, where applying the substitutions to
/// them leaves no question: equal types unify as things stand, different
/// types without variables do not.
pub open spec fn settled(bindings: Map<u32, TypeTerm>, a: TypeTerm, b: TypeTerm) -> Option<
    Result<Map<u32, TypeTerm>, UnificationFault>,
> {
    let x = substituted(bindings, a);
    let y = substituted(bindings, b);
    if x == y {
        Some(Ok(bindings))
    } else if x.variables().len() == 0 && y.variables().len() == 0 {
        Some(Err(UnificationFault::Failure(x, y)))
    } else {
        None
    }
}

/// Whether `rank` falls along every binding: a bound variable ranks above
/// each bound variable that its type mentions.
pub open spec fn rank_orders(bindings: Map<u32, TypeTerm>, rank: spec_fn(u32) -> nat) -> bool {
    forall|v: u32, w: u32|
        bindings.contains_key(v) && bindings.contains_key(w) && #[trigger] bindings[v].mentions(w)
            ==> rank(w) < rank(v)
}

/// Whether no chain of substitutions leads from a variable back to itself.
/// Replacing bound variables comes to an end exactly for such substitutions.
pub open spec fn acyclic(bindings: Map<u32, TypeTerm>) -> bool {
    exists|rank: spec_fn(u32) -> nat| rank_orders(bindings, rank)
}

/// The substitutions of a context in which nothing is bound yet.
pub open spec fn no_bindings() -> Map<u32, TypeTerm> {
    Map::empty()
}

/// Turns a type into `polytype`'s representation of it, node for node.
#[verifier::external_body]
fn lower(t: &Type) -> Polytype {
    match t {
        Type::Arrow(arg, ret) => Polytype::Arrow(
            polytype::Arrow { arg: Box::new(lower(arg)), ret: Box::new(lower(ret)) },
        ),
        Type::Constructed(name, args) => Polytype::Constructed(
            name,
            args.iter().map(|a| Box::new(lower(a))).collect(),
        ),
        Type::Variable(v) => Polytype::Variable(*v),
    }
}

/// Turns `polytype`'s representation of a type back, node for node.
#[verifier::external_body]
fn lift(t: &Polytype) -> Type {
    match t {
        Polytype::Arrow(arrow) => Type::Arrow(
            Box::new(lift(&arrow.arg)),
            Box::new(lift(&arrow.ret)),
        ),
        Polytype::Constructed(name, args) => Type::Constructed(
            name,
            args.iter().map(|a| lift(a)).collect(),
        ),
        Polytype::Variable(v) => Type::Variable(*v),
    }
}

/// `polytype::Context::default`: a context without substitutions whose first
/// variable is number 0.
#[verifier::external_body]
fn context_default() -> (ctx: polytype::Context)
    ensures
        bindings(ctx) == no_bindings(),
        next_variable(ctx) == 0,
{
    polytype::Context::default()
}

/// `Clone::clone` of a `polytype::Context`: the copy holds the same
/// substitutions and the same next variable.
#[verifier::external_body]
fn context_clone(ctx: &polytype::Context) -> (copy: polytype::Context)
    ensures
        bindings(copy) == bindings(*ctx),
        next_variable(copy) == next_variable(*ctx),
{
    ctx.clone()
}

/// `polytype::Context::new_variable`: hands out the next unused variable and
/// advances the counter by one; the substitutions stay.
#[verifier::external_body]
fn context_new_variable(ctx: &mut polytype::Context) -> (t: Type)
    requires
        next_variable(*old(ctx)) < u32::MAX,
    ensures
        t@ == TypeTerm::Variable(next_variable(*old(ctx)) as u32),
        next_variable(*final(ctx)) == next_variable(*old(ctx)) + 1,
        bindings(*final(ctx)) == bindings(*old(ctx)),
    no_unwind
{
    lift(&ctx.new_variable())
}

/// `polytype::Context::unify`: extends the substitutions so that the two
/// types become equal, or reports why they cannot and leaves the context as it
/// was. Types that are equal once the substitutions are applied unify
/// without a new substitution; different types without variables do not
/// unify. The counter of variables stays.
#[verifier::external_body]
fn context_unify(ctx: &mut polytype::Context, a: &Type, b: &Type) -> (r: Result<
    (),
    UnificationError,
>)
    requires
        acyclic(bindings(*old(ctx))),
    ensures
        next_variable(*final(ctx)) == next_variable(*old(ctx)),
        acyclic(bindings(*final(ctx))),
        match (if settled(bindings(*old(ctx)), a@, b@) is Some {
            settled(bindings(*old(ctx)), a@, b@)->Some_0
        } else {
            unified(bindings(*old(ctx)), a@, b@)
        }) {
            Ok(extended) => r is Ok && bindings(*final(ctx)) == extended,
            Err(fault) => r is Err && r->Err_0@ == fault && bindings(*final(ctx)) == bindings(
                *old(ctx),
            ),
        },
    no_unwind
{
    match ctx.unify(&lower(a), &lower(b)) {
        Ok(()) => Ok(()),
        Err(polytype::UnificationError::Occurs(v)) => Err(UnificationError::Occurs(v)),
        Err(polytype::UnificationError::Failure(x, y)) => Err(
            UnificationError::Failure(lift(&x), lift(&y)),
        ),
    }
}

/// `polytype::Type::apply`: the type with every bound variable replaced by
/// what it stands for, applied in turn; the rest of the type stays as it
/// is.
#[verifier::external_body]
fn context_apply(ctx: &polytype::Context, t: &Type) -> (r: Type)
    requires
        acyclic(bindings(*ctx)),
    ensures
        r@ == substituted(bindings(*ctx), t@),
        t@ matches TypeTerm::Variable(v) ==> bindings(*ctx).contains_key(v) ==> r@ == applied(
            bindings(*ctx),
            bindings(*ctx)[v],
        ),
{
    lift(&lower(t).apply(ctx))
}

/// `polytype::Type::instantiate_indep`: the type with its variables replaced
/// by variables that the context has not handed out before. The first
/// variable met, from left to right, becomes the next unused variable, the
/// next one met the one after it, and so on; a variable met again becomes
/// what it became before. The counter advances by the number of distinct
/// variables; the substitutions stay.
#[verifier::external_body]
fn context_instantiate(ctx: &mut polytype::Context, t: &Type) -> (r: Type)
    requires
        next_variable(*old(ctx)) + t@.occurrences() <= u32::MAX,
    ensures
        r@ == t@.instantiated(next_variable(*old(ctx))).0,
        next_variable(*final(ctx)) == t@.instantiated(next_variable(*old(ctx))).1,
        bindings(*final(ctx)) == bindings(*old(ctx)),
    no_unwind
{
    lift(&lower(t).instantiate_indep(ctx))
}

/// The state of a typing context as contracts see it.
pub struct ContextState {
    /// For each bound variable the type it stands for.
    pub bindings: Map<u32, TypeTerm>,
    /// The number of the next variable to be handed out.
    pub next: nat,
    /// An upper bound of `next` that the context keeps: it counts one for each
    /// fresh variable and one for each variable occurrence in an instantiated
    /// type. No variable is handed out beyond `u32::MAX`.
    pub ceiling: nat,
}

impl ContextState {
    /// The state of a new context.
    pub open spec fn empty() -> ContextState {
        ContextState { bindings: Map::empty(), next: 0, ceiling: 0 }
    }

    /// A fresh variable and the state after handing it out, or `None` and the
    /// same state where the supply is exhausted.
    pub open spec fn new_variable(self) -> (Option<TypeTerm>, ContextState) {
        if self.ceiling < u32::MAX {
            (
                Some(TypeTerm::Variable(self.next as u32)),
                ContextState { next: self.next + 1, ceiling: self.ceiling + 1, ..self },
            )
        } else {
            (None, self)
        }
    }

    /// The type with fresh variables in place of its own and the state after
    /// handing them out, or `None` and the same state where the supply might
    /// not suffice.
    pub open spec fn instantiate(self, t: TypeTerm) -> (Option<TypeTerm>, ContextState) {
        if self.ceiling + t.occurrences() <= u32::MAX {
            (
                Some(t.instantiated(self.next).0),
                ContextState {
                    next: t.instantiated(self.next).1,
                    ceiling: self.ceiling + t.occurrences(),
                    ..self
                },
            )
        } else {
            (None, self)
        }
    }

    /// The outcome of unifying two types and the state after it: extended on
    /// success, the same on failure.
    pub open spec fn unify(self, a: TypeTerm, b: TypeTerm) -> (
        Result<(), UnificationFault>,
        ContextState,
    ) {
        match unification(self.bindings, a, b) {
            Ok(extended) => (Ok(()), ContextState { bindings: extended, ..self }),
            Err(fault) => (Err(fault), self),
        }
    }

    /// The type with every bound variable replaced by what it stands for.
    pub open spec fn apply(self, t: TypeTerm) -> TypeTerm {
        substituted(self.bindings, t)
    }
}

/// A typing context: the substitutions found so far and the supply of fresh
/// type variables.
pub struct TypeContext {
    inner: polytype::Context,
    ceiling: u32,
}

impl View for TypeContext {
    type V = ContextState;

    closed spec fn view(&self) -> ContextState {
        ContextState {
            bindings: bindings(self.inner),
            next: next_variable(self.inner),
            ceiling: self.ceiling as nat,
        }
    }
}

impl TypeContext {
    #[verifier::type_invariant]
    spec fn sound(self) -> bool {
        &&& next_variable(self.inner) <= self.ceiling
        &&& acyclic(bindings(self.inner))
    }

    /// A context without substitutions.
    pub fn new() -> (ctx: TypeContext)
        ensures
            ctx@ == ContextState::empty(),
    {
        let inner = context_default();
        proof {
            let rank = |v: u32| 0nat;
            assert(rank_orders(bindings(inner), rank));
        }
        TypeContext { inner, ceiling: 0 }
    }

    /// A copy of the context.
    pub fn duplicate(&self) -> (copy: TypeContext)
        ensures
            copy@ == self@,
    {
        proof {
            use_type_invariant(self);
        }
        TypeContext { inner: context_clone(&self.inner), ceiling: self.ceiling }
    }

    /// A variable that the context has not handed out before.
    pub fn new_variable(&mut self) -> (t: Option<Type>)
        ensures
            final(self)@ == old(self)@.new_variable().1,
            match old(self)@.new_variable().0 {
                Some(term) => t is Some && t->Some_0@ == term,
                None => t is None,
            },
    {
        proof {
            use_type_invariant(&*self);
        }
        if self.ceiling < u32::MAX {
            self.ceiling = self.ceiling + 1;
            Some(context_new_variable(&mut self.inner))
        } else {
            None
        }
    }

    /// The type with variables that the context has not handed out before in
    /// place of its own.
    pub fn instantiate(&mut self, t: &Type) -> (r: Option<Type>)
        ensures
            final(self)@ == old(self)@.instantiate(t@).1,
            match old(self)@.instantiate(t@).0 {
                Some(term) => r is Some && r->Some_0@ == term,
                None => r is None,
            },
    {
        proof {
            use_type_invariant(&*self);
        }
        let n = t.variable_occurrences();
        proof {
            t@.lemma_occurrences();
            lemma_first_seen_len(t@.variables());
        }
        if n <= (u32::MAX - self.ceiling) as u64 {
            self.ceiling = self.ceiling + n as u32;
            Some(context_instantiate(&mut self.inner, t))
        } else {
            None
        }
    }

    /// Extends the substitutions so that the two types become equal, or
    /// reports why that cannot be done and leaves the context as it was.
    pub fn unify(&mut self, a: &Type, b: &Type) -> (r: Result<(), UnificationError>)
        ensures
            final(self)@ == old(self)@.unify(a@, b@).1,
            match old(self)@.unify(a@, b@).0 {
                Ok(_) => r is Ok,
                Err(fault) => r is Err && r->Err_0@ == fault,
            },
    {
        proof {
            use_type_invariant(&*self);
        }
        context_unify(&mut self.inner, a, b)
    }

    /// The type with every bound variable replaced by what it stands for.
    pub fn apply(&self, t: &Type) -> (r: Type)
        ensures
            r@ == self@.apply(t@),
    {
        proof {
            use_type_invariant(self);
        }
        context_apply(&self.inner, t)
    }
}

} // verus!
