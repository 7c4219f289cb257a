//! The heads that can stand at a place of a requested type.

use vstd::prelude::*;
use super::engine::{ContextState, TypeContext};
use super::expression::Expression;
use super::infer::bound_types;
use super::language::Language;
use super::types::{Type, TypeTerm};

verus! {

/// A head that can stand at a place of a requested type: a primitive, an
/// invention or a bound variable whose result type unifies with the request.
pub struct Candidate {
    /// The head: `Primitive`, `Invented` or `Index`.
    pub head: Expression,
    /// The type of the head where the request is met.
    pub tp: Type,
    /// The log-probability registered for the head.
    pub logprob: i64,
    /// The typing context in which the request is met.
    pub ctx: TypeContext,
}

/// The mathematical value of a [`Candidate`].
pub struct CandidateModel {
    pub head: Expression,
    pub tp: TypeTerm,
    pub logprob: i64,
    pub ctx: ContextState,
}

impl View for Candidate {
    type V = CandidateModel;

    open spec fn view(&self) -> CandidateModel {
        CandidateModel { head: self.head, tp: self.tp@, logprob: self.logprob, ctx: self.ctx@ }
    }
}

/// The mathematical values of a sequence of candidates.
pub open spec fn candidate_models(candidates: Seq<Candidate>) -> Seq<CandidateModel> {
    Seq::new(candidates.len(), |i: int| candidates[i]@)
}

/// Whether something of type `tp` can stand where `request` is asked for:
/// its type, with fresh variables if it is a registered item, has to give
/// the request as its result. Where it can, its type and the context after
/// unifying.
pub open spec fn admitted(tp: TypeTerm, registered: bool, request: TypeTerm, ctx: ContextState) -> Option<
    (TypeTerm, ContextState),
> {
    let placed = if registered {
        ctx.instantiate(tp)
    } else {
        (Some(tp), ctx)
    };
    match placed.0 {
        Some(t) => match placed.1.unify(t.result_type(), request) {
            (Ok(_), unified) => Some((unified.apply(t), unified)),
            (Err(_), _) => None,
        },
        None => None,
    }
}

/// The candidate for one item, if it is admitted.
pub open spec fn candidate_of(
    head: Expression,
    tp: TypeTerm,
    logprob: i64,
    registered: bool,
    request: TypeTerm,
    ctx: ContextState,
) -> Seq<CandidateModel> {
    match admitted(tp, registered, request, ctx) {
        Some((tp, ctx)) => seq![CandidateModel { head, tp, logprob, ctx }],
        None => Seq::empty(),
    }
}

/// The candidates among the first `n` primitives, in order.
pub open spec fn primitive_candidates(
    types: Seq<TypeTerm>,
    logprobs: Seq<i64>,
    request: TypeTerm,
    ctx: ContextState,
    n: nat,
) -> Seq<CandidateModel>
    decreases n,
{
    if n == 0 {
        Seq::empty()
    } else {
        primitive_candidates(types, logprobs, request, ctx, (n - 1) as nat) + candidate_of(
            Expression::Primitive((n - 1) as usize),
            types[n - 1],
            logprobs[n - 1],
            true,
            request,
            ctx,
        )
    }
}

/// The candidates among the first `n` inventions, in order.
pub open spec fn invented_candidates(
    types: Seq<TypeTerm>,
    logprobs: Seq<i64>,
    request: TypeTerm,
    ctx: ContextState,
    n: nat,
) -> Seq<CandidateModel>
    decreases n,
{
    if n == 0 {
        Seq::empty()
    } else {
        invented_candidates(types, logprobs, request, ctx, (n - 1) as nat) + candidate_of(
            Expression::Invented((n - 1) as usize),
            types[n - 1],
            logprobs[n - 1],
            true,
            request,
            ctx,
        )
    }
}

/// The candidates among the `n` nearest bound variables, nearest first.
pub open spec fn variable_candidates(
    env: Seq<TypeTerm>,
    logprob: i64,
    request: TypeTerm,
    ctx: ContextState,
    n: nat,
) -> Seq<CandidateModel>
    decreases n,
{
    if n == 0 {
        Seq::empty()
    } else {
        variable_candidates(env, logprob, request, ctx, (n - 1) as nat) + candidate_of(
            Expression::Index((n - 1) as usize),
            env[n - 1],
            logprob,
            false,
            request,
            ctx,
        )
    }
}

impl Language {
    /// The number of primitives that have a log-probability.
    pub open spec fn weighted_primitives(self) -> nat {
        if self.primitives.len() <= self.primitives_logprob.len() {
            self.primitives.len() as nat
        } else {
            self.primitives_logprob.len() as nat
        }
    }

    /// The number of inventions that have a log-probability.
    pub open spec fn weighted_inventions(self) -> nat {
        if self.invented.len() <= self.invented_logprob.len() {
            self.invented.len() as nat
        } else {
            self.invented_logprob.len() as nat
        }
    }

    /// The candidates for a place of type `request` under the bound types
    /// `env`, nearest binder first: primitives, then inventions, then bound
    /// variables, each kind in order. What is not admitted is left out, and
    /// so is a registered item without a log-probability.
    pub open spec fn candidates_for(
        self,
        request: TypeTerm,
        ctx: ContextState,
        env: Seq<TypeTerm>,
    ) -> Seq<CandidateModel> {
        primitive_candidates(
            self.primitive_types(),
            self.primitives_logprob@,
            request,
            ctx,
            self.weighted_primitives(),
        ) + invented_candidates(
            self.invented_types(),
            self.invented_logprob@,
            request,
            ctx,
            self.weighted_inventions(),
        ) + variable_candidates(env, self.variable_logprob, request, ctx, env.len())
    }
}

impl Type {
    /// The type that remains once every curried argument has been supplied.
    pub fn result(&self) -> (r: &Type)
        ensures
            r@ == self@.result_type(),
        decreases self,
    {
        match self {
            Type::Arrow(_, ret) => ret.result(),
            _ => self,
        }
    }
}

/// Tries one item as a candidate and appends it if it is admitted.
fn consider(
    found: &mut Vec<Candidate>,
    head: Expression,
    tp: &Type,
    logprob: i64,
    registered: bool,
    request: &Type,
    ctx: &TypeContext,
)
    ensures
        candidate_models(final(found)@) == candidate_models(old(found)@) + candidate_of(
            head,
            tp@,
            logprob,
            registered,
            request@,
            ctx@,
        ),
{
    let mut own = ctx.duplicate();
    let placed = if registered {
        own.instantiate(tp)
    } else {
        Some(tp.duplicate())
    };
    let ghost added = candidate_of(head, tp@, logprob, registered, request@, ctx@);
    match placed {
        Some(t) => {
            match own.unify(t.result(), request) {
                Ok(()) => {
                    let met = own.apply(&t);
                    found.push(Candidate { head, tp: met, logprob, ctx: own });
                    assert(candidate_models(found@) =~= candidate_models(old(found)@) + added);
                },
                Err(_) => {
                    assert(candidate_models(found@) =~= candidate_models(old(found)@) + added);
                },
            }
        },
        None => {
            assert(candidate_models(found@) =~= candidate_models(old(found)@) + added);
        },
    }
}

/// The heads that can stand at a place of type `request`, each with its type
/// and the context in which it meets the request. Every primitive, every
/// invention and every bound variable is tried in a copy of the context, so
/// that no candidate sees what another has bound.
///
/// `env` holds the types of the binders in scope, innermost last.
pub fn candidates(dsl: &Language, request: &Type, ctx: &TypeContext, env: &Vec<Type>) -> (found:
    Vec<Candidate>)
    ensures
        candidate_models(found@) == dsl.candidates_for(request@, ctx@, bound_types(env@)),
{
    let mut found: Vec<Candidate> = Vec::new();
    assert(candidate_models(found@) =~= Seq::empty());
    let mut i: usize = 0;
    while i < dsl.primitives.len() && i < dsl.primitives_logprob.len()
        invariant
            i <= dsl.weighted_primitives(),
            candidate_models(found@) == primitive_candidates(
                dsl.primitive_types(),
                dsl.primitives_logprob@,
                request@,
                ctx@,
                i as nat,
            ),
        decreases dsl.weighted_primitives() - i,
    {
        consider(
            &mut found,
            Expression::Primitive(i),
            &dsl.primitives[i].1,
            dsl.primitives_logprob[i],
            true,
            request,
            ctx,
        );
        i = i + 1;
    }
    let ghost primitives = candidate_models(found@);
    let mut i: usize = 0;
    assert(primitives + Seq::<CandidateModel>::empty() =~= primitives);
    while i < dsl.invented.len() && i < dsl.invented_logprob.len()
        invariant
            i <= dsl.weighted_inventions(),
            candidate_models(found@) == primitives + invented_candidates(
                dsl.invented_types(),
                dsl.invented_logprob@,
                request@,
                ctx@,
                i as nat,
            ),
        decreases dsl.weighted_inventions() - i,
    {
        let ghost before = invented_candidates(
            dsl.invented_types(),
            dsl.invented_logprob@,
            request@,
            ctx@,
            i as nat,
        );
        consider(
            &mut found,
            Expression::Invented(i),
            &dsl.invented[i].1,
            dsl.invented_logprob[i],
            true,
            request,
            ctx,
        );
        proof {
            let added = candidate_of(
                Expression::Invented(i),
                dsl.invented_types()[i as int],
                dsl.invented_logprob@[i as int],
                true,
                request@,
                ctx@,
            );
            assert((primitives + before) + added =~= primitives + (before + added));
        }
        i = i + 1;
    }
    let ghost registered = candidate_models(found@);
    let ghost bound = bound_types(env@);
    let mut i: usize = 0;
    assert(registered + Seq::<CandidateModel>::empty() =~= registered);
    while i < env.len()
        invariant
            i <= env.len(),
            bound == bound_types(env@),
            candidate_models(found@) == registered + variable_candidates(
                bound,
                dsl.variable_logprob,
                request@,
                ctx@,
                i as nat,
            ),
        decreases env.len() - i,
    {
        let ghost before = variable_candidates(
            bound,
            dsl.variable_logprob,
            request@,
            ctx@,
            i as nat,
        );
        consider(
            &mut found,
            Expression::Index(i),
            &env[env.len() - 1 - i],
            dsl.variable_logprob,
            false,
            request,
            ctx,
        );
        proof {
            let added = candidate_of(
                Expression::Index(i),
                bound[i as int],
                dsl.variable_logprob,
                false,
                request@,
                ctx@,
            );
            assert((registered + before) + added =~= registered + (before + added));
        }
        i = i + 1;
    }
    found
}

} // verus!
