//! What a search gives out refers to nothing but what is registered and
//! what is bound.

use vstd::prelude::*;
use super::candidates::{
    invented_candidates, primitive_candidates, variable_candidates, CandidateModel,
};
use super::engine::ContextState;
use super::enumeration::{
    applied_to, completes, enumeration, extends, fills, lemma_within_members, outermost, picks,
    within, Found, Weigher,
};
use super::enumerator::{abstracted, curried, reversed, weights_of, FrameModel, HoleModel};
use super::expression::Expression;
use super::infer::{exhausted, infer_spec, Inference};
use super::language::{InferenceFault, Language};
use super::roundtrip::{
    lemma_curried_grows, lemma_invented_candidates_heads, lemma_primitive_candidates_heads,
};
use super::types::TypeTerm;

verus! {

impl Language {
    /// Whether the expression, under `n` binders, refers to nothing but
    /// what is registered and what is bound.
    pub open spec fn scopes(self, expr: Expression, n: nat) -> bool {
        self.knows(expr) && expr.indices_below(n)
    }
}

/// An expression inside `n` abstractions needs `n` binders less.
pub proof fn lemma_abstracted_scopes(dsl: Language, expr: Expression, n: nat, m: nat)
    requires
        dsl.scopes(expr, m + n),
    ensures
        dsl.scopes(abstracted(expr, n), m),
    decreases n,
{
    if n > 0 {
        lemma_abstracted_scopes(dsl, Expression::Abstraction(Box::new(expr)), (n - 1) as nat, m);
    }
}

/// Whether the expression is an index below `n`.
pub open spec fn is_index_below(expr: Expression, n: nat) -> bool {
    expr matches Expression::Index(k) && k < n
}

/// The candidates among the `n` nearest bound variables are indices below
/// `n`.
proof fn lemma_variable_candidates_scope(
    dsl: Language,
    env: Seq<TypeTerm>,
    request: TypeTerm,
    ctx: ContextState,
    n: nat,
)
    ensures
        forall|i: int|
            0 <= i < variable_candidates(env, dsl.variable_logprob, request, ctx, n).len()
                ==> is_index_below(
                (#[trigger] variable_candidates(env, dsl.variable_logprob, request, ctx, n)[i]).head,
                n,
            ),
    decreases n,
{
    if n > 0 {
        lemma_variable_candidates_scope(dsl, env, request, ctx, (n - 1) as nat);
        assert(is_index_below(Expression::Index((n - 1) as usize), n));
    }
}

/// Every candidate refers to what is registered or bound.
pub proof fn lemma_candidates_scope(
    dsl: Language,
    request: TypeTerm,
    ctx: ContextState,
    env: Seq<TypeTerm>,
)
    ensures
        forall|i: int|
            0 <= i < dsl.candidates_for(request, ctx, env).len() ==> dsl.scopes(
                (#[trigger] dsl.candidates_for(request, ctx, env)[i]).head,
                env.len(),
            ),
{
    lemma_primitive_candidates_heads(dsl, request, ctx, dsl.weighted_primitives());
    lemma_invented_candidates_heads(dsl, request, ctx, dsl.weighted_inventions());
    lemma_variable_candidates_scope(dsl, env, request, ctx, env.len());
    let primitives = primitive_candidates(
        dsl.primitive_types(),
        dsl.primitives_logprob@,
        request,
        ctx,
        dsl.weighted_primitives(),
    );
    let inventions = invented_candidates(
        dsl.invented_types(),
        dsl.invented_logprob@,
        request,
        ctx,
        dsl.weighted_inventions(),
    );
    let variables = variable_candidates(env, dsl.variable_logprob, request, ctx, env.len());
    let all = dsl.candidates_for(request, ctx, env);
    assert forall|i: int| 0 <= i < all.len() implies dsl.scopes(
        (#[trigger] all[i]).head,
        env.len(),
    ) by {
        if i < primitives.len() {
            assert(all[i] == primitives[i]);
            assert(dsl.is_head(primitives[i].head) && !(primitives[i].head is Index));
        } else if i < primitives.len() + inventions.len() {
            assert(all[i] == inventions[i - primitives.len()]);
            assert(dsl.is_head(inventions[i - primitives.len()].head) && !(inventions[i
                - primitives.len()].head is Index));
        } else {
            assert(all[i] == variables[i - primitives.len() - inventions.len()]);
            assert(is_index_below(
                variables[i - primitives.len() - inventions.len()].head,
                env.len(),
            ));
        }
    }
}

/// What fills a place refers to what is registered or bound at the place.
pub proof fn lemma_fills_scope(
    dsl: Language,
    weigh: Weigher,
    hi: nat,
    hole: HoleModel,
    ctx: ContextState,
    spent: nat,
)
    ensures
        forall|i: int|
            0 <= i < fills(dsl, weigh, hi, hole, ctx, spent).len() ==> dsl.scopes(
                (#[trigger] fills(dsl, weigh, hi, hole, ctx, spent)[i]).expr,
                hole.env.len(),
            ),
    decreases hole.room, 1nat, hole.request, 0nat,
{
    let (request, env) = curried(hole.request, hole.env);
    let found = dsl.candidates_for(request, ctx, reversed(env));
    if !(spent >= hi || hole.room == 0 || env.len() > usize::MAX || found.len() == 0) {
        lemma_candidates_scope(dsl, request, ctx, reversed(env));
        lemma_curried_grows(hole.request, hole.env);
        let opened = HoleModel {
            request,
            env,
            lambdas: (env.len() - hole.env.len()) as nat,
            room: (hole.room - 1) as nat,
        };
        lemma_picks_scope(dsl, weigh, hi, found, weigh(weights_of(found)), opened, spent, 0);
    }
}

/// What fills a place with one of the heads refers to what is registered
/// or bound outside the abstractions of the place.
pub proof fn lemma_picks_scope(
    dsl: Language,
    weigh: Weigher,
    hi: nat,
    candidates: Seq<CandidateModel>,
    costs: Seq<u64>,
    hole: HoleModel,
    spent: nat,
    i: nat,
)
    requires
        hole.lambdas <= hole.env.len(),
        forall|k: int|
            0 <= k < candidates.len() ==> dsl.scopes((#[trigger] candidates[k]).head, hole.env.len()),
    ensures
        forall|k: int|
            0 <= k < picks(dsl, weigh, hi, candidates, costs, hole, spent, i).len() ==> dsl.scopes(
                (#[trigger] picks(dsl, weigh, hi, candidates, costs, hole, spent, i)[k]).expr,
                (hole.env.len() - hole.lambdas) as nat,
            ),
    decreases hole.room, 3nat, hole.request, candidates.len() - i,
{
    if !(i >= candidates.len() || i >= costs.len()) {
        lemma_picks_scope(dsl, weigh, hi, candidates, costs, hole, spent, i + 1);
        if spent + costs[i as int] < hi {
            let frame = FrameModel {
                f: candidates[i as int].head,
                pending: candidates[i as int].tp,
                env: hole.env,
                lambdas: hole.lambdas,
                room: hole.room,
            };
            lemma_completes_scope(
                dsl,
                weigh,
                hi,
                frame,
                candidates[i as int].ctx,
                spent + costs[i as int] as nat,
            );
        }
    }
}

/// What an application becomes refers to what is registered or bound
/// outside its abstractions.
pub proof fn lemma_completes_scope(
    dsl: Language,
    weigh: Weigher,
    hi: nat,
    frame: FrameModel,
    ctx: ContextState,
    spent: nat,
)
    requires
        frame.lambdas <= frame.env.len(),
        dsl.scopes(frame.f, frame.env.len()),
    ensures
        forall|k: int|
            0 <= k < completes(dsl, weigh, hi, frame, ctx, spent).len() ==> dsl.scopes(
                (#[trigger] completes(dsl, weigh, hi, frame, ctx, spent)[k]).expr,
                (frame.env.len() - frame.lambdas) as nat,
            ),
    decreases frame.room, 2nat, frame.pending, 0nat,
{
    match frame.pending {
        TypeTerm::Arrow(arg, ret) => {
            let hole = HoleModel {
                request: ctx.apply(*arg),
                env: frame.env,
                lambdas: 0,
                room: frame.room,
            };
            lemma_fills_scope(dsl, weigh, hi, hole, ctx, spent);
            lemma_extends_scope(
                dsl,
                weigh,
                hi,
                FrameModel { pending: *ret, ..frame },
                fills(dsl, weigh, hi, hole, ctx, spent),
                0,
            );
        },
        _ => {
            lemma_abstracted_scopes(
                dsl,
                frame.f,
                frame.lambdas,
                (frame.env.len() - frame.lambdas) as nat,
            );
        },
    }
}

/// What an application becomes with one of the arguments refers to what is
/// registered or bound outside its abstractions.
pub proof fn lemma_extends_scope(
    dsl: Language,
    weigh: Weigher,
    hi: nat,
    frame: FrameModel,
    arguments: Seq<Found>,
    j: nat,
)
    requires
        frame.lambdas <= frame.env.len(),
        dsl.scopes(frame.f, frame.env.len()),
        forall|k: int|
            0 <= k < arguments.len() ==> dsl.scopes((#[trigger] arguments[k]).expr, frame.env.len()),
    ensures
        forall|k: int|
            0 <= k < extends(dsl, weigh, hi, frame, arguments, j).len() ==> dsl.scopes(
                (#[trigger] extends(dsl, weigh, hi, frame, arguments, j)[k]).expr,
                (frame.env.len() - frame.lambdas) as nat,
            ),
    decreases frame.room, 2nat, frame.pending, 1 + arguments.len() - j,
{
    if j < arguments.len() {
        lemma_extends_scope(dsl, weigh, hi, frame, arguments, j + 1);
        assert(dsl.scopes(arguments[j as int].expr, frame.env.len()));
        lemma_completes_scope(
            dsl,
            weigh,
            hi,
            applied_to(frame, arguments[j as int].expr),
            arguments[j as int].ctx,
            arguments[j as int].spent,
        );
    }
}

/// Whether inference did not fail for a reference to something that is not
/// registered: it succeeded, or failed in unification, or for want of type
/// variables.
pub open spec fn found_all(outcome: Result<TypeTerm, InferenceFault>) -> bool {
    match outcome {
        Ok(_) => true,
        Err(InferenceFault::Unify(_)) => true,
        Err(fault) => fault == exhausted(),
    }
}

/// Inference of an expression that refers to nothing but what is
/// registered does not fail for a reference.
pub proof fn lemma_infer_finds_all(
    primitives: Seq<TypeTerm>,
    invented: Seq<TypeTerm>,
    expr: Expression,
    env: Seq<TypeTerm>,
    st: Inference,
)
    requires
        expr.primitives_below(primitives.len()),
        expr.inventions_below(invented.len()),
    ensures
        found_all(infer_spec(primitives, invented, expr, env, st).0),
    decreases expr,
{
    match expr {
        Expression::Application(f, x) => {
            lemma_infer_finds_all(primitives, invented, *f, env, st);
            let after_f = infer_spec(primitives, invented, *f, env, st).1;
            lemma_infer_finds_all(primitives, invented, *x, env, after_f);
        },
        Expression::Abstraction(body) => {
            let made = st.ctx.new_variable();
            if made.0 is Some {
                lemma_infer_finds_all(
                    primitives,
                    invented,
                    *body,
                    seq![made.0->Some_0] + env,
                    Inference { ctx: made.1, ..st },
                );
            }
        },
        _ => {},
    }
}

/// Inference of an expression that a search gives out does not fail for a
/// reference to something that is not registered: it succeeds, or fails in
/// unification, or for want of type variables.
pub proof fn law_enumerated_infers_without_missing(
    dsl: Language,
    weigh: Weigher,
    request: TypeTerm,
    lo: nat,
    hi: nat,
    i: int,
)
    requires
        0 <= i < enumeration(dsl, weigh, request, lo, hi).len(),
    ensures
        found_all(dsl.infer_result(enumeration(dsl, weigh, request, lo, hi)[i].0)),
{
    law_enumerated_in_scope(dsl, weigh, request, lo, hi, i);
    lemma_infer_finds_all(
        dsl.primitive_types(),
        dsl.invented_types(),
        enumeration(dsl, weigh, request, lo, hi)[i].0,
        Seq::empty(),
        Inference { ctx: ContextState::empty(), free: Map::empty() },
    );
}

/// Every expression that a search gives out is closed and refers to
/// nothing but what is registered: each primitive and each invention in it
/// is registered, and each index in it refers to an abstraction around it.
pub proof fn law_enumerated_in_scope(
    dsl: Language,
    weigh: Weigher,
    request: TypeTerm,
    lo: nat,
    hi: nat,
    i: int,
)
    requires
        0 <= i < enumeration(dsl, weigh, request, lo, hi).len(),
    ensures
        dsl.knows(enumeration(dsl, weigh, request, lo, hi)[i].0),
        enumeration(dsl, weigh, request, lo, hi)[i].0.indices_below(0),
{
    let top = fills(dsl, weigh, hi, outermost(request), ContextState::empty(), 0);
    lemma_within_members(lo, hi, top, i);
    lemma_fills_scope(dsl, weigh, hi, outermost(request), ContextState::empty(), 0);
    let j = choose|j: int|
        0 <= j < top.len() && (#[trigger] top[j]).expr == within(lo, hi, top)[i].0 && top[j].spent
            == within(lo, hi, top)[i].1;
    assert(dsl.scopes(top[j].expr, 0));
}

} // verus!
