//! The search comes to an end: how many steps a search takes, and the proof
//! that after so many steps its window is exhausted.

use vstd::prelude::*;
use super::candidates::CandidateModel;
use super::engine::ContextState;
use super::enumeration::{
    answer, applied_to, completes, driven, enumeration, extends, fills, law_search_gives_enumeration,
    picks, Found, Weigher,
};
use super::enumerator::{
    abstracted, curried, reversed, weights_of, ChoiceModel, FrameModel, HoleModel, Mode,
    SearchState, Weight,
};
use super::language::Language;
use super::types::TypeTerm;

verus! {

/// Whether the caller hands back one cost for each head.
pub open spec fn answers_all(weigh: Weigher) -> bool {
    forall|weights: Seq<Weight>| (#[trigger] weigh(weights)).len() == weights.len()
}

/// The steps that filling a place takes, without those that go on with what
/// fills it.
pub open spec fn fills_steps(
    dsl: Language,
    weigh: Weigher,
    hi: nat,
    hole: HoleModel,
    ctx: ContextState,
    spent: nat,
) -> nat
    decreases hole.room, 1nat, hole.request, 0nat,
{
    let (request, env) = curried(hole.request, hole.env);
    let found = dsl.candidates_for(request, ctx, reversed(env));
    if spent >= hi || hole.room == 0 || env.len() > usize::MAX || found.len() == 0 {
        1
    } else {
        2 + picks_steps(
            dsl,
            weigh,
            hi,
            found,
            weigh(weights_of(found)),
            HoleModel {
                request,
                env,
                lambdas: (env.len() - hole.env.len()) as nat,
                room: (hole.room - 1) as nat,
            },
            spent,
            0,
        )
    }
}

/// The steps that trying the heads from position `i` on takes.
pub open spec fn picks_steps(
    dsl: Language,
    weigh: Weigher,
    hi: nat,
    candidates: Seq<CandidateModel>,
    costs: Seq<u64>,
    hole: HoleModel,
    spent: nat,
    i: nat,
) -> nat
    decreases hole.room, 3nat, hole.request, candidates.len() - i,
{
    if i >= candidates.len() || i >= costs.len() {
        1
    } else {
        1 + (if spent + costs[i as int] < hi {
            completes_steps(
                dsl,
                weigh,
                hi,
                FrameModel {
                    f: candidates[i as int].head,
                    pending: candidates[i as int].tp,
                    env: hole.env,
                    lambdas: hole.lambdas,
                    room: hole.room,
                },
                candidates[i as int].ctx,
                spent + costs[i as int] as nat,
            )
        } else {
            0
        }) + picks_steps(dsl, weigh, hi, candidates, costs, hole, spent, i + 1)
    }
}

/// The steps that completing an application takes.
pub open spec fn completes_steps(
    dsl: Language,
    weigh: Weigher,
    hi: nat,
    frame: FrameModel,
    ctx: ContextState,
    spent: nat,
) -> nat
    decreases frame.room, 2nat, frame.pending, 0nat,
{
    match frame.pending {
        TypeTerm::Arrow(arg, ret) => {
            let hole = HoleModel {
                request: ctx.apply(*arg),
                env: frame.env,
                lambdas: 0,
                room: frame.room,
            };
            1 + fills_steps(dsl, weigh, hi, hole, ctx, spent) + extends_steps(
                dsl,
                weigh,
                hi,
                FrameModel { pending: *ret, ..frame },
                fills(dsl, weigh, hi, hole, ctx, spent),
                0,
            )
        },
        _ => 1,
    }
}

/// The steps that completing an application with each of the arguments from
/// position `j` on takes.
pub open spec fn extends_steps(
    dsl: Language,
    weigh: Weigher,
    hi: nat,
    frame: FrameModel,
    arguments: Seq<Found>,
    j: nat,
) -> nat
    decreases frame.room, 2nat, frame.pending, 1 + arguments.len() - j,
{
    if j >= arguments.len() {
        0
    } else {
        completes_steps(
            dsl,
            weigh,
            hi,
            applied_to(frame, arguments[j as int].expr),
            arguments[j as int].ctx,
            arguments[j as int].spent,
        ) + extends_steps(dsl, weigh, hi, frame, arguments, j + 1)
    }
}

/// The steps that going on with an expression takes, once it fills a place
/// inside the applications of `path`.
pub open spec fn resumed_steps(
    dsl: Language,
    weigh: Weigher,
    hi: nat,
    path: Seq<FrameModel>,
    found: Found,
) -> nat
    decreases path.len(), 0nat,
{
    if path.len() == 0 {
        0
    } else {
        let grown = applied_to(path.last(), found.expr);
        completes_steps(dsl, weigh, hi, grown, found.ctx, found.spent) + resumed_each_steps(
            dsl,
            weigh,
            hi,
            path.drop_last(),
            completes(dsl, weigh, hi, grown, found.ctx, found.spent),
            0,
        )
    }
}

/// The steps that going on with each of the expressions from position `j`
/// on takes.
pub open spec fn resumed_each_steps(
    dsl: Language,
    weigh: Weigher,
    hi: nat,
    path: Seq<FrameModel>,
    found: Seq<Found>,
    j: nat,
) -> nat
    decreases path.len(), 1 + found.len() - j,
{
    if j >= found.len() {
        0
    } else {
        resumed_steps(dsl, weigh, hi, path, found[j as int]) + resumed_each_steps(
            dsl,
            weigh,
            hi,
            path,
            found,
            j + 1,
        )
    }
}

/// The steps that the places where heads are left take.
pub open spec fn left_steps(dsl: Language, weigh: Weigher, hi: nat, choices: Seq<ChoiceModel>) -> nat
    decreases choices.len(),
{
    if choices.len() == 0 {
        0
    } else {
        let choice = choices.last();
        picks_steps(
            dsl,
            weigh,
            hi,
            choice.candidates,
            choice.costs,
            choice.hole,
            choice.spent,
            choice.next,
        ) + resumed_each_steps(
            dsl,
            weigh,
            hi,
            choice.parents,
            picks(
                dsl,
                weigh,
                hi,
                choice.candidates,
                choice.costs,
                choice.hole,
                choice.spent,
                choice.next,
            ),
            0,
        ) + left_steps(dsl, weigh, hi, choices.drop_last())
    }
}

/// The steps that the path of a search takes before the search turns to
/// the places where heads are left.
pub open spec fn ahead_steps(dsl: Language, weigh: Weigher, state: SearchState) -> nat {
    match state.mode {
        Mode::Open => fills_steps(dsl, weigh, state.hi, state.hole, state.ctx, state.spent)
            + resumed_each_steps(
            dsl,
            weigh,
            state.hi,
            state.path,
            fills(dsl, weigh, state.hi, state.hole, state.ctx, state.spent),
            0,
        ),
        Mode::Weigh => 1 + picks_steps(
            dsl,
            weigh,
            state.hi,
            state.found,
            weigh(weights_of(state.found)),
            state.hole,
            state.spent,
            0,
        ) + resumed_each_steps(
            dsl,
            weigh,
            state.hi,
            state.path,
            picks(
                dsl,
                weigh,
                state.hi,
                state.found,
                weigh(weights_of(state.found)),
                state.hole,
                state.spent,
                0,
            ),
            0,
        ),
        Mode::Advance => if state.path.len() == 0 {
            1
        } else {
            completes_steps(dsl, weigh, state.hi, state.path.last(), state.ctx, state.spent)
                + resumed_each_steps(
                dsl,
                weigh,
                state.hi,
                state.path.drop_last(),
                completes(dsl, weigh, state.hi, state.path.last(), state.ctx, state.spent),
                0,
            )
        },
        _ => 0,
    }
}

/// The number of steps after which a search reports that its window is
/// exhausted.
pub open spec fn steps_to_go(dsl: Language, weigh: Weigher, state: SearchState) -> nat {
    if state.mode is Done {
        0
    } else {
        ahead_steps(dsl, weigh, state) + left_steps(dsl, weigh, state.hi, state.choices) + 1
    }
}

/// Going on with two sequences of expressions takes the steps of each.
pub proof fn lemma_resumed_each_steps_add(
    dsl: Language,
    weigh: Weigher,
    hi: nat,
    path: Seq<FrameModel>,
    a: Seq<Found>,
    b: Seq<Found>,
    j: nat,
)
    requires
        j <= a.len(),
    ensures
        resumed_each_steps(dsl, weigh, hi, path, a + b, j) == resumed_each_steps(
            dsl,
            weigh,
            hi,
            path,
            a,
            j,
        ) + resumed_each_steps(dsl, weigh, hi, path, b, 0),
    decreases a.len() - j,
{
    if j == a.len() {
        lemma_resumed_each_steps_shift(dsl, weigh, hi, path, a, b, 0);
    } else {
        lemma_resumed_each_steps_add(dsl, weigh, hi, path, a, b, j + 1);
        assert((a + b)[j as int] == a[j as int]);
    }
}

/// The steps from a position in the second of two sequences.
pub proof fn lemma_resumed_each_steps_shift(
    dsl: Language,
    weigh: Weigher,
    hi: nat,
    path: Seq<FrameModel>,
    a: Seq<Found>,
    b: Seq<Found>,
    k: nat,
)
    ensures
        resumed_each_steps(dsl, weigh, hi, path, a + b, a.len() + k) == resumed_each_steps(
            dsl,
            weigh,
            hi,
            path,
            b,
            k,
        ),
    decreases b.len() - k,
{
    if k < b.len() {
        lemma_resumed_each_steps_shift(dsl, weigh, hi, path, a, b, k + 1);
        assert((a + b)[(a.len() + k) as int] == b[k as int]);
    }
}

/// Going on with the arguments inside the path with the application at its
/// end takes the steps of completing the application with each argument
/// and of going on, inside the path, with what it becomes.
pub proof fn lemma_resumed_steps_extends(
    dsl: Language,
    weigh: Weigher,
    hi: nat,
    path: Seq<FrameModel>,
    frame: FrameModel,
    arguments: Seq<Found>,
    j: nat,
)
    ensures
        resumed_each_steps(dsl, weigh, hi, path.push(frame), arguments, j) == extends_steps(
            dsl,
            weigh,
            hi,
            frame,
            arguments,
            j,
        ) + resumed_each_steps(
            dsl,
            weigh,
            hi,
            path,
            extends(dsl, weigh, hi, frame, arguments, j),
            0,
        ),
    decreases arguments.len() - j,
{
    let inside = path.push(frame);
    if j < arguments.len() {
        lemma_resumed_steps_extends(dsl, weigh, hi, path, frame, arguments, j + 1);
        let first = completes(
            dsl,
            weigh,
            hi,
            applied_to(frame, arguments[j as int].expr),
            arguments[j as int].ctx,
            arguments[j as int].spent,
        );
        lemma_resumed_each_steps_add(
            dsl,
            weigh,
            hi,
            path,
            first,
            extends(dsl, weigh, hi, frame, arguments, j + 1),
            0,
        );
        assert(inside.drop_last() =~= path);
        assert(inside.last() == frame);
        let grown = applied_to(frame, arguments[j as int].expr);
        assert(resumed_steps(dsl, weigh, hi, inside, arguments[j as int]) == completes_steps(
            dsl,
            weigh,
            hi,
            grown,
            arguments[j as int].ctx,
            arguments[j as int].spent,
        ) + resumed_each_steps(dsl, weigh, hi, path, first, 0));
        assert(extends(dsl, weigh, hi, frame, arguments, j) == first + extends(
            dsl,
            weigh,
            hi,
            frame,
            arguments,
            j + 1,
        ));
    } else {
        assert(extends(dsl, weigh, hi, frame, arguments, j).len() == 0);
    }
}

/// Each step of a search that is not exhausted leaves one step less to go.
pub proof fn lemma_step_counts(dsl: Language, weigh: Weigher, state: SearchState)
    requires
        answers_all(weigh),
        !(state.mode is Done),
    ensures
        steps_to_go(dsl, weigh, state) == 1 + steps_to_go(
            dsl,
            weigh,
            state.step(dsl, answer(weigh, state)).0,
        ),
{
    let next = state.step(dsl, answer(weigh, state)).0;
    let hi = state.hi;
    match state.mode {
        Mode::Open => {},
        Mode::Weigh => {
            let costs = weigh(weights_of(state.found));
            assert(costs.len() == weights_of(state.found).len());
            assert(next.choices.drop_last() =~= state.choices);
        },
        Mode::Choose => {
            if state.choices.len() > 0 {
                let choice = state.choices.last();
                let rest = state.choices.drop_last();
                let i = choice.next;
                if i >= choice.candidates.len() || i >= choice.costs.len() {
                    let none = picks(
                        dsl,
                        weigh,
                        hi,
                        choice.candidates,
                        choice.costs,
                        choice.hole,
                        choice.spent,
                        i,
                    );
                    assert(none.len() == 0);
                } else {
                    let tried = ChoiceModel { next: choice.next + 1nat, ..choice };
                    let later = picks(
                        dsl,
                        weigh,
                        hi,
                        choice.candidates,
                        choice.costs,
                        choice.hole,
                        choice.spent,
                        i + 1,
                    );
                    assert(next.choices.drop_last() =~= rest);
                    assert(next.choices.last() == tried);
                    if choice.spent + choice.costs[i as int] < hi {
                        let frame = FrameModel {
                            f: choice.candidates[i as int].head,
                            pending: choice.candidates[i as int].tp,
                            env: choice.hole.env,
                            lambdas: choice.hole.lambdas,
                            room: choice.hole.room,
                        };
                        let first = completes(
                            dsl,
                            weigh,
                            hi,
                            frame,
                            choice.candidates[i as int].ctx,
                            choice.spent + choice.costs[i as int] as nat,
                        );
                        lemma_resumed_each_steps_add(
                            dsl,
                            weigh,
                            hi,
                            choice.parents,
                            first,
                            later,
                            0,
                        );
                        assert(next.path.drop_last() =~= choice.parents);
                        assert(next.path.last() == frame);
                    } else {
                        assert(Seq::<Found>::empty() + later =~= later);
                    }
                }
            }
        },
        Mode::Advance => {
            if state.path.len() > 0 {
                let frame = state.path.last();
                let outside = state.path.drop_last();
                match frame.pending {
                    TypeTerm::Arrow(arg, ret) => {
                        let waiting = FrameModel { pending: *ret, ..frame };
                        let arguments = fills(dsl, weigh, hi, next.hole, state.ctx, state.spent);
                        lemma_resumed_steps_extends(dsl, weigh, hi, outside, waiting, arguments, 0);
                        assert(next.path =~= outside.push(waiting));
                    },
                    _ => {
                        let expr = abstracted(frame.f, frame.lambdas);
                        let found = Found { expr, ctx: state.ctx, spent: state.spent };
                        let one = seq![found];
                        assert(completes(dsl, weigh, hi, frame, state.ctx, state.spent) == one);
                        assert(one[0] == found);
                        assert(resumed_each_steps(dsl, weigh, hi, outside, one, 1) == 0);
                        assert(resumed_each_steps(dsl, weigh, hi, outside, one, 0)
                            == resumed_steps(dsl, weigh, hi, outside, found));
                        if state.path.len() > 1 {
                            let outer = state.path[state.path.len() - 2];
                            assert(outside.last() == outer);
                            assert(next.path.drop_last() =~= outside.drop_last());
                            assert(next.path.last() == applied_to(outer, expr));
                        }
                    },
                }
            }
        },
        Mode::Done => {},
    }
}

/// After as many steps as it has to go, a search is exhausted.
pub proof fn lemma_driven_ends(dsl: Language, weigh: Weigher, state: SearchState, n: nat)
    requires
        answers_all(weigh),
        n == steps_to_go(dsl, weigh, state),
    ensures
        driven(dsl, weigh, state, n).0.mode is Done,
    decreases n,
{
    if n > 0 {
        lemma_step_counts(dsl, weigh, state);
        lemma_driven_ends(
            dsl,
            weigh,
            state.step(dsl, answer(weigh, state)).0,
            (n - 1) as nat,
        );
    }
}

/// Every search comes to an end, and by then it has given out the
/// enumeration of its window: after `steps_to_go` steps from the start the
/// search reports that the window is exhausted, and what the steps gave out
/// is the enumeration. The caller is taken to answer each request for costs
/// by `weigh`, with one cost for each head.
pub proof fn law_search_ends(dsl: Language, weigh: Weigher, request: TypeTerm, lo: nat, hi: nat)
    requires
        answers_all(weigh),
    ensures
        ({
            let start = SearchState::start(request, lo, hi);
            let (state, out) = driven(dsl, weigh, start, steps_to_go(dsl, weigh, start));
            &&& state.mode is Done
            &&& out == enumeration(dsl, weigh, request, lo, hi)
        }),
{
    let start = SearchState::start(request, lo, hi);
    let n = steps_to_go(dsl, weigh, start);
    lemma_driven_ends(dsl, weigh, start, n);
    law_search_gives_enumeration(dsl, weigh, request, lo, hi, n);
}

} // verus!
