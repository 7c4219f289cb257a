//! What the search enumerates, said directly, and the proof that the search
//! gives out exactly that.
//!
//! The costs of the heads admitted at a place are worked out by the caller
//! of the search. Here the caller is a function `weigh` from what it is
//! handed to the costs it hands back.

use vstd::prelude::*;
use super::candidates::CandidateModel;
use super::engine::ContextState;
use super::enumerator::{
    abstracted, curried, reversed, weights_of, ActionModel, ChoiceModel, FrameModel, HoleModel,
    Mode, SearchState, Weight,
};
use super::expression::Expression;
use super::language::Language;
use super::types::TypeTerm;

verus! {

/// An expression that fills a place: the expression, the typing context
/// with it in place, and the cost of everything chosen up to and in it.
pub struct Found {
    pub expr: Expression,
    pub ctx: ContextState,
    pub spent: nat,
}

/// How the caller of a search works out costs.
pub type Weigher = spec_fn(Seq<Weight>) -> Seq<u64>;

/// The expressions that fill a place, in the order of the search. A place
/// is filled by a head admitted for the result of the requested type,
/// applied to expressions that fill the places of its arguments, inside one
/// abstraction for each argument of the request. Nothing fills a place
/// beyond the end `hi` of the window, where no room is left, or under more
/// binders than an index can count.
pub open spec fn fills(
    dsl: Language,
    weigh: Weigher,
    hi: nat,
    hole: HoleModel,
    ctx: ContextState,
    spent: nat,
) -> Seq<Found>
    decreases hole.room, 1nat, hole.request, 0nat,
{
    let (request, env) = curried(hole.request, hole.env);
    let found = dsl.candidates_for(request, ctx, reversed(env));
    if spent >= hi || hole.room == 0 || env.len() > usize::MAX || found.len() == 0 {
        Seq::empty()
    } else {
        picks(
            dsl,
            weigh,
            hi,
            found,
            weigh(weights_of(found)),
            HoleModel {
                request,
                env,
                lambdas: (env.len() - hole.env.len()) as nat,
                room: (hole.room - 1) as nat,
            },
            spent,
            0,
        )
    }
}

/// The expressions that fill a place with one of the heads from position
/// `i` on. A head whose cost leads to the end of the window or beyond is
/// passed over.
pub open spec fn picks(
    dsl: Language,
    weigh: Weigher,
    hi: nat,
    candidates: Seq<CandidateModel>,
    costs: Seq<u64>,
    hole: HoleModel,
    spent: nat,
    i: nat,
) -> Seq<Found>
    decreases hole.room, 3nat, hole.request, candidates.len() - i,
{
    if i >= candidates.len() || i >= costs.len() {
        Seq::empty()
    } else {
        (if spent + costs[i as int] < hi {
            completes(
                dsl,
                weigh,
                hi,
                FrameModel {
                    f: candidates[i as int].head,
                    pending: candidates[i as int].tp,
                    env: hole.env,
                    lambdas: hole.lambdas,
                    room: hole.room,
                },
                candidates[i as int].ctx,
                spent + costs[i as int] as nat,
            )
        } else {
            Seq::empty()
        }) + picks(dsl, weigh, hi, candidates, costs, hole, spent, i + 1)
    }
}

/// The expressions that an application under construction can become: with
/// an argument missing, the application of each expression that fills the
/// argument's place, completed in turn; with none missing, the application
/// inside its abstractions.
pub open spec fn completes(
    dsl: Language,
    weigh: Weigher,
    hi: nat,
    frame: FrameModel,
    ctx: ContextState,
    spent: nat,
) -> Seq<Found>
    decreases frame.room, 2nat, frame.pending, 0nat,
{
    match frame.pending {
        TypeTerm::Arrow(arg, ret) => extends(
            dsl,
            weigh,
            hi,
            FrameModel { pending: *ret, ..frame },
            fills(
                dsl,
                weigh,
                hi,
                HoleModel { request: ctx.apply(*arg), env: frame.env, lambdas: 0, room: frame.room },
                ctx,
                spent,
            ),
            0,
        ),
        _ => seq![Found { expr: abstracted(frame.f, frame.lambdas), ctx, spent }],
    }
}

/// The expressions that an application can become with one of the
/// arguments from position `j` on as its next argument.
pub open spec fn extends(
    dsl: Language,
    weigh: Weigher,
    hi: nat,
    frame: FrameModel,
    arguments: Seq<Found>,
    j: nat,
) -> Seq<Found>
    decreases frame.room, 2nat, frame.pending, 1 + arguments.len() - j,
{
    if j >= arguments.len() {
        Seq::empty()
    } else {
        completes(
            dsl,
            weigh,
            hi,
            applied_to(frame, arguments[j as int].expr),
            arguments[j as int].ctx,
            arguments[j as int].spent,
        ) + extends(dsl, weigh, hi, frame, arguments, j + 1)
    }
}

/// The application with one more argument.
pub open spec fn applied_to(frame: FrameModel, argument: Expression) -> FrameModel {
    FrameModel { f: Expression::Application(Box::new(frame.f), Box::new(argument)), ..frame }
}

/// The place at which the search for a requested type starts.
pub open spec fn outermost(request: TypeTerm) -> HoleModel {
    HoleModel {
        request,
        env: Seq::empty(),
        lambdas: 0,
        room: super::enumerator::MAX_DEPTH as nat + 1,
    }
}

/// The expressions whose cost lies in the window from `lo` up to, not
/// including, `hi`, each with its cost.
pub open spec fn within(lo: nat, hi: nat, found: Seq<Found>) -> Seq<(Expression, nat)>
    decreases found.len(),
{
    if found.len() == 0 {
        Seq::empty()
    } else {
        within(lo, hi, found.drop_last()) + (if lo <= found.last().spent < hi {
            seq![(found.last().expr, found.last().spent)]
        } else {
            Seq::empty()
        })
    }
}

/// The expressions of a requested type that a window holds, each with its
/// cost, in the order of the search.
pub open spec fn enumeration(
    dsl: Language,
    weigh: Weigher,
    request: TypeTerm,
    lo: nat,
    hi: nat,
) -> Seq<(Expression, nat)> {
    within(lo, hi, fills(dsl, weigh, hi, outermost(request), ContextState::empty(), 0))
}

/// What the search gives for an expression that fills a place inside the
/// applications of `path`: the expression itself at the outermost place;
/// elsewhere what it gives for each expression that the innermost
/// application can become with the expression as its next argument.
pub open spec fn resumed(
    dsl: Language,
    weigh: Weigher,
    hi: nat,
    path: Seq<FrameModel>,
    found: Found,
) -> Seq<Found>
    decreases path.len(), 0nat,
{
    if path.len() == 0 {
        seq![found]
    } else {
        resumed_each(
            dsl,
            weigh,
            hi,
            path.drop_last(),
            completes(dsl, weigh, hi, applied_to(path.last(), found.expr), found.ctx, found.spent),
            0,
        )
    }
}

/// What the search gives for the expressions from position `j` on that fill
/// a place inside the applications of `path`.
pub open spec fn resumed_each(
    dsl: Language,
    weigh: Weigher,
    hi: nat,
    path: Seq<FrameModel>,
    found: Seq<Found>,
    j: nat,
) -> Seq<Found>
    decreases path.len(), 1 + found.len() - j,
{
    if j >= found.len() {
        Seq::empty()
    } else {
        resumed(dsl, weigh, hi, path, found[j as int]) + resumed_each(
            dsl,
            weigh,
            hi,
            path,
            found,
            j + 1,
        )
    }
}

/// What the places where heads are left still give, innermost place first.
pub open spec fn left_in(
    dsl: Language,
    weigh: Weigher,
    lo: nat,
    hi: nat,
    choices: Seq<ChoiceModel>,
) -> Seq<(Expression, nat)>
    decreases choices.len(),
{
    if choices.len() == 0 {
        Seq::empty()
    } else {
        let choice = choices.last();
        within(
            lo,
            hi,
            resumed_each(
                dsl,
                weigh,
                hi,
                choice.parents,
                picks(
                    dsl,
                    weigh,
                    hi,
                    choice.candidates,
                    choice.costs,
                    choice.hole,
                    choice.spent,
                    choice.next,
                ),
                0,
            ),
        ) + left_in(dsl, weigh, lo, hi, choices.drop_last())
    }
}

/// What the path of a search still gives before the search turns to the
/// places where heads are left.
pub open spec fn ahead(dsl: Language, weigh: Weigher, state: SearchState) -> Seq<Found> {
    match state.mode {
        Mode::Open => resumed_each(
            dsl,
            weigh,
            state.hi,
            state.path,
            fills(dsl, weigh, state.hi, state.hole, state.ctx, state.spent),
            0,
        ),
        Mode::Weigh => resumed_each(
            dsl,
            weigh,
            state.hi,
            state.path,
            picks(
                dsl,
                weigh,
                state.hi,
                state.found,
                weigh(weights_of(state.found)),
                state.hole,
                state.spent,
                0,
            ),
            0,
        ),
        Mode::Advance => if state.path.len() == 0 {
            Seq::empty()
        } else {
            resumed_each(
                dsl,
                weigh,
                state.hi,
                state.path.drop_last(),
                completes(dsl, weigh, state.hi, state.path.last(), state.ctx, state.spent),
                0,
            )
        },
        _ => Seq::empty(),
    }
}

/// Everything that a search still gives, in order.
pub open spec fn remaining(dsl: Language, weigh: Weigher, state: SearchState) -> Seq<
    (Expression, nat),
> {
    if state.mode is Done {
        Seq::empty()
    } else {
        within(state.lo, state.hi, ahead(dsl, weigh, state)) + left_in(
            dsl,
            weigh,
            state.lo,
            state.hi,
            state.choices,
        )
    }
}

/// What a step gives out.
pub open spec fn given(action: ActionModel) -> Seq<(Expression, nat)> {
    match action {
        ActionModel::Yield(expr, cost) => seq![(expr, cost)],
        _ => Seq::empty(),
    }
}

/// What the caller hands to the next step: the costs that were asked for,
/// if any were.
pub open spec fn answer(weigh: Weigher, state: SearchState) -> Option<Seq<u64>> {
    if state.mode is Weigh {
        Some(weigh(weights_of(state.found)))
    } else {
        None
    }
}

/// The state of a search after `n` steps, and what the steps gave out.
pub open spec fn driven(dsl: Language, weigh: Weigher, state: SearchState, n: nat) -> (
    SearchState,
    Seq<(Expression, nat)>,
)
    decreases n,
{
    if n == 0 {
        (state, Seq::empty())
    } else {
        let (next, action) = state.step(dsl, answer(weigh, state));
        let (last, rest) = driven(dsl, weigh, next, (n - 1) as nat);
        (last, given(action) + rest)
    }
}

/// The window holds of two sequences, one after the other, what it holds
/// of each.
pub proof fn lemma_within_add(lo: nat, hi: nat, a: Seq<Found>, b: Seq<Found>)
    ensures
        within(lo, hi, a + b) == within(lo, hi, a) + within(lo, hi, b),
    decreases b.len(),
{
    if b.len() == 0 {
        assert(a + b =~= a);
        assert(within(lo, hi, a) + within(lo, hi, b) =~= within(lo, hi, a));
    } else {
        lemma_within_add(lo, hi, a, b.drop_last());
        assert((a + b).drop_last() =~= a + b.drop_last());
        assert((a + b).last() == b.last());
        let tail = if lo <= b.last().spent < hi {
            seq![(b.last().expr, b.last().spent)]
        } else {
            Seq::empty()
        };
        assert(within(lo, hi, a + b) == within(lo, hi, a + b.drop_last()) + tail);
        assert((within(lo, hi, a) + within(lo, hi, b.drop_last())) + tail =~= within(lo, hi, a)
            + (within(lo, hi, b.drop_last()) + tail));
    }
}

/// What is resumed from position `j` of a sequence followed by another is
/// what is resumed from there in the first, followed by what is resumed for
/// the second.
pub proof fn lemma_resumed_each_add(
    dsl: Language,
    weigh: Weigher,
    hi: nat,
    path: Seq<FrameModel>,
    a: Seq<Found>,
    b: Seq<Found>,
    j: nat,
)
    requires
        j <= a.len(),
    ensures
        resumed_each(dsl, weigh, hi, path, a + b, j) == resumed_each(dsl, weigh, hi, path, a, j)
            + resumed_each(dsl, weigh, hi, path, b, 0),
    decreases a.len() - j,
{
    if j == a.len() {
        lemma_resumed_each_shift(dsl, weigh, hi, path, a, b, 0);
        assert(resumed_each(dsl, weigh, hi, path, a, j) =~= Seq::<Found>::empty());
        assert(Seq::<Found>::empty() + resumed_each(dsl, weigh, hi, path, b, 0) =~= resumed_each(
            dsl,
            weigh,
            hi,
            path,
            b,
            0,
        ));
    } else {
        lemma_resumed_each_add(dsl, weigh, hi, path, a, b, j + 1);
        assert((a + b)[j as int] == a[j as int]);
        let first = resumed(dsl, weigh, hi, path, a[j as int]);
        assert((first + resumed_each(dsl, weigh, hi, path, a, j + 1)) + resumed_each(
            dsl,
            weigh,
            hi,
            path,
            b,
            0,
        ) =~= first + (resumed_each(dsl, weigh, hi, path, a, j + 1) + resumed_each(
            dsl,
            weigh,
            hi,
            path,
            b,
            0,
        )));
    }
}

/// What is resumed from a position in the second of two sequences.
pub proof fn lemma_resumed_each_shift(
    dsl: Language,
    weigh: Weigher,
    hi: nat,
    path: Seq<FrameModel>,
    a: Seq<Found>,
    b: Seq<Found>,
    k: nat,
)
    ensures
        resumed_each(dsl, weigh, hi, path, a + b, a.len() + k) == resumed_each(
            dsl,
            weigh,
            hi,
            path,
            b,
            k,
        ),
    decreases b.len() - k,
{
    if k < b.len() {
        lemma_resumed_each_shift(dsl, weigh, hi, path, a, b, k + 1);
        assert((a + b)[(a.len() + k) as int] == b[k as int]);
    }
}

/// What is resumed for one expression.
pub proof fn lemma_resumed_each_one(
    dsl: Language,
    weigh: Weigher,
    hi: nat,
    path: Seq<FrameModel>,
    found: Found,
)
    ensures
        resumed_each(dsl, weigh, hi, path, seq![found], 0) == resumed(dsl, weigh, hi, path, found),
{
    let one = seq![found];
    assert(resumed_each(dsl, weigh, hi, path, one, 1) =~= Seq::<Found>::empty());
    assert(one[0] == found);
    assert(resumed(dsl, weigh, hi, path, found) + Seq::<Found>::empty() =~= resumed(
        dsl,
        weigh,
        hi,
        path,
        found,
    ));
}

/// Resuming, inside the applications of `path`, what an application becomes
/// with each of the arguments is resuming the arguments inside the path
/// with the application at its end.
pub proof fn lemma_resumed_extends(
    dsl: Language,
    weigh: Weigher,
    hi: nat,
    path: Seq<FrameModel>,
    frame: FrameModel,
    arguments: Seq<Found>,
    j: nat,
)
    ensures
        resumed_each(dsl, weigh, hi, path, extends(dsl, weigh, hi, frame, arguments, j), 0)
            == resumed_each(dsl, weigh, hi, path.push(frame), arguments, j),
    decreases arguments.len() - j,
{
    let inside = path.push(frame);
    if j >= arguments.len() {
    } else {
        lemma_resumed_extends(dsl, weigh, hi, path, frame, arguments, j + 1);
        let first = completes(
            dsl,
            weigh,
            hi,
            applied_to(frame, arguments[j as int].expr),
            arguments[j as int].ctx,
            arguments[j as int].spent,
        );
        lemma_resumed_each_add(
            dsl,
            weigh,
            hi,
            path,
            first,
            extends(dsl, weigh, hi, frame, arguments, j + 1),
            0,
        );
        assert(inside.drop_last() =~= path);
        assert(inside.last() == frame);
        assert(resumed(dsl, weigh, hi, inside, arguments[j as int]) == resumed_each(
            dsl,
            weigh,
            hi,
            path,
            first,
            0,
        ));
    }
}

/// Opening a place gives out nothing and leaves what remains.
proof fn lemma_open_keeps(dsl: Language, weigh: Weigher, state: SearchState)
    requires
        state.mode is Open,
    ensures
        remaining(dsl, weigh, state) == given(state.open(dsl).1) + remaining(
            dsl,
            weigh,
            state.open(dsl).0,
        ),
{
    let next = state.open(dsl).0;
    let left = left_in(dsl, weigh, state.lo, state.hi, state.choices);
    assert(given(state.open(dsl).1) =~= Seq::empty());
    assert(Seq::<(Expression, nat)>::empty() + remaining(dsl, weigh, next) =~= remaining(
        dsl,
        weigh,
        next,
    ));
    if next.mode is Choose {
        assert(ahead(dsl, weigh, state) =~= Seq::<Found>::empty());
    }
}

/// Taking the costs gives out nothing and leaves what remains.
proof fn lemma_weigh_keeps(dsl: Language, weigh: Weigher, state: SearchState)
    requires
        state.mode is Weigh,
    ensures
        remaining(dsl, weigh, state) == given(state.weigh(answer(weigh, state)).1) + remaining(
            dsl,
            weigh,
            state.weigh(answer(weigh, state)).0,
        ),
{
    let costs = weigh(weights_of(state.found));
    let next = state.weigh(answer(weigh, state)).0;
    assert(given(state.weigh(answer(weigh, state)).1) =~= Seq::empty());
    assert(Seq::<(Expression, nat)>::empty() + remaining(dsl, weigh, next) =~= remaining(
        dsl,
        weigh,
        next,
    ));
    if costs.len() == state.found.len() {
        assert(next.choices.drop_last() =~= state.choices);
        assert(ahead(dsl, weigh, next) =~= Seq::<Found>::empty());
        assert(within(next.lo, next.hi, ahead(dsl, weigh, next)) =~= Seq::empty());
        assert(Seq::<(Expression, nat)>::empty() + left_in(
            dsl,
            weigh,
            next.lo,
            next.hi,
            next.choices,
        ) =~= left_in(dsl, weigh, next.lo, next.hi, next.choices));
    }
}

/// Choosing a head gives out nothing and leaves what remains.
proof fn lemma_pick_keeps(dsl: Language, weigh: Weigher, state: SearchState)
    requires
        state.mode is Choose,
    ensures
        remaining(dsl, weigh, state) == given(state.pick().1) + remaining(
            dsl,
            weigh,
            state.pick().0,
        ),
{
    let next = state.pick().0;
    let lo = state.lo;
    let hi = state.hi;
    assert(given(state.pick().1) =~= Seq::empty());
    assert(Seq::<(Expression, nat)>::empty() + remaining(dsl, weigh, next) =~= remaining(
        dsl,
        weigh,
        next,
    ));
    assert(ahead(dsl, weigh, state) =~= Seq::<Found>::empty());
    assert(within(lo, hi, ahead(dsl, weigh, state)) =~= Seq::empty());
    assert(remaining(dsl, weigh, state) =~= left_in(dsl, weigh, lo, hi, state.choices));
    if state.choices.len() == 0 {
    } else {
        let choice = state.choices.last();
        let rest = state.choices.drop_last();
        let below = left_in(dsl, weigh, lo, hi, rest);
        let i = choice.next;
        let all = picks(
            dsl,
            weigh,
            hi,
            choice.candidates,
            choice.costs,
            choice.hole,
            choice.spent,
            i,
        );
        if i >= choice.candidates.len() || i >= choice.costs.len() {
            assert(all =~= Seq::<Found>::empty());
            assert(within(lo, hi, resumed_each(dsl, weigh, hi, choice.parents, all, 0))
                =~= Seq::empty());
            assert(ahead(dsl, weigh, next) =~= Seq::<Found>::empty());
            assert(within(lo, hi, ahead(dsl, weigh, next)) =~= Seq::empty());
            assert(Seq::<(Expression, nat)>::empty() + below =~= below);
        } else {
            let tried = ChoiceModel { next: choice.next + 1nat, ..choice };
            let later = picks(
                dsl,
                weigh,
                hi,
                choice.candidates,
                choice.costs,
                choice.hole,
                choice.spent,
                i + 1,
            );
            let after = within(lo, hi, resumed_each(dsl, weigh, hi, choice.parents, later, 0));
            assert(next.choices.drop_last() =~= rest);
            assert(next.choices.last() == tried);
            assert(left_in(dsl, weigh, lo, hi, next.choices) == after + below);
            if choice.spent + choice.costs[i as int] < hi {
                let frame = FrameModel {
                    f: choice.candidates[i as int].head,
                    pending: choice.candidates[i as int].tp,
                    env: choice.hole.env,
                    lambdas: choice.hole.lambdas,
                    room: choice.hole.room,
                };
                let first = completes(
                    dsl,
                    weigh,
                    hi,
                    frame,
                    choice.candidates[i as int].ctx,
                    choice.spent + choice.costs[i as int] as nat,
                );
                assert(all == first + later);
                lemma_resumed_each_add(dsl, weigh, hi, choice.parents, first, later, 0);
                let now = resumed_each(dsl, weigh, hi, choice.parents, first, 0);
                lemma_within_add(
                    lo,
                    hi,
                    now,
                    resumed_each(dsl, weigh, hi, choice.parents, later, 0),
                );
                assert(next.path.drop_last() =~= choice.parents);
                assert(next.path.last() == frame);
                assert(ahead(dsl, weigh, next) == now);
                assert((within(lo, hi, now) + after) + below =~= within(lo, hi, now) + (after
                    + below));
            } else {
                assert(all =~= later);
                assert(ahead(dsl, weigh, next) =~= Seq::<Found>::empty());
                assert(within(lo, hi, ahead(dsl, weigh, next)) =~= Seq::empty());
                assert(Seq::<(Expression, nat)>::empty() + (after + below) =~= after + below);
            }
        }
    }
}

/// Going on with an application gives out what it says and leaves the rest
/// of what remained.
proof fn lemma_advance_keeps(dsl: Language, weigh: Weigher, state: SearchState)
    requires
        state.mode is Advance,
    ensures
        remaining(dsl, weigh, state) == given(state.advance().1) + remaining(
            dsl,
            weigh,
            state.advance().0,
        ),
{
    let next = state.advance().0;
    let lo = state.lo;
    let hi = state.hi;
    let below = left_in(dsl, weigh, lo, hi, state.choices);
    if state.path.len() == 0 {
        assert(given(state.advance().1) =~= Seq::empty());
        assert(ahead(dsl, weigh, next) =~= Seq::<Found>::empty());
        assert(Seq::<(Expression, nat)>::empty() + remaining(dsl, weigh, next) =~= remaining(
            dsl,
            weigh,
            next,
        ));
    } else {
        let frame = state.path.last();
        let outside = state.path.drop_last();
        match frame.pending {
            TypeTerm::Arrow(arg, ret) => {
                let waiting = FrameModel { pending: *ret, ..frame };
                let arguments = fills(dsl, weigh, hi, next.hole, state.ctx, state.spent);
                assert(given(state.advance().1) =~= Seq::empty());
                assert(Seq::<(Expression, nat)>::empty() + remaining(dsl, weigh, next)
                    =~= remaining(dsl, weigh, next));
                lemma_resumed_extends(dsl, weigh, hi, outside, waiting, arguments, 0);
                assert(next.path =~= outside.push(waiting));
            },
            _ => {
                let expr = abstracted(frame.f, frame.lambdas);
                let found = Found { expr, ctx: state.ctx, spent: state.spent };
                assert(completes(dsl, weigh, hi, frame, state.ctx, state.spent) == seq![found]);
                lemma_resumed_each_one(dsl, weigh, hi, outside, found);
                if state.path.len() == 1 {
                    assert(outside.len() == 0);
                    let one = seq![found];
                    assert(resumed(dsl, weigh, hi, outside, found) == one);
                    assert(one.drop_last() =~= Seq::<Found>::empty());
                    assert(within(lo, hi, one.drop_last()) =~= Seq::empty());
                    assert(one.last() == found);
                    assert(within(lo, hi, one) =~= given(state.advance().1));
                    assert(ahead(dsl, weigh, next) =~= Seq::<Found>::empty());
                    assert(within(lo, hi, ahead(dsl, weigh, next)) =~= Seq::empty());
                    assert(given(state.advance().1) + (Seq::<(Expression, nat)>::empty() + below)
                        =~= given(state.advance().1) + below);
                } else {
                    let outer = state.path[state.path.len() - 2];
                    assert(outside.last() == outer);
                    assert(outside.drop_last() =~= state.path.drop_last().drop_last());
                    assert(next.path.drop_last() =~= outside.drop_last());
                    assert(next.path.last() == applied_to(outer, expr));
                    assert(given(state.advance().1) =~= Seq::empty());
                    assert(Seq::<(Expression, nat)>::empty() + remaining(dsl, weigh, next)
                        =~= remaining(dsl, weigh, next));
                }
            },
        }
    }
}

/// A step gives out the first of what remains, or nothing, and leaves the
/// rest.
pub proof fn lemma_step_keeps(dsl: Language, weigh: Weigher, state: SearchState)
    ensures
        remaining(dsl, weigh, state) == given(state.step(dsl, answer(weigh, state)).1) + remaining(
            dsl,
            weigh,
            state.step(dsl, answer(weigh, state)).0,
        ),
{
    match state.mode {
        Mode::Open => lemma_open_keeps(dsl, weigh, state),
        Mode::Weigh => lemma_weigh_keeps(dsl, weigh, state),
        Mode::Choose => lemma_pick_keeps(dsl, weigh, state),
        Mode::Advance => lemma_advance_keeps(dsl, weigh, state),
        Mode::Done => {
            assert(Seq::<(Expression, nat)>::empty() + Seq::<(Expression, nat)>::empty()
                =~= Seq::<(Expression, nat)>::empty());
        },
    }
}

/// What any number of steps give out, followed by what remains after
/// them, is what remained before them.
pub proof fn lemma_driven_keeps(dsl: Language, weigh: Weigher, state: SearchState, n: nat)
    ensures
        driven(dsl, weigh, state, n).1 + remaining(dsl, weigh, driven(dsl, weigh, state, n).0)
            == remaining(dsl, weigh, state),
    decreases n,
{
    if n == 0 {
        assert(Seq::<(Expression, nat)>::empty() + remaining(dsl, weigh, state) =~= remaining(
            dsl,
            weigh,
            state,
        ));
    } else {
        let (next, action) = state.step(dsl, answer(weigh, state));
        lemma_step_keeps(dsl, weigh, state);
        lemma_driven_keeps(dsl, weigh, next, (n - 1) as nat);
        let (last, rest) = driven(dsl, weigh, next, (n - 1) as nat);
        assert((given(action) + rest) + remaining(dsl, weigh, last) =~= given(action) + (rest
            + remaining(dsl, weigh, last)));
    }
}

/// The search gives out the enumeration of its window, in order: after any
/// number of steps, what it has given out, followed by what it still gives,
/// is the enumeration; once it reports that the window is exhausted, what
/// it has given out is the whole enumeration. The caller is taken to answer
/// each request for costs by `weigh`.
pub proof fn law_search_gives_enumeration(
    dsl: Language,
    weigh: Weigher,
    request: TypeTerm,
    lo: nat,
    hi: nat,
    n: nat,
)
    ensures
        ({
            let (state, out) = driven(dsl, weigh, SearchState::start(request, lo, hi), n);
            &&& out + remaining(dsl, weigh, state) == enumeration(dsl, weigh, request, lo, hi)
            &&& state.mode is Done ==> out == enumeration(dsl, weigh, request, lo, hi)
        }),
{
    let start = SearchState::start(request, lo, hi);
    lemma_driven_keeps(dsl, weigh, start, n);
    let top = fills(dsl, weigh, hi, outermost(request), ContextState::empty(), 0);
    assert(start.hole == outermost(request));
    assert(ahead(dsl, weigh, start) == resumed_each(dsl, weigh, hi, Seq::empty(), top, 0));
    lemma_resumed_outermost(dsl, weigh, hi, top, 0);
    assert(top.subrange(0, top.len() as int) =~= top);
    assert(left_in(dsl, weigh, lo, hi, start.choices) =~= Seq::empty());
    assert(within(lo, hi, top) + Seq::<(Expression, nat)>::empty() =~= within(lo, hi, top));
    let (state, out) = driven(dsl, weigh, start, n);
    if state.mode is Done {
        assert(out + Seq::<(Expression, nat)>::empty() =~= out);
    }
}

/// At the outermost place, what is resumed is what was found.
pub proof fn lemma_resumed_outermost(
    dsl: Language,
    weigh: Weigher,
    hi: nat,
    found: Seq<Found>,
    j: nat,
)
    requires
        j <= found.len(),
    ensures
        resumed_each(dsl, weigh, hi, Seq::empty(), found, j) == found.subrange(
            j as int,
            found.len() as int,
        ),
    decreases found.len() - j,
{
    let nowhere = Seq::<FrameModel>::empty();
    if j < found.len() {
        lemma_resumed_outermost(dsl, weigh, hi, found, j + 1);
        assert(resumed(dsl, weigh, hi, nowhere, found[j as int]) == seq![found[j as int]]);
        assert(resumed_each(dsl, weigh, hi, nowhere, found, j) == seq![found[j as int]]
            + resumed_each(dsl, weigh, hi, nowhere, found, j + 1));
        assert(seq![found[j as int]] + found.subrange(j as int + 1, found.len() as int)
            =~= found.subrange(j as int, found.len() as int));
    } else {
        assert(found.subrange(j as int, found.len() as int) =~= Seq::<Found>::empty());
    }
}

/// What the window holds of a sequence are expressions of the sequence,
/// with costs in the window.
pub proof fn lemma_within_members(lo: nat, hi: nat, found: Seq<Found>, i: int)
    requires
        0 <= i < within(lo, hi, found).len(),
    ensures
        lo <= within(lo, hi, found)[i].1 < hi,
        exists|j: int|
            0 <= j < found.len() && (#[trigger] found[j]).expr == within(lo, hi, found)[i].0
                && found[j].spent == within(lo, hi, found)[i].1,
    decreases found.len(),
{
    if found.len() > 0 {
        let front = within(lo, hi, found.drop_last());
        if i < front.len() {
            lemma_within_members(lo, hi, found.drop_last(), i);
            let j = choose|j: int|
                0 <= j < found.drop_last().len() && (#[trigger] found.drop_last()[j]).expr
                    == front[i].0 && found.drop_last()[j].spent == front[i].1;
            assert(found[j] == found.drop_last()[j]);
        } else {
            assert(found[found.len() - 1] == found.last());
        }
    }
}

/// Every expression that a search gives out has a cost within the window
/// of the search.
pub proof fn law_enumeration_in_window(
    dsl: Language,
    weigh: Weigher,
    request: TypeTerm,
    lo: nat,
    hi: nat,
    i: int,
)
    requires
        0 <= i < enumeration(dsl, weigh, request, lo, hi).len(),
    ensures
        lo <= enumeration(dsl, weigh, request, lo, hi)[i].1 < hi,
{
    lemma_within_members(
        lo,
        hi,
        fills(dsl, weigh, hi, outermost(request), ContextState::empty(), 0),
        i,
    );
}

} // verus!
