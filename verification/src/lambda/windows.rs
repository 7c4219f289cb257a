//! The enumeration of the expressions of a type: one window of cost after
//! the other, in increasing order.
//!
//! Like the search of one window, the enumeration is a machine that its
//! caller drives step by step, working out the costs that a step asks for.
//! It comes to an end where nothing at all can stand at the outermost
//! place, and where no window is left in the range of costs.

use vstd::prelude::*;
use super::enumeration::{
    answer, enumeration, given, law_search_gives_enumeration, lemma_step_keeps, remaining, Weigher,
};
use super::enumerator::{
    option_view, Action, ActionModel, Mode, Search, SearchState, WINDOW,
};
use super::expression::Expression;
use super::language::Language;
use super::types::{Type, TypeTerm};

verus! {

/// The number of the last window whose costs all lie in the range of
/// costs.
pub const LAST_WINDOW: u64 = 18_446_744_073_708;

/// The enumeration of the expressions of a requested type.
pub struct Enumerator {
    request: Type,
    window: u64,
    search: Search,
    fresh: bool,
    ended: bool,
}

/// The state of an enumeration as contracts see it.
pub struct EnumeratorState {
    /// The type asked for.
    pub request: TypeTerm,
    /// The number of the window that is being searched.
    pub window: nat,
    /// The search of that window.
    pub search: SearchState,
    /// Whether the search of the window has not taken a step yet.
    pub fresh: bool,
    /// Whether the enumeration has come to its end.
    pub ended: bool,
}

/// The search of the window with the given number, at its start.
pub open spec fn window_start(request: TypeTerm, window: nat) -> SearchState {
    SearchState::start(request, window * WINDOW as nat, (window + 1) * WINDOW as nat)
}

impl EnumeratorState {
    /// The state in which the enumeration for `request` starts: at the
    /// start of window 0.
    pub open spec fn start(request: TypeTerm) -> EnumeratorState {
        EnumeratorState {
            request,
            window: 0,
            search: window_start(request, 0),
            fresh: true,
            ended: false,
        }
    }

    /// One step of the enumeration: a step of the search of the current
    /// window. Where that search is exhausted, the next window is started,
    /// or the enumeration ends if there is none. Where the first step of a
    /// window finds no head for the outermost place, no window holds
    /// anything, and the enumeration ends.
    pub open spec fn step(self, dsl: Language, costs: Option<Seq<u64>>) -> (
        EnumeratorState,
        ActionModel,
    ) {
        let (next, action) = self.search.step(dsl, costs);
        if self.ended {
            (self, ActionModel::Exhausted)
        } else if action is Exhausted {
            if self.window < LAST_WINDOW {
                (
                    EnumeratorState {
                        window: self.window + 1,
                        search: window_start(self.request, self.window + 1),
                        fresh: true,
                        ..self
                    },
                    ActionModel::Continue,
                )
            } else {
                (
                    EnumeratorState { search: next, fresh: false, ended: true, ..self },
                    ActionModel::Exhausted,
                )
            }
        } else if self.fresh && action is Continue && next.mode is Choose {
            (
                EnumeratorState { search: next, fresh: false, ended: true, ..self },
                ActionModel::Exhausted,
            )
        } else {
            (EnumeratorState { search: next, fresh: false, ..self }, action)
        }
    }
}

impl View for Enumerator {
    type V = EnumeratorState;

    closed spec fn view(&self) -> EnumeratorState {
        EnumeratorState {
            request: self.request@,
            window: self.window as nat,
            search: self.search@,
            fresh: self.fresh,
            ended: self.ended,
        }
    }
}

impl Enumerator {
    /// The enumeration of the expressions of type `request`, at its start.
    pub fn new(request: Type) -> (enumerator: Enumerator)
        ensures
            enumerator@ == EnumeratorState::start(request@),
    {
        let search = Search::new(request.duplicate(), 0);
        Enumerator { request, window: 0, search, fresh: true, ended: false }
    }

    /// The number of the window that is being searched.
    pub fn window(&self) -> (window: u64)
        ensures
            window == self@.window,
    {
        self.window
    }

    /// Takes one step of the enumeration in the given language and says
    /// what the caller is to do. After `Weigh`, the next step takes the
    /// costs of the heads handed out; every other step takes `None`.
    /// `Exhausted` says that the enumeration has come to its end.
    pub fn step(&mut self, dsl: &Language, costs: Option<Vec<u64>>) -> (action: Action)
        ensures
            final(self)@ == old(self)@.step(*dsl, option_view(costs)).0,
            action@ == old(self)@.step(*dsl, option_view(costs)).1,
    {
        if self.ended {
            return Action::Exhausted;
        }
        let action = self.search.step(dsl, costs);
        match action {
            Action::Exhausted => {
                if self.window < LAST_WINDOW {
                    let window = self.window + 1;
                    self.search = Search::new(self.request.duplicate(), window);
                    self.window = window;
                    self.fresh = true;
                    Action::Continue
                } else {
                    self.fresh = false;
                    self.ended = true;
                    Action::Exhausted
                }
            },
            Action::Continue => {
                let stuck = self.fresh && matches!(self.search.mode(), Mode::Choose);
                self.fresh = false;
                if stuck {
                    self.ended = true;
                    Action::Exhausted
                } else {
                    Action::Continue
                }
            },
            other => {
                self.fresh = false;
                other
            },
        }
    }
}

/// The enumerations of the windows below `count`, one after the other in
/// increasing order.
pub open spec fn windows_below(
    dsl: Language,
    weigh: Weigher,
    request: TypeTerm,
    count: nat,
) -> Seq<(Expression, nat)>
    decreases count,
{
    if count == 0 {
        Seq::empty()
    } else {
        windows_below(dsl, weigh, request, (count - 1) as nat) + enumeration(
            dsl,
            weigh,
            request,
            (count - 1) as nat * WINDOW as nat,
            count * WINDOW as nat,
        )
    }
}

/// The state of an enumeration after `n` steps from its start, and what the
/// steps gave out. The caller is taken to answer each request for costs by
/// `weigh`.
pub open spec fn enumerated(dsl: Language, weigh: Weigher, request: TypeTerm, n: nat) -> (
    EnumeratorState,
    Seq<(Expression, nat)>,
)
    decreases n,
{
    if n == 0 {
        (EnumeratorState::start(request), Seq::empty())
    } else {
        let (state, out) = enumerated(dsl, weigh, request, (n - 1) as nat);
        let (next, action) = state.step(dsl, answer(weigh, state.search));
        (next, out + given(action))
    }
}

/// The windows come in increasing order, none is left out, and the search
/// of a window keeps to its window.
pub proof fn law_windows_ascend(state: EnumeratorState, dsl: Language, costs: Option<Seq<u64>>)
    requires
        state.search.lo == state.window * WINDOW as nat,
        state.search.hi == (state.window + 1) * WINDOW as nat,
    ensures
        ({
            let next = state.step(dsl, costs).0;
            &&& next.window == state.window || next.window == state.window + 1
            &&& next.search.lo == next.window * WINDOW as nat
            &&& next.search.hi == (next.window + 1) * WINDOW as nat
            &&& next.request == state.request
            &&& state.step(dsl, costs).1 matches ActionModel::Yield(_, cost) ==> state.window
                * WINDOW as nat <= cost < (state.window + 1) * WINDOW as nat
        }),
{
}

/// The enumeration gives out the expressions window by window, in
/// increasing order of the windows and within each in the order of its
/// search: after any number of steps, what was given out, followed by what
/// the search of the current window still gives, is the enumerations of
/// all windows up to the current one, one after the other.
pub proof fn law_enumerator_gives_windows_in_order(
    dsl: Language,
    weigh: Weigher,
    request: TypeTerm,
    n: nat,
)
    ensures
        ({
            let (state, out) = enumerated(dsl, weigh, request, n);
            &&& state.request == request
            &&& state.search.lo == state.window * WINDOW as nat
            &&& state.search.hi == (state.window + 1) * WINDOW as nat
            &&& state.fresh ==> state.search == window_start(request, state.window)
            &&& out + remaining(dsl, weigh, state.search) == windows_below(
                dsl,
                weigh,
                request,
                state.window + 1,
            )
        }),
    decreases n,
{
    let none = Seq::<(Expression, nat)>::empty();
    if n == 0 {
        let state = EnumeratorState::start(request);
        law_search_gives_enumeration(dsl, weigh, request, 0, WINDOW as nat, 0);
        assert(windows_below(dsl, weigh, request, 0) =~= none);
        assert(none + remaining(dsl, weigh, state.search) =~= remaining(dsl, weigh, state.search));
        assert(none + enumeration(dsl, weigh, request, 0, WINDOW as nat) =~= enumeration(
            dsl,
            weigh,
            request,
            0,
            WINDOW as nat,
        ));
    } else {
        law_enumerator_gives_windows_in_order(dsl, weigh, request, (n - 1) as nat);
        let (state, out) = enumerated(dsl, weigh, request, (n - 1) as nat);
        let costs = answer(weigh, state.search);
        let (inner, inner_action) = state.search.step(dsl, costs);
        let (next, action) = state.step(dsl, costs);
        let so_far = windows_below(dsl, weigh, request, state.window + 1);
        lemma_step_keeps(dsl, weigh, state.search);
        if state.ended {
            assert(out + given(action) =~= out);
        } else if inner_action is Exhausted {
            assert(given(inner_action) =~= none);
            assert(inner.mode is Done);
            assert(remaining(dsl, weigh, state.search) =~= none);
            assert(out + none =~= out);
            assert(out + given(action) =~= out);
            if state.window < LAST_WINDOW {
                let lo = (state.window + 1) * WINDOW as nat;
                let hi = (state.window + 2) * WINDOW as nat;
                law_search_gives_enumeration(dsl, weigh, request, lo, hi, 0);
                assert(none + remaining(dsl, weigh, next.search) =~= remaining(
                    dsl,
                    weigh,
                    next.search,
                ));
                assert((state.window + 1 + 1) * WINDOW as nat == hi);
            }
        } else {
            assert(given(action) + remaining(dsl, weigh, next.search) =~= remaining(
                dsl,
                weigh,
                state.search,
            )) by {
                if state.fresh && inner_action is Continue && inner.mode is Choose {
                    assert(given(action) =~= given(inner_action));
                }
            }
            assert((out + given(action)) + remaining(dsl, weigh, next.search) =~= out + (given(
                action,
            ) + remaining(dsl, weigh, next.search)));
        }
    }
}

} // verus!
