//! The search for expressions of a requested type, in order of cost.
//!
//! Costs are negative log-probabilities in fixed point, in millionths of a
//! nat. The search visits one window of cost after the other; within a window
//! it walks, depth first, the tree of partial expressions and gives out each
//! complete expression whose cost lies in the window. It holds one path of
//! that tree and the places on it where another head can still be chosen,
//! never the tree.
//!
//! What a head costs at a place depends on all the heads that are admitted
//! there, and working it out takes logarithms. The search leaves that to its
//! caller: it is a machine that is driven step by step. A step either changes
//! the state and asks to be continued, or hands out the admitted heads and
//! waits for their costs, or gives out an expression, or reports that the
//! window holds no more.

use vstd::prelude::*;
use super::candidates::{candidate_models, candidates, Candidate, CandidateModel};
use super::engine::{ContextState, TypeContext};
use super::expression::Expression;
use super::infer::bound_types;
use super::language::Language;
use super::types::{Type, TypeTerm};

verus! {

/// The width of a window of cost: one nat.
pub const WINDOW: u64 = 1_000_000;

/// The depth of nested applications beyond which a branch is given up. The
/// outermost application has depth 0.
pub const MAX_DEPTH: u32 = 256;

/// What the caller has to know of an admitted head to work out its cost.
#[derive(Debug, Clone, Copy, PartialEq, Eq)]
pub struct Weight {
    /// The log-probability registered for the head.
    pub logprob: i64,
    /// Whether the head is a bound variable. The bound variables admitted at
    /// a place share one log-probability among them.
    pub variable: bool,
}

/// What a step of the search asks of its caller.
#[derive(Debug, PartialEq, Eq)]
pub enum Action {
    /// Nothing: take the next step.
    Continue,
    /// Work out the cost of each of these heads, and hand the costs to the
    /// next step, in this order.
    Weigh(Vec<Weight>),
    /// This expression, of this cost, is the next of the window.
    Yield(Expression, u64),
    /// The window holds no more expressions.
    Exhausted,
}

/// The mathematical value of an [`Action`].
pub enum ActionModel {
    Continue,
    Weigh(Seq<Weight>),
    Yield(Expression, nat),
    Exhausted,
}

impl View for Action {
    type V = ActionModel;

    open spec fn view(&self) -> ActionModel {
        match self {
            Action::Continue => ActionModel::Continue,
            Action::Weigh(weights) => ActionModel::Weigh(weights@),
            Action::Yield(expr, cost) => ActionModel::Yield(*expr, *cost as nat),
            Action::Exhausted => ActionModel::Exhausted,
        }
    }
}

/// What the search does next.
#[derive(Debug, Clone, Copy, PartialEq, Eq)]
pub enum Mode {
    /// Open the place that is to be filled: find the heads admitted there.
    Open,
    /// Wait for the costs of the admitted heads.
    Weigh,
    /// Take the next head at the innermost place that has one left.
    Choose,
    /// Go on with the innermost application on the path: its next argument,
    /// or, when it is complete, the application around it.
    Advance,
    /// The window is exhausted.
    Done,
}

/// A place to be filled by an expression.
pub struct Hole {
    /// The type asked for.
    request: Type,
    /// The types of the binders in scope, innermost last.
    env: Vec<Type>,
    /// The number of abstractions that stand directly around the place.
    lambdas: usize,
    /// How many applications may still be nested from the place on.
    room: u32,
}

/// An application under construction.
pub struct Frame {
    /// The head applied to the arguments found so far.
    f: Expression,
    /// The type of `f`; as long as it is a function, an argument is missing.
    pending: Type,
    /// The types of the binders in scope, innermost last.
    env: Vec<Type>,
    /// The number of abstractions that stand directly around the application.
    lambdas: usize,
    /// How many applications may still be nested in an argument.
    room: u32,
}

/// A place where a head has been chosen and others may be left.
pub struct Choice {
    /// The heads admitted at the place.
    candidates: Vec<Candidate>,
    /// The cost of each.
    costs: Vec<u64>,
    /// The position of the next head to try.
    next: usize,
    /// The applications around the place, outermost first.
    parents: Vec<Frame>,
    /// The cost of what stands before the place.
    spent: u64,
    /// The place, with the room that is left inside what fills it.
    hole: Hole,
}

/// The mathematical value of a [`Hole`].
pub struct HoleModel {
    pub request: TypeTerm,
    pub env: Seq<TypeTerm>,
    pub lambdas: nat,
    pub room: nat,
}

/// The mathematical value of a [`Frame`].
pub struct FrameModel {
    pub f: Expression,
    pub pending: TypeTerm,
    pub env: Seq<TypeTerm>,
    pub lambdas: nat,
    pub room: nat,
}

/// The mathematical value of a [`Choice`].
pub struct ChoiceModel {
    pub candidates: Seq<CandidateModel>,
    pub costs: Seq<u64>,
    pub next: nat,
    pub parents: Seq<FrameModel>,
    pub spent: nat,
    pub hole: HoleModel,
}

/// The mathematical values of a sequence of types.
pub open spec fn terms(types: Seq<Type>) -> Seq<TypeTerm> {
    Seq::new(types.len(), |i: int| types[i]@)
}

/// A sequence in reverse.
pub open spec fn reversed(s: Seq<TypeTerm>) -> Seq<TypeTerm> {
    Seq::new(s.len(), |i: int| s[s.len() - 1 - i])
}

impl View for Hole {
    type V = HoleModel;

    closed spec fn view(&self) -> HoleModel {
        HoleModel {
            request: self.request@,
            env: terms(self.env@),
            lambdas: self.lambdas as nat,
            room: self.room as nat,
        }
    }
}

impl View for Frame {
    type V = FrameModel;

    closed spec fn view(&self) -> FrameModel {
        FrameModel {
            f: self.f,
            pending: self.pending@,
            env: terms(self.env@),
            lambdas: self.lambdas as nat,
            room: self.room as nat,
        }
    }
}

/// The mathematical values of a sequence of frames.
pub open spec fn frame_models(frames: Seq<Frame>) -> Seq<FrameModel> {
    Seq::new(frames.len(), |i: int| frames[i]@)
}

impl View for Choice {
    type V = ChoiceModel;

    closed spec fn view(&self) -> ChoiceModel {
        ChoiceModel {
            candidates: candidate_models(self.candidates@),
            costs: self.costs@,
            next: self.next as nat,
            parents: frame_models(self.parents@),
            spent: self.spent as nat,
            hole: self.hole@,
        }
    }
}

/// The mathematical values of a sequence of choices.
pub open spec fn choice_models(choices: Seq<Choice>) -> Seq<ChoiceModel> {
    Seq::new(choices.len(), |i: int| choices[i]@)
}

/// The expression inside `n` abstractions.
pub open spec fn abstracted(expr: Expression, n: nat) -> Expression
    decreases n,
{
    if n == 0 {
        expr
    } else {
        abstracted(Expression::Abstraction(Box::new(expr)), (n - 1) as nat)
    }
}

/// The place that a requested function type comes down to: each argument
/// becomes a binder, outermost first, and what is asked for is the result.
pub open spec fn curried(request: TypeTerm, env: Seq<TypeTerm>) -> (TypeTerm, Seq<TypeTerm>)
    decreases request,
{
    match request {
        TypeTerm::Arrow(arg, ret) => curried(*ret, env.push(*arg)),
        _ => (request, env),
    }
}

/// What the caller has to know of each candidate.
pub open spec fn weights_of(candidates: Seq<CandidateModel>) -> Seq<Weight> {
    Seq::new(
        candidates.len(),
        |i: int| Weight { logprob: candidates[i].logprob, variable: candidates[i].head is Index },
    )
}

/// The state of a search as contracts see it.
pub struct SearchState {
    /// The window of cost: from `lo` up to, not including, `hi`.
    pub lo: nat,
    pub hi: nat,
    pub mode: Mode,
    /// The applications under construction, outermost first.
    pub path: Seq<FrameModel>,
    /// The typing context at the end of the path.
    pub ctx: ContextState,
    /// The cost of the heads chosen on the path.
    pub spent: nat,
    /// The places where other heads may be left, outermost first.
    pub choices: Seq<ChoiceModel>,
    /// The place that is being opened.
    pub hole: HoleModel,
    /// The heads admitted at that place.
    pub found: Seq<CandidateModel>,
}

impl SearchState {
    /// The state in which the search for `request` in the given window
    /// starts.
    pub open spec fn start(request: TypeTerm, lo: nat, hi: nat) -> SearchState {
        SearchState {
            lo,
            hi,
            mode: Mode::Open,
            path: Seq::empty(),
            ctx: ContextState::empty(),
            spent: 0,
            choices: Seq::empty(),
            hole: HoleModel { request, env: Seq::empty(), lambdas: 0, room: MAX_DEPTH as nat + 1 },
            found: Seq::empty(),
        }
    }

    /// Opening a place. Beyond the window, where no room is left, and under
    /// more binders than an index can count, the place is given up. Otherwise the arguments of a requested function become
    /// binders, the heads admitted for its result are found, and their costs
    /// are asked for; where none is admitted, the place is given up.
    pub open spec fn open(self, dsl: Language) -> (SearchState, ActionModel) {
        let (request, env) = curried(self.hole.request, self.hole.env);
        let found = dsl.candidates_for(request, self.ctx, reversed(env));
        if self.spent >= self.hi || self.hole.room == 0 || env.len() > usize::MAX || found.len() == 0 {
            (SearchState { mode: Mode::Choose, ..self }, ActionModel::Continue)
        } else {
            (
                SearchState {
                    mode: Mode::Weigh,
                    hole: HoleModel {
                        request,
                        env,
                        lambdas: (env.len() - self.hole.env.len()) as nat,
                        room: (self.hole.room - 1) as nat,
                    },
                    found,
                    ..self
                },
                ActionModel::Weigh(weights_of(found)),
            )
        }
    }

    /// Taking the costs of the admitted heads: the place becomes one where
    /// heads are chosen. Without one cost for each head, they are asked for
    /// again.
    pub open spec fn weigh(self, costs: Option<Seq<u64>>) -> (SearchState, ActionModel) {
        if costs is Some && costs->Some_0.len() == self.found.len() {
            (
                SearchState {
                    mode: Mode::Choose,
                    path: Seq::empty(),
                    choices: self.choices.push(
                        ChoiceModel {
                            candidates: self.found,
                            costs: costs->Some_0,
                            next: 0,
                            parents: self.path,
                            spent: self.spent,
                            hole: self.hole,
                        },
                    ),
                    found: Seq::empty(),
                    ..self
                },
                ActionModel::Continue,
            )
        } else {
            (self, ActionModel::Weigh(weights_of(self.found)))
        }
    }

    /// Choosing a head. The innermost place with a head left gives its next
    /// head; a place without one is dropped. The head is taken if its cost
    /// keeps the path below the end of the window: it starts an application
    /// inside the applications around the place.
    pub open spec fn pick(self) -> (SearchState, ActionModel) {
        if self.choices.len() == 0 {
            (SearchState { mode: Mode::Done, ..self }, ActionModel::Exhausted)
        } else {
            let choice = self.choices.last();
            let i = choice.next as int;
            if i >= choice.candidates.len() || i >= choice.costs.len() {
                (SearchState { choices: self.choices.drop_last(), ..self }, ActionModel::Continue)
            } else {
                let tried = self.choices.drop_last().push(
                    ChoiceModel { next: choice.next + 1nat, ..choice },
                );
                if choice.spent + choice.costs[i] < self.hi {
                    (
                        SearchState {
                            mode: Mode::Advance,
                            path: choice.parents.push(
                                FrameModel {
                                    f: choice.candidates[i].head,
                                    pending: choice.candidates[i].tp,
                                    env: choice.hole.env,
                                    lambdas: choice.hole.lambdas,
                                    room: choice.hole.room,
                                },
                            ),
                            ctx: choice.candidates[i].ctx,
                            spent: choice.spent + choice.costs[i] as nat,
                            choices: tried,
                            ..self
                        },
                        ActionModel::Continue,
                    )
                } else {
                    (SearchState { choices: tried, ..self }, ActionModel::Continue)
                }
            }
        }
    }

    /// Going on with the innermost application. Where an argument is
    /// missing, its place is opened. Where none is, the application,
    /// inside its abstractions, becomes the next argument of the application
    /// around it; the outermost one is given out if its cost lies in the
    /// window.
    pub open spec fn advance(self) -> (SearchState, ActionModel) {
        if self.path.len() == 0 {
            (SearchState { mode: Mode::Choose, ..self }, ActionModel::Continue)
        } else {
            let frame = self.path.last();
            match frame.pending {
                TypeTerm::Arrow(arg, ret) => (
                    SearchState {
                        mode: Mode::Open,
                        path: self.path.drop_last().push(FrameModel { pending: *ret, ..frame }),
                        hole: HoleModel {
                            request: self.ctx.apply(*arg),
                            env: frame.env,
                            lambdas: 0,
                            room: frame.room,
                        },
                        ..self
                    },
                    ActionModel::Continue,
                ),
                _ => {
                    let expr = abstracted(frame.f, frame.lambdas);
                    if self.path.len() == 1 {
                        (
                            SearchState { mode: Mode::Choose, path: Seq::empty(), ..self },
                            if self.lo <= self.spent < self.hi {
                                ActionModel::Yield(expr, self.spent)
                            } else {
                                ActionModel::Continue
                            },
                        )
                    } else {
                        let outer = self.path[self.path.len() - 2];
                        (
                            SearchState {
                                path: self.path.drop_last().drop_last().push(
                                    FrameModel {
                                        f: Expression::Application(
                                            Box::new(outer.f),
                                            Box::new(expr),
                                        ),
                                        ..outer
                                    },
                                ),
                                ..self
                            },
                            ActionModel::Continue,
                        )
                    }
                },
            }
        }
    }

    /// One step of the search: the state after it and what it asks of the
    /// caller. `costs` is the caller's answer to a preceding `Weigh`.
    pub open spec fn step(self, dsl: Language, costs: Option<Seq<u64>>) -> (
        SearchState,
        ActionModel,
    ) {
        match self.mode {
            Mode::Open => self.open(dsl),
            Mode::Weigh => self.weigh(costs),
            Mode::Choose => self.pick(),
            Mode::Advance => self.advance(),
            Mode::Done => (self, ActionModel::Exhausted),
        }
    }
}

/// A copy of a sequence of types.
fn copy_types(types: &Vec<Type>) -> (copy: Vec<Type>)
    ensures
        terms(copy@) == terms(types@),
        copy.len() == types.len(),
{
    let mut copy: Vec<Type> = Vec::new();
    let mut i: usize = 0;
    while i < types.len()
        invariant
            i <= types.len(),
            copy.len() == i,
            forall|j: int| 0 <= j < i ==> copy@[j]@ == types@[j]@,
        decreases types.len() - i,
    {
        copy.push(types[i].duplicate());
        i = i + 1;
    }
    assert(terms(copy@) =~= terms(types@));
    copy
}

/// A copy of a frame.
fn copy_frame(frame: &Frame) -> (copy: Frame)
    ensures
        copy@ == frame@,
{
    Frame {
        f: frame.f.duplicate(),
        pending: frame.pending.duplicate(),
        env: copy_types(&frame.env),
        lambdas: frame.lambdas,
        room: frame.room,
    }
}

/// A copy of a sequence of frames.
fn copy_frames(frames: &Vec<Frame>) -> (copy: Vec<Frame>)
    ensures
        frame_models(copy@) == frame_models(frames@),
{
    let mut copy: Vec<Frame> = Vec::new();
    let mut i: usize = 0;
    while i < frames.len()
        invariant
            i <= frames.len(),
            copy.len() == i,
            forall|j: int| 0 <= j < i ==> copy@[j]@ == frames@[j]@,
        decreases frames.len() - i,
    {
        copy.push(copy_frame(&frames[i]));
        i = i + 1;
    }
    assert(frame_models(copy@) =~= frame_models(frames@));
    copy
}

/// The expression inside `n` abstractions.
fn abstract_over(expr: Expression, n: usize) -> (r: Expression)
    ensures
        r == abstracted(expr, n as nat),
    decreases n,
{
    if n == 0 {
        expr
    } else {
        abstract_over(Expression::Abstraction(Box::new(expr)), n - 1)
    }
}

/// Turns the arguments of a requested function into binders.
fn curry(request: Type, env: &mut Vec<Type>) -> (result: Type)
    ensures
        (result@, terms(final(env)@)) == curried(request@, terms(old(env)@)),
        final(env).len() >= old(env).len(),
    decreases request,
{
    match request {
        Type::Arrow(arg, ret) => {
            let ghost before = terms(env@);
            env.push(*arg);
            assert(terms(env@) =~= before.push(arg@));
            curry(*ret, env)
        },
        other => other,
    }
}

/// What the caller has to know of each candidate.
fn weights(found: &Vec<Candidate>) -> (r: Vec<Weight>)
    ensures
        r@ == weights_of(candidate_models(found@)),
{
    let mut r: Vec<Weight> = Vec::new();
    let mut i: usize = 0;
    while i < found.len()
        invariant
            i <= found.len(),
            r.len() == i,
            forall|j: int|
                0 <= j < i ==> r@[j] == (Weight {
                    logprob: found@[j].logprob,
                    variable: found@[j].head is Index,
                }),
        decreases found.len() - i,
    {
        let variable = match found[i].head {
            Expression::Index(_) => true,
            _ => false,
        };
        r.push(Weight { logprob: found[i].logprob, variable });
        i = i + 1;
    }
    assert(r@ =~= weights_of(candidate_models(found@)));
    r
}

/// The search for the expressions of a requested type whose cost lies in
/// one window.
pub struct Search {
    lo: u64,
    hi: u64,
    mode: Mode,
    path: Vec<Frame>,
    ctx: TypeContext,
    spent: u64,
    choices: Vec<Choice>,
    hole: Hole,
    found: Vec<Candidate>,
}

impl View for Search {
    type V = SearchState;

    closed spec fn view(&self) -> SearchState {
        SearchState {
            lo: self.lo as nat,
            hi: self.hi as nat,
            mode: self.mode,
            path: frame_models(self.path@),
            ctx: self.ctx@,
            spent: self.spent as nat,
            choices: choice_models(self.choices@),
            hole: self.hole@,
            found: candidate_models(self.found@),
        }
    }
}

impl Search {
    /// The search for `request` in the window with the given number: window
    /// `k` holds the costs from `k * WINDOW` up to, not including,
    /// `(k + 1) * WINDOW`.
    pub fn new(request: Type, window: u64) -> (search: Search)
        requires
            (window + 1) * WINDOW <= u64::MAX,
        ensures
            search@ == SearchState::start(
                request@,
                (window * WINDOW) as nat,
                ((window + 1) * WINDOW) as nat,
            ),
    {
        assert(window * WINDOW <= (window + 1) * WINDOW) by (nonlinear_arith);
        let search = Search {
            lo: window * WINDOW,
            hi: (window + 1) * WINDOW,
            mode: Mode::Open,
            path: Vec::new(),
            ctx: TypeContext::new(),
            spent: 0,
            choices: Vec::new(),
            hole: Hole { request, env: Vec::new(), lambdas: 0, room: MAX_DEPTH + 1 },
            found: Vec::new(),
        };
        proof {
            assert(frame_models(search.path@) =~= Seq::empty());
            assert(choice_models(search.choices@) =~= Seq::empty());
            assert(candidate_models(search.found@) =~= Seq::empty());
            assert(terms(search.hole.env@) =~= Seq::empty());
        }
        search
    }

    /// What the search does next.
    pub fn mode(&self) -> (mode: Mode)
        ensures
            mode == self@.mode,
    {
        self.mode
    }

    /// Takes one step of the search in the given language and says what the
    /// caller is to do. After `Weigh`, the next step takes the costs of the
    /// heads handed out; every other step takes `None`.
    pub fn step(&mut self, dsl: &Language, costs: Option<Vec<u64>>) -> (action: Action)
        ensures
            final(self)@ == old(self)@.step(*dsl, option_view(costs)).0,
            action@ == old(self)@.step(*dsl, option_view(costs)).1,
    {
        match self.mode {
            Mode::Open => self.open(dsl),
            Mode::Weigh => self.weigh(costs),
            Mode::Choose => self.pick(),
            Mode::Advance => self.advance(),
            Mode::Done => Action::Exhausted,
        }
    }

    /// Opens the place that is to be filled.
    fn open(&mut self, dsl: &Language) -> (action: Action)
        ensures
            final(self)@ == old(self)@.open(*dsl).0,
            action@ == old(self)@.open(*dsl).1,
    {
        if self.spent >= self.hi || self.hole.room == 0 {
            self.mode = Mode::Choose;
            return Action::Continue;
        }
        let mut env = copy_types(&self.hole.env);
        let request = curry(self.hole.request.duplicate(), &mut env);
        let found = candidates(dsl, &request, &self.ctx, &env);
        proof {
            assert(bound_types(env@) =~= reversed(terms(env@)));
        }
        if found.len() == 0 {
            self.mode = Mode::Choose;
            Action::Continue
        } else {
            let asked = weights(&found);
            let lambdas = env.len() - self.hole.env.len();
            self.mode = Mode::Weigh;
            self.hole = Hole { request, env, lambdas, room: self.hole.room - 1 };
            self.found = found;
            Action::Weigh(asked)
        }
    }

    /// Takes the costs of the heads admitted at the place.
    fn weigh(&mut self, costs: Option<Vec<u64>>) -> (action: Action)
        ensures
            final(self)@ == old(self)@.weigh(option_view(costs)).0,
            action@ == old(self)@.weigh(option_view(costs)).1,
    {
        match costs {
            Some(costs) => {
                if costs.len() == self.found.len() {
                    let mut found: Vec<Candidate> = Vec::new();
                    let mut path: Vec<Frame> = Vec::new();
                    let mut hole = Hole {
                        request: self.hole.request.duplicate(),
                        env: copy_types(&self.hole.env),
                        lambdas: self.hole.lambdas,
                        room: self.hole.room,
                    };
                    std::mem::swap(&mut found, &mut self.found);
                    std::mem::swap(&mut path, &mut self.path);
                    let ghost before = choice_models(self.choices@);
                    let choice = Choice {
                        candidates: found,
                        costs,
                        next: 0,
                        parents: path,
                        spent: self.spent,
                        hole,
                    };
                    self.choices.push(choice);
                    self.mode = Mode::Choose;
                    proof {
                        assert(choice_models(self.choices@) =~= before.push(choice@));
                        assert(frame_models(self.path@) =~= Seq::empty());
                        assert(candidate_models(self.found@) =~= Seq::empty());
                    }
                    return Action::Continue;
                }
            },
            None => {},
        }
        Action::Weigh(weights(&self.found))
    }

    /// Takes the next head at the innermost place that has one left.
    fn pick(&mut self) -> (action: Action)
        ensures
            final(self)@ == old(self)@.pick().0,
            action@ == old(self)@.pick().1,
    {
        let ghost before = choice_models(self.choices@);
        match self.choices.pop() {
            None => {
                self.mode = Mode::Done;
                assert(choice_models(self.choices@) =~= before);
                Action::Exhausted
            },
            Some(mut choice) => {
                assert(before.last() == choice@);
                assert(choice_models(self.choices@) =~= before.drop_last());
                let i = choice.next;
                if i >= choice.candidates.len() || i >= choice.costs.len() {
                    return Action::Continue;
                }
                let cost = choice.costs[i];
                let ghost old_choice = choice@;
                if choice.spent < self.hi && cost < self.hi - choice.spent {
                    let mut path = copy_frames(&choice.parents);
                    let candidate = &choice.candidates[i];
                    let frame = Frame {
                        f: candidate.head.duplicate(),
                        pending: candidate.tp.duplicate(),
                        env: copy_types(&choice.hole.env),
                        lambdas: choice.hole.lambdas,
                        room: choice.hole.room,
                    };
                    let ghost parents = frame_models(path@);
                    path.push(frame);
                    assert(frame_models(path@) =~= parents.push(frame@));
                    self.path = path;
                    self.ctx = candidate.ctx.duplicate();
                    self.spent = choice.spent + cost;
                    self.mode = Mode::Advance;
                }
                choice.next = i + 1;
                let ghost dropped = choice_models(self.choices@);
                self.choices.push(choice);
                assert(choice_models(self.choices@) =~= dropped.push(choice@));
                assert(choice@ == (ChoiceModel { next: old_choice.next + 1nat, ..old_choice }));
                Action::Continue
            },
        }
    }

    /// Goes on with the innermost application on the path.
    fn advance(&mut self) -> (action: Action)
        ensures
            final(self)@ == old(self)@.advance().0,
            action@ == old(self)@.advance().1,
    {
        let ghost before = frame_models(self.path@);
        match self.path.pop() {
            None => {
                self.mode = Mode::Choose;
                assert(frame_models(self.path@) =~= before);
                Action::Continue
            },
            Some(frame) => {
                assert(before.last() == frame@);
                assert(frame_models(self.path@) =~= before.drop_last());
                let ghost rest = frame_models(self.path@);
                let Frame { f, pending, env, lambdas, room } = frame;
                match pending {
                    Type::Arrow(arg, ret) => {
                        self.hole = Hole {
                            request: self.ctx.apply(&arg),
                            env: copy_types(&env),
                            lambdas: 0,
                            room,
                        };
                        let waiting = Frame { f, pending: *ret, env, lambdas, room };
                        self.path.push(waiting);
                        self.mode = Mode::Open;
                        assert(frame_models(self.path@) =~= rest.push(waiting@));
                        Action::Continue
                    },
                    other => {
                        let expr = abstract_over(f, lambdas);
                        match self.path.pop() {
                            None => {
                                self.mode = Mode::Choose;
                                assert(frame_models(self.path@) =~= Seq::empty());
                                if self.lo <= self.spent && self.spent < self.hi {
                                    Action::Yield(expr, self.spent)
                                } else {
                                    Action::Continue
                                }
                            },
                            Some(outer) => {
                                assert(rest.last() == outer@);
                                assert(frame_models(self.path@) =~= rest.drop_last());
                                let ghost below = frame_models(self.path@);
                                let Frame { f, pending, env, lambdas, room } = outer;
                                let grown = Frame {
                                    f: Expression::Application(Box::new(f), Box::new(expr)),
                                    pending,
                                    env,
                                    lambdas,
                                    room,
                                };
                                self.path.push(grown);
                                assert(frame_models(self.path@) =~= below.push(grown@));
                                Action::Continue
                            },
                        }
                    },
                }
            },
        }
    }
}

/// The costs that a step takes, as contracts see them.
pub open spec fn option_view(costs: Option<Vec<u64>>) -> Option<Seq<u64>> {
    match costs {
        Some(costs) => Some(costs@),
        None => None,
    }
}

/// Every expression that a search gives out has a cost within the window of
/// the search.
pub proof fn law_window_bound(state: SearchState, dsl: Language, costs: Option<Seq<u64>>)
    ensures
        state.step(dsl, costs).1 matches ActionModel::Yield(_, cost) ==> state.lo <= cost
            < state.hi,
        state.step(dsl, costs).0.lo == state.lo,
        state.step(dsl, costs).0.hi == state.hi,
{
}

} // verus!
