//! Simple types: in a language whose types hold no variables, what a
//! search gives out has the type that was asked for.

use vstd::prelude::*;
use super::candidates::{
    admitted, invented_candidates, primitive_candidates, variable_candidates, CandidateModel,
};
use super::engine::{substituted, ContextState};
use super::enumeration::{
    applied_to, completes, enumeration, extends, fills, lemma_within_members, outermost, picks,
    within, Found, Weigher,
};
use super::enumerator::{abstracted, curried, reversed, weights_of, FrameModel, HoleModel};
use super::expression::Expression;
use super::language::Language;
use super::roundtrip::lemma_curried_grows;
use super::types::TypeTerm;

verus! {

impl TypeTerm {
    /// Whether the type holds no variable.
    pub open spec fn ground(self) -> bool {
        self.variables().len() == 0
    }
}

/// Whether none of the types holds a variable.
pub open spec fn all_ground(types: Seq<TypeTerm>) -> bool {
    forall|i: int| 0 <= i < types.len() ==> (#[trigger] types[i]).ground()
}

impl Language {
    /// Whether no registered type holds a variable.
    pub open spec fn monomorphic(self) -> bool {
        all_ground(self.primitive_types()) && all_ground(self.invented_types())
    }

    /// The type of a head applied to arguments, under the binders of types
    /// `env`, innermost last: the registered type of a primitive or an
    /// invention, the type of the binder of an index, and for an application
    /// the result of the function's type, where the argument has the type
    /// that the function takes. Nothing else has such a type.
    pub open spec fn synthesized(self, env: Seq<TypeTerm>, expr: Expression) -> Option<TypeTerm>
        decreases expr, 0nat,
    {
        match expr {
            Expression::Primitive(num) => if num < self.primitives.len() {
                Some(self.primitive_types()[num as int])
            } else {
                None
            },
            Expression::Invented(num) => if num < self.invented.len() {
                Some(self.invented_types()[num as int])
            } else {
                None
            },
            Expression::Index(i) => if i < env.len() {
                Some(env[env.len() - 1 - i])
            } else {
                None
            },
            Expression::Application(f, x) => match self.synthesized(env, *f) {
                Some(TypeTerm::Arrow(arg, ret)) => if self.checks(env, *x, *arg) {
                    Some(*ret)
                } else {
                    None
                },
                _ => None,
            },
            Expression::Abstraction(_) => None,
        }
    }

    /// Whether the expression has the type `t` under the binders of types
    /// `env`, innermost last: an abstraction has a function type whose
    /// result its body has under one more binder, of the argument's type;
    /// every other expression has the type that it takes from its head.
    pub open spec fn checks(self, env: Seq<TypeTerm>, expr: Expression, t: TypeTerm) -> bool
        decreases expr, 1nat,
    {
        match expr {
            Expression::Abstraction(body) => t matches TypeTerm::Arrow(arg, ret) && self.checks(
                env.push(*arg),
                *body,
                *ret,
            ),
            _ => self.synthesized(env, expr) == Some(t),
        }
    }

    /// Whether the expression is `n` abstractions around a body that has the
    /// type `t` from its head under the binders of types `env`.
    pub open spec fn checks_inside(self, env: Seq<TypeTerm>, n: nat, expr: Expression, t: TypeTerm) -> bool
        decreases n,
    {
        if n == 0 {
            self.synthesized(env, expr) == Some(t)
        } else {
            expr matches Expression::Abstraction(body) && self.checks_inside(
                env,
                (n - 1) as nat,
                *body,
                t,
            )
        }
    }
}

/// The types of a sequence without variables hold none.
pub proof fn lemma_ground_parts(ts: Seq<TypeTerm>)
    requires
        TypeTerm::variables_in(ts).len() == 0,
    ensures
        all_ground(ts),
    decreases ts,
{
    if ts.len() > 0 {
        lemma_ground_parts(ts.drop_last());
        assert forall|i: int| 0 <= i < ts.len() implies (#[trigger] ts[i]).ground() by {
            if i < ts.len() - 1 {
                assert(ts[i] == ts.drop_last()[i]);
            }
        }
    }
}

/// Applying substitutions to a type without variables leaves it as it is,
/// and so does giving it new variables.
pub proof fn lemma_ground_stays(t: TypeTerm, bindings: Map<u32, TypeTerm>, order: Seq<u32>, base: nat)
    requires
        t.ground(),
    ensures
        substituted(bindings, t) == t,
        t.renamed(order, base) == t,
    decreases t,
{
    match t {
        TypeTerm::Arrow(arg, ret) => {
            lemma_ground_stays(*arg, bindings, order, base);
            lemma_ground_stays(*ret, bindings, order, base);
        },
        TypeTerm::Constructed(name, args) => {
            lemma_ground_parts(args);
            assert forall|i: int| 0 <= i < args.len() implies substituted(bindings, args[i])
                == args[i] && args[i].renamed(order, base) == args[i] by {
                assert(args[i].ground());
                lemma_ground_stays(args[i], bindings, order, base);
            }
            assert(substituted(bindings, t)->Constructed_1 =~= args);
            assert(t.renamed(order, base)->Constructed_1 =~= args);
        },
        TypeTerm::Variable(_) => {},
    }
}

/// The result of a type without variables holds none.
pub proof fn lemma_ground_result(t: TypeTerm)
    requires
        t.ground(),
    ensures
        t.result_type().ground(),
    decreases t,
{
    match t {
        TypeTerm::Arrow(_, ret) => lemma_ground_result(*ret),
        _ => {},
    }
}

/// What is admitted for a request without variables, of a type without
/// variables, keeps its type, and that type gives the request.
pub proof fn lemma_admitted_ground(
    tp: TypeTerm,
    registered: bool,
    request: TypeTerm,
    ctx: ContextState,
)
    requires
        tp.ground(),
        request.ground(),
    ensures
        admitted(tp, registered, request, ctx) matches Some(placed) ==> placed.0 == tp
            && tp.result_type() == request,
{
    lemma_ground_result(tp);
    let order = super::types::first_seen(tp.variables());
    lemma_ground_stays(tp, ctx.bindings, order, ctx.next);
    lemma_ground_stays(tp.result_type(), ctx.bindings, order, ctx.next);
    lemma_ground_stays(request, ctx.bindings, order, ctx.next);
    let placed = if registered {
        ctx.instantiate(tp)
    } else {
        (Some(tp), ctx)
    };
    if placed.0 is Some {
        assert(placed.0->Some_0 == tp);
        assert(placed.1.bindings == ctx.bindings);
        let after = placed.1.unify(tp.result_type(), request);
        if after.0 is Ok {
            lemma_ground_stays(tp, after.1.bindings, order, ctx.next);
        }
    }
}

/// Whether each candidate has a type without variables that gives the
/// request, and takes that type from its head under the binders.
pub open spec fn well_typed(
    dsl: Language,
    env: Seq<TypeTerm>,
    request: TypeTerm,
    candidates: Seq<CandidateModel>,
) -> bool {
    forall|i: int|
        0 <= i < candidates.len() ==> {
            &&& (#[trigger] candidates[i]).tp.ground()
            &&& candidates[i].tp.result_type() == request
            &&& dsl.synthesized(env, candidates[i].head) == Some(candidates[i].tp)
        }
}

/// The candidates among the first `n` primitives are well typed.
proof fn lemma_primitive_candidates_typed(
    dsl: Language,
    env: Seq<TypeTerm>,
    request: TypeTerm,
    ctx: ContextState,
    n: nat,
)
    requires
        dsl.monomorphic(),
        request.ground(),
        n <= dsl.primitives.len(),
    ensures
        well_typed(
            dsl,
            env,
            request,
            primitive_candidates(dsl.primitive_types(), dsl.primitives_logprob@, request, ctx, n),
        ),
    decreases n,
{
    if n > 0 {
        lemma_primitive_candidates_typed(dsl, env, request, ctx, (n - 1) as nat);
        let tp = dsl.primitive_types()[n - 1];
        assert(tp.ground());
        lemma_admitted_ground(tp, true, request, ctx);
    }
}

/// The candidates among the first `n` inventions are well typed.
proof fn lemma_invented_candidates_typed(
    dsl: Language,
    env: Seq<TypeTerm>,
    request: TypeTerm,
    ctx: ContextState,
    n: nat,
)
    requires
        dsl.monomorphic(),
        request.ground(),
        n <= dsl.invented.len(),
    ensures
        well_typed(
            dsl,
            env,
            request,
            invented_candidates(dsl.invented_types(), dsl.invented_logprob@, request, ctx, n),
        ),
    decreases n,
{
    if n > 0 {
        lemma_invented_candidates_typed(dsl, env, request, ctx, (n - 1) as nat);
        let tp = dsl.invented_types()[n - 1];
        assert(tp.ground());
        lemma_admitted_ground(tp, true, request, ctx);
    }
}

/// The candidates among the `n` nearest bound variables are well typed.
proof fn lemma_variable_candidates_typed(
    dsl: Language,
    env: Seq<TypeTerm>,
    request: TypeTerm,
    ctx: ContextState,
    n: nat,
)
    requires
        all_ground(env),
        request.ground(),
        n <= env.len() <= usize::MAX,
    ensures
        well_typed(
            dsl,
            env,
            request,
            variable_candidates(reversed(env), dsl.variable_logprob, request, ctx, n),
        ),
    decreases n,
{
    if n > 0 {
        lemma_variable_candidates_typed(dsl, env, request, ctx, (n - 1) as nat);
        let tp = reversed(env)[n - 1];
        assert(tp == env[env.len() - 1 - (n - 1)]);
        assert(tp.ground());
        lemma_admitted_ground(tp, false, request, ctx);
    }
}

/// Every candidate of a language without type variables, for a request
/// without variables under binders without variables, is well typed.
pub proof fn lemma_candidates_typed(
    dsl: Language,
    env: Seq<TypeTerm>,
    request: TypeTerm,
    ctx: ContextState,
)
    requires
        dsl.monomorphic(),
        all_ground(env),
        env.len() <= usize::MAX,
        request.ground(),
    ensures
        well_typed(dsl, env, request, dsl.candidates_for(request, ctx, reversed(env))),
{
    lemma_primitive_candidates_typed(dsl, env, request, ctx, dsl.weighted_primitives());
    lemma_invented_candidates_typed(dsl, env, request, ctx, dsl.weighted_inventions());
    lemma_variable_candidates_typed(dsl, env, request, ctx, env.len());
    let primitives = primitive_candidates(
        dsl.primitive_types(),
        dsl.primitives_logprob@,
        request,
        ctx,
        dsl.weighted_primitives(),
    );
    let inventions = invented_candidates(
        dsl.invented_types(),
        dsl.invented_logprob@,
        request,
        ctx,
        dsl.weighted_inventions(),
    );
    let variables = variable_candidates(
        reversed(env),
        dsl.variable_logprob,
        request,
        ctx,
        reversed(env).len(),
    );
    let all = dsl.candidates_for(request, ctx, reversed(env));
    assert forall|i: int| 0 <= i < all.len() implies {
        &&& (#[trigger] all[i]).tp.ground()
        &&& all[i].tp.result_type() == request
        &&& dsl.synthesized(env, all[i].head) == Some(all[i].tp)
    } by {
        if i < primitives.len() {
            assert(all[i] == primitives[i]);
        } else if i < primitives.len() + inventions.len() {
            assert(all[i] == inventions[i - primitives.len()]);
        } else {
            assert(all[i] == variables[i - primitives.len() - inventions.len()]);
        }
    }
}

/// An expression with a type from its head, inside abstractions, is that
/// many abstractions more around such an expression.
pub proof fn lemma_abstracted_checks(
    dsl: Language,
    env: Seq<TypeTerm>,
    expr: Expression,
    t: TypeTerm,
    k: nat,
    n: nat,
)
    requires
        dsl.checks_inside(env, k, expr, t),
    ensures
        dsl.checks_inside(env, k + n, abstracted(expr, n), t),
    decreases n,
{
    if n > 0 {
        let wrapped = Expression::Abstraction(Box::new(expr));
        assert(dsl.checks_inside(env, k + 1, wrapped, t));
        lemma_abstracted_checks(dsl, env, wrapped, t, k + 1, (n - 1) as nat);
    }
}

/// An expression that is, under the binders that a requested type comes
/// down to, as many abstractions as the request has arguments around a
/// body of the request's result type has the requested type.
pub proof fn lemma_curried_checks(
    dsl: Language,
    request: TypeTerm,
    env: Seq<TypeTerm>,
    expr: Expression,
)
    requires
        dsl.checks_inside(
            curried(request, env).1,
            (curried(request, env).1.len() - env.len()) as nat,
            expr,
            curried(request, env).0,
        ),
    ensures
        dsl.checks(env, expr, request),
        curried(request, env).1.len() >= env.len(),
    decreases request,
{
    match request {
        TypeTerm::Arrow(arg, ret) => {
            lemma_curried_grows(*ret, env.push(*arg));
            let inner = curried(*ret, env.push(*arg)).1;
            let body = expr->Abstraction_0;
            assert(dsl.checks_inside(inner, (inner.len() - env.len() - 1) as nat, *body, curried(
                request,
                env,
            ).0));
            lemma_curried_checks(dsl, *ret, env.push(*arg), *body);
        },
        _ => {},
    }
}

/// What a requested type without variables comes down to holds no
/// variables: neither the binders nor the result.
pub proof fn lemma_curried_ground(request: TypeTerm, env: Seq<TypeTerm>)
    requires
        request.ground(),
        all_ground(env),
    ensures
        curried(request, env).0.ground(),
        all_ground(curried(request, env).1),
        !(curried(request, env).0 is Arrow),
    decreases request,
{
    match request {
        TypeTerm::Arrow(arg, ret) => {
            let longer = env.push(*arg);
            assert forall|i: int| 0 <= i < longer.len() implies (#[trigger] longer[i]).ground() by {
                if i < env.len() {
                    assert(longer[i] == env[i]);
                }
            }
            lemma_curried_ground(*ret, longer);
        },
        _ => {},
    }
}

/// What fills a place has the type asked for at the place.
pub proof fn lemma_fills_typed(
    dsl: Language,
    weigh: Weigher,
    hi: nat,
    hole: HoleModel,
    ctx: ContextState,
    spent: nat,
)
    requires
        dsl.monomorphic(),
        hole.request.ground(),
        all_ground(hole.env),
    ensures
        forall|i: int|
            0 <= i < fills(dsl, weigh, hi, hole, ctx, spent).len() ==> dsl.checks(
                hole.env,
                (#[trigger] fills(dsl, weigh, hi, hole, ctx, spent)[i]).expr,
                hole.request,
            ),
    decreases hole.room, 1nat, hole.request, 0nat,
{
    let (request, env) = curried(hole.request, hole.env);
    let found = dsl.candidates_for(request, ctx, reversed(env));
    if !(spent >= hi || hole.room == 0 || env.len() > usize::MAX || found.len() == 0) {
        lemma_curried_ground(hole.request, hole.env);
        lemma_curried_grows(hole.request, hole.env);
        lemma_candidates_typed(dsl, env, request, ctx);
        let opened = HoleModel {
            request,
            env,
            lambdas: (env.len() - hole.env.len()) as nat,
            room: (hole.room - 1) as nat,
        };
        lemma_picks_typed(dsl, weigh, hi, found, weigh(weights_of(found)), opened, spent, 0);
        let all = fills(dsl, weigh, hi, hole, ctx, spent);
        assert forall|i: int| 0 <= i < all.len() implies dsl.checks(
            hole.env,
            (#[trigger] all[i]).expr,
            hole.request,
        ) by {
            lemma_curried_checks(dsl, hole.request, hole.env, all[i].expr);
        }
    }
}

/// What fills a place with one of the heads is the place's abstractions
/// around a body of the type asked for.
pub proof fn lemma_picks_typed(
    dsl: Language,
    weigh: Weigher,
    hi: nat,
    candidates: Seq<CandidateModel>,
    costs: Seq<u64>,
    hole: HoleModel,
    spent: nat,
    i: nat,
)
    requires
        dsl.monomorphic(),
        all_ground(hole.env),
        hole.request.ground(),
        !(hole.request is Arrow),
        well_typed(dsl, hole.env, hole.request, candidates),
    ensures
        forall|k: int|
            0 <= k < picks(dsl, weigh, hi, candidates, costs, hole, spent, i).len()
                ==> dsl.checks_inside(
                hole.env,
                hole.lambdas,
                (#[trigger] picks(dsl, weigh, hi, candidates, costs, hole, spent, i)[k]).expr,
                hole.request,
            ),
    decreases hole.room, 3nat, hole.request, candidates.len() - i,
{
    if !(i >= candidates.len() || i >= costs.len()) {
        lemma_picks_typed(dsl, weigh, hi, candidates, costs, hole, spent, i + 1);
        if spent + costs[i as int] < hi {
            let frame = FrameModel {
                f: candidates[i as int].head,
                pending: candidates[i as int].tp,
                env: hole.env,
                lambdas: hole.lambdas,
                room: hole.room,
            };
            assert(candidates[i as int].tp.result_type() == hole.request);
            lemma_completes_typed(
                dsl,
                weigh,
                hi,
                frame,
                candidates[i as int].ctx,
                spent + costs[i as int] as nat,
            );
        }
    }
}

/// What an application becomes is its abstractions around a body of the
/// type that the application gives in the end.
pub proof fn lemma_completes_typed(
    dsl: Language,
    weigh: Weigher,
    hi: nat,
    frame: FrameModel,
    ctx: ContextState,
    spent: nat,
)
    requires
        dsl.monomorphic(),
        all_ground(frame.env),
        frame.pending.ground(),
        dsl.synthesized(frame.env, frame.f) == Some(frame.pending),
    ensures
        forall|k: int|
            0 <= k < completes(dsl, weigh, hi, frame, ctx, spent).len() ==> dsl.checks_inside(
                frame.env,
                frame.lambdas,
                (#[trigger] completes(dsl, weigh, hi, frame, ctx, spent)[k]).expr,
                frame.pending.result_type(),
            ),
    decreases frame.room, 2nat, frame.pending, 0nat,
{
    match frame.pending {
        TypeTerm::Arrow(arg, ret) => {
            lemma_ground_stays(*arg, ctx.bindings, Seq::empty(), 0);
            let hole = HoleModel {
                request: ctx.apply(*arg),
                env: frame.env,
                lambdas: 0,
                room: frame.room,
            };
            assert(hole.request == *arg);
            lemma_fills_typed(dsl, weigh, hi, hole, ctx, spent);
            lemma_extends_typed(
                dsl,
                weigh,
                hi,
                FrameModel { pending: *ret, ..frame },
                *arg,
                fills(dsl, weigh, hi, hole, ctx, spent),
                0,
            );
        },
        _ => {
            lemma_abstracted_checks(dsl, frame.env, frame.f, frame.pending, 0, frame.lambdas);
        },
    }
}

/// What an application becomes with one of the arguments is its
/// abstractions around a body of the type that the application gives in the
/// end.
pub proof fn lemma_extends_typed(
    dsl: Language,
    weigh: Weigher,
    hi: nat,
    frame: FrameModel,
    taken: TypeTerm,
    arguments: Seq<Found>,
    j: nat,
)
    requires
        dsl.monomorphic(),
        all_ground(frame.env),
        frame.pending.ground(),
        dsl.synthesized(frame.env, frame.f) == Some(
            TypeTerm::Arrow(Box::new(taken), Box::new(frame.pending)),
        ),
        forall|k: int|
            0 <= k < arguments.len() ==> dsl.checks(frame.env, (#[trigger] arguments[k]).expr, taken),
    ensures
        forall|k: int|
            0 <= k < extends(dsl, weigh, hi, frame, arguments, j).len() ==> dsl.checks_inside(
                frame.env,
                frame.lambdas,
                (#[trigger] extends(dsl, weigh, hi, frame, arguments, j)[k]).expr,
                frame.pending.result_type(),
            ),
    decreases frame.room, 2nat, frame.pending, 1 + arguments.len() - j,
{
    if j < arguments.len() {
        lemma_extends_typed(dsl, weigh, hi, frame, taken, arguments, j + 1);
        assert(dsl.checks(frame.env, arguments[j as int].expr, taken));
        lemma_completes_typed(
            dsl,
            weigh,
            hi,
            applied_to(frame, arguments[j as int].expr),
            arguments[j as int].ctx,
            arguments[j as int].spent,
        );
    }
}

/// In a language whose registered types hold no variables, every
/// expression that a search gives out for a type without variables has that
/// type: each head in it has a registered type or the type of its binder,
/// and each argument has the type that its function takes.
pub proof fn law_enumerated_simply_typed(
    dsl: Language,
    weigh: Weigher,
    request: TypeTerm,
    lo: nat,
    hi: nat,
    i: int,
)
    requires
        dsl.monomorphic(),
        request.ground(),
        0 <= i < enumeration(dsl, weigh, request, lo, hi).len(),
    ensures
        dsl.checks(Seq::empty(), enumeration(dsl, weigh, request, lo, hi)[i].0, request),
{
    let top = fills(dsl, weigh, hi, outermost(request), ContextState::empty(), 0);
    lemma_within_members(lo, hi, top, i);
    lemma_fills_typed(dsl, weigh, hi, outermost(request), ContextState::empty(), 0);
    let j = choose|j: int|
        0 <= j < top.len() && (#[trigger] top[j]).expr == within(lo, hi, top)[i].0 && top[j].spent
            == within(lo, hi, top)[i].1;
    assert(dsl.checks(outermost(request).env, top[j].expr, request));
}

} // verus!
