use programinduction::lambda::enumerator::{Action, Mode, Search, Weight, WINDOW};
use programinduction::lambda::engine::TypeContext;
use programinduction::lambda::windows::{Enumerator, LAST_WINDOW};
use programinduction::lambda::{Expression, Language, Type};

fn tp(name: &'static str) -> Type {
    Type::Constructed(name, vec![])
}

fn arrow(tps: Vec<Type>) -> Type {
    let mut tps = tps;
    let mut out = tps.pop().unwrap();
    while let Some(arg) = tps.pop() {
        out = Type::Arrow(Box::new(arg), Box::new(out));
    }
    out
}

/// The cost of each head: the bound variables share their log-probability,
/// and the whole is normalised.
fn costs_of(weights: &[Weight]) -> Vec<u64> {
    let variables = weights.iter().filter(|w| w.variable).count() as f64;
    let raw: Vec<f64> = weights
        .iter()
        .map(|w| {
            let p = w.logprob as f64 / 1e6;
            if w.variable {
                p - variables.ln()
            } else {
                p
            }
        })
        .collect();
    let largest = raw.iter().cloned().fold(f64::NEG_INFINITY, f64::max);
    let z = largest + raw.iter().map(|p| (p - largest).exp()).sum::<f64>().ln();
    raw.iter().map(|p| ((z - p) * 1e6).round() as u64).collect()
}

/// The expressions of one window with their costs.
fn window(dsl: &Language, request: &Type, number: u64) -> Vec<(Expression, u64)> {
    let mut search = Search::new(request.clone(), number);
    let mut out = Vec::new();
    let mut costs = None;
    loop {
        match search.step(dsl, costs.take()) {
            Action::Continue => {}
            Action::Weigh(weights) => costs = Some(costs_of(&weights)),
            Action::Yield(expr, cost) => out.push((expr, cost)),
            Action::Exhausted => return out,
        }
    }
}

fn enumerate(dsl: &Language, request: &Type, n: usize) -> Vec<Expression> {
    let mut enumerator = Enumerator::new(request.clone());
    let mut out = Vec::new();
    let mut costs = None;
    while out.len() < n {
        match enumerator.step(dsl, costs.take()) {
            Action::Continue => {}
            Action::Weigh(weights) => costs = Some(costs_of(&weights)),
            Action::Yield(expr, _) => out.push(expr),
            Action::Exhausted => break,
        }
    }
    out
}

fn arithmetic() -> Language {
    Language::uniform(
        vec![
            (String::from("0"), tp("int")),
            (String::from("1"), tp("int")),
            (String::from("+"), arrow(vec![tp("int"), tp("int"), tp("int")])),
        ],
        vec![],
    )
}

#[test]
fn enumerate_orders_by_window() {
    let dsl = arithmetic();
    let exprs = enumerate(&dsl, &tp("int"), 6);
    let expected: Vec<Expression> = ["0", "1", "(+ 0 0)", "(+ 0 1)", "(+ 1 0)", "(+ 1 1)"]
        .iter()
        .map(|text| dsl.parse(text).unwrap())
        .collect();
    assert_eq!(exprs, expected);
}

#[test]
fn enumerate_goes_on_into_nested_applications() {
    let dsl = Language::uniform(
        vec![
            (String::from("0"), tp("int")),
            (String::from("1"), tp("int")),
            (String::from("+"), arrow(vec![tp("int"), tp("int"), tp("int")])),
            (String::from(">"), arrow(vec![tp("int"), tp("int"), tp("bool")])),
        ],
        vec![],
    );
    let exprs = enumerate(&dsl, &tp("int"), 8);
    let expected: Vec<Expression> = [
        "0",
        "1",
        "(+ 0 0)",
        "(+ 0 1)",
        "(+ 1 0)",
        "(+ 1 1)",
        "(+ 0 (+ 0 0))",
        "(+ 0 (+ 0 1))",
    ]
        .iter()
        .map(|text| dsl.parse(text).unwrap())
        .collect();
    assert_eq!(exprs, expected);
}

#[test]
fn enumerate_yields_within_the_window() {
    let dsl = arithmetic();
    for number in 0..6 {
        for (expr, cost) in window(&dsl, &tp("int"), number) {
            assert!(number * WINDOW <= cost && cost < (number + 1) * WINDOW);
            // three heads are admitted at every place: each costs ln 3
            let heads = dsl.stringify(&expr).split(|c| c == ' ').count() as u64;
            assert_eq!(cost, heads * 1_098_612);
        }
    }
    assert!(window(&dsl, &tp("int"), 0).is_empty());
    assert_eq!(window(&dsl, &tp("int"), 1).len(), 2);
    assert!(window(&dsl, &tp("int"), 2).is_empty());
    assert_eq!(window(&dsl, &tp("int"), 3).len(), 4);
}

#[test]
fn enumerate_yields_what_types_and_round_trips() {
    let dsl = Language::uniform(
        vec![
            (String::from("0"), tp("int")),
            (String::from("+"), arrow(vec![tp("int"), tp("int"), tp("int")])),
            (String::from("true"), tp("bool")),
            (String::from("if"), arrow(vec![tp("bool"), Type::Variable(0), Type::Variable(0), Type::Variable(0)])),
        ],
        vec![],
    );
    let request = arrow(vec![tp("int"), tp("int")]);
    let ill_typed = dsl.parse("(λ (+ true 0))").unwrap();
    let exprs = enumerate(&dsl, &request, 40);
    assert_eq!(exprs.len(), 40);
    for expr in &exprs {
        assert_eq!(dsl.parse(&dsl.stringify(expr)), Ok(expr.clone()));
        let inferred = dsl.infer(expr).unwrap();
        let mut ctx = TypeContext::new();
        let inferred = ctx.instantiate(&inferred).unwrap();
        assert_eq!(ctx.unify(&inferred, &request), Ok(()));
        assert!(*expr != ill_typed);
    }
    assert!(exprs.contains(&dsl.parse("(λ $0)").unwrap()));
    assert!(exprs.contains(&dsl.parse("(λ (+ $0 0))").unwrap()));
}

#[test]
fn enumerate_curries_all_arguments_first() {
    let dsl = arithmetic();
    let request = arrow(vec![tp("int"), tp("int"), tp("int")]);
    let exprs = enumerate(&dsl, &request, 5);
    for expr in &exprs {
        match expr {
            Expression::Abstraction(inner) => match **inner {
                Expression::Abstraction(_) => {}
                _ => panic!("one abstraction only"),
            },
            _ => panic!("no abstraction"),
        }
    }
    // five heads are admitted: 0, 1, + and the two variables, which share one part in four
    assert_eq!(exprs[0], dsl.parse("(λ (λ 0))").unwrap());
    assert_eq!(exprs[1], dsl.parse("(λ (λ 1))").unwrap());
}

#[test]
fn enumerate_finds_nothing_for_an_unknown_type() {
    let dsl = arithmetic();
    let mut search = Search::new(tp("bool"), 3);
    assert_eq!(search.mode(), Mode::Open);
    assert_eq!(search.step(&dsl, None), Action::Continue);
    assert_eq!(search.step(&dsl, None), Action::Exhausted);
    assert_eq!(search.mode(), Mode::Done);
    assert_eq!(search.step(&dsl, None), Action::Exhausted);
}

#[test]
fn step_asks_again_until_every_head_has_a_cost() {
    let dsl = arithmetic();
    let mut search = Search::new(tp("int"), 1);
    let asked = search.step(&dsl, None);
    let weights = vec![Weight { logprob: 0, variable: false }; 3];
    assert_eq!(asked, Action::Weigh(weights.clone()));
    assert_eq!(search.step(&dsl, None), Action::Weigh(weights.clone()));
    assert_eq!(search.step(&dsl, Some(vec![1, 2])), Action::Weigh(weights.clone()));
    assert_eq!(search.step(&dsl, Some(vec![1_500_000, 2_500_000, 1_000_000])), Action::Continue);
    // the first head lies in the window
    assert_eq!(search.step(&dsl, None), Action::Continue);
    assert_eq!(search.step(&dsl, None), Action::Yield(Expression::Primitive(0), 1_500_000));
}

#[test]
fn enumerator_goes_from_window_to_window() {
    let dsl = arithmetic();
    let mut enumerator = Enumerator::new(tp("int"));
    assert_eq!(enumerator.window(), 0);
    let mut costs = None;
    let mut seen = Vec::new();
    let mut windows = vec![0];
    while seen.len() < 6 {
        match enumerator.step(&dsl, costs.take()) {
            Action::Continue => {}
            Action::Weigh(weights) => costs = Some(costs_of(&weights)),
            Action::Yield(expr, cost) => {
                assert!(enumerator.window() * WINDOW <= cost && cost < (enumerator.window() + 1) * WINDOW);
                seen.push((enumerator.window(), dsl.stringify(&expr)));
            }
            Action::Exhausted => panic!("the enumeration does not end here"),
        }
        if *windows.last().unwrap() != enumerator.window() {
            assert_eq!(enumerator.window(), windows.last().unwrap() + 1);
            windows.push(enumerator.window());
        }
    }
    let expected: Vec<(u64, String)> = [(1, "0"), (1, "1"), (3, "(+ 0 0)"), (3, "(+ 0 1)"), (3, "(+ 1 0)"), (3, "(+ 1 1)")]
        .iter()
        .map(|(w, text)| (*w, text.to_string()))
        .collect();
    assert_eq!(seen, expected);
    assert_eq!(windows, vec![0, 1, 2, 3]);
    assert!(LAST_WINDOW > 3);
}

#[test]
fn enumerator_ends_where_nothing_fits() {
    let dsl = arithmetic();
    let mut enumerator = Enumerator::new(tp("bool"));
    assert_eq!(enumerator.step(&dsl, None), Action::Exhausted);
    assert_eq!(enumerator.step(&dsl, None), Action::Exhausted);
    assert_eq!(enumerator.window(), 0);
    assert!(enumerate(&dsl, &tp("bool"), 3).is_empty());
    // a function of a type that nothing fits has no body
    assert!(enumerate(&dsl, &arrow(vec![tp("int"), tp("bool")]), 3).is_empty());
}

/// What the enumeration gives out within the given number of steps.
fn within_steps(dsl: &Language, request: &Type, steps: usize) -> Vec<Expression> {
    let mut enumerator = Enumerator::new(request.clone());
    let mut out = Vec::new();
    let mut costs = None;
    for _ in 0..steps {
        match enumerator.step(dsl, costs.take()) {
            Action::Continue => {}
            Action::Weigh(weights) => costs = Some(costs_of(&weights)),
            Action::Yield(expr, _) => out.push(expr),
            Action::Exhausted => break,
        }
    }
    out
}

/// Whether some application in the expression has the given argument.
fn applies_to(expr: &Expression, argument: &Expression) -> bool {
    match expr {
        Expression::Application(f, x) => **x == *argument || applies_to(f, argument) || applies_to(x, argument),
        Expression::Abstraction(body) => applies_to(body, argument),
        _ => false,
    }
}

#[test]
fn enumerate_never_fills_an_argument_with_another_type() {
    let dsl = Language::uniform(
        vec![
            (String::from("+"), arrow(vec![tp("int"), tp("int"), tp("int")])),
            (String::from("0"), tp("int")),
            (String::from("t"), tp("bool")),
        ],
        vec![],
    );
    for request in [tp("int"), arrow(vec![tp("bool"), tp("int")]), arrow(vec![tp("int"), tp("bool")])] {
        let exprs = within_steps(&dsl, &request, 20_000);
        assert!(!exprs.is_empty());
        for expr in &exprs {
            // `+` is the only function: nothing takes the boolean `t`
            assert!(!applies_to(expr, &Expression::Primitive(2)), "{}", dsl.stringify(expr));
            let inferred = dsl.infer(expr).unwrap();
            let mut ctx = TypeContext::new();
            let inferred = ctx.instantiate(&inferred).unwrap();
            assert_eq!(ctx.unify(&inferred, &request), Ok(()));
        }
    }
    // the only boolean is `t`
    assert_eq!(within_steps(&dsl, &tp("bool"), 2_000), vec![Expression::Primitive(2)]);
}
