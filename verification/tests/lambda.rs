use programinduction::lambda::{Expression, InferenceError, Language, ParseError, Type, UnificationError};

fn tp(name: &'static str) -> Type {
    Type::Constructed(name, vec![])
}

fn arrow(tps: Vec<Type>) -> Type {
    let mut tps = tps;
    let mut out = tps.pop().unwrap();
    while let Some(arg) = tps.pop() {
        out = Type::Arrow(Box::new(arg), Box::new(out));
    }
    out
}

fn app(f: Expression, x: Expression) -> Expression {
    Expression::Application(Box::new(f), Box::new(x))
}

fn arithmetic() -> Language {
    Language::uniform(
        vec![
            (String::from("0"), tp("int")),
            (String::from("1"), tp("int")),
            (String::from("+"), arrow(vec![tp("int"), tp("int"), tp("int")])),
        ],
        vec![],
    )
}

#[test]
fn parse_reads_an_abstraction_over_an_application() {
    let dsl = Language::uniform(
        vec![
            (String::from("+"), arrow(vec![tp("int"), tp("int"), tp("int")])),
            (String::from("1"), tp("int")),
        ],
        vec![],
    );
    let expected = Expression::Abstraction(Box::new(app(
        app(Expression::Primitive(0), Expression::Index(0)),
        Expression::Primitive(1),
    )));
    assert_eq!(dsl.parse("(λ (+ $0 1))"), Ok(expected.clone()));
    assert_eq!(dsl.parse("(lambda (+ $0 1))"), Ok(expected.clone()));
    assert_eq!(dsl.parse("  (λ   (+   $0   1))  "), Ok(expected.clone()));
    assert_eq!(dsl.stringify(&expected), "(λ (+ $0 1))");
}

#[test]
fn stringify_round_trips_with_parse() {
    let dsl = Language::uniform(
        vec![(String::from("+"), arrow(vec![tp("int"), tp("int"), tp("int")]))],
        vec![],
    );
    let expr = Expression::Abstraction(Box::new(app(Expression::Primitive(0), Expression::Index(0))));
    assert_eq!(dsl.stringify(&expr), "(λ (+ $0))");
    assert_eq!(dsl.parse(&dsl.stringify(&expr)), Ok(expr));
}

#[test]
fn parse_reports_where_and_why_it_stopped() {
    let dsl = arithmetic();
    assert_eq!(dsl.parse("(+ 0 1) 1"), Err(ParseError(7, "expected end of expression, found more tokens")));
    assert_eq!(dsl.parse("(+ 0 2)"), Err(ParseError(6, "unexpected end of expression")));
    assert_eq!(dsl.parse("(+ 0 1"), Err(ParseError(6, "incomplete application")));
    assert_eq!(dsl.parse("(λ 0 1)"), Err(ParseError(5, "incomplete application")));
    assert_eq!(dsl.parse("#(+ 0 1)"), Err(ParseError(8, "invented expr is unfamiliar to context")));
    assert_eq!(dsl.parse(""), Err(ParseError(0, "could not parse any expression variant")));
    assert_eq!(dsl.parse("  )"), Err(ParseError(2, "could not parse any expression variant")));
    assert_eq!(dsl.parse("(0)"), Err(ParseError(2, "application without an argument")));
    assert_eq!(dsl.parse("((+ 0 1))"), Err(ParseError(8, "application without an argument")));
    assert_eq!(dsl.parse("$x"), Err(ParseError(2, "unexpected end of expression")));
}

#[test]
fn parse_counts_bytes_not_characters() {
    let dsl = arithmetic();
    // λ takes two bytes, so the name `2` ends at byte 8, after 7 characters
    assert_eq!(dsl.parse("(λ (+ 2 $0))"), Err(ParseError(8, "unexpected end of expression")));
}

#[test]
fn parse_reads_numbers_as_usize_does() {
    let dsl = arithmetic();
    assert_eq!(dsl.parse("(λ $007)"), Ok(Expression::Abstraction(Box::new(Expression::Index(7)))));
    assert_eq!(dsl.parse("(λ $+3)"), Ok(Expression::Abstraction(Box::new(Expression::Index(3)))));
    assert_eq!(
        dsl.parse("(λ $99999999999999999999999999)"),
        Err(ParseError(31, "unexpected end of expression"))
    );
}

#[test]
fn infer_types_a_nested_expression() {
    let dsl = Language::uniform(
        vec![
            (
                String::from("singleton"),
                arrow(vec![Type::Variable(0), Type::Constructed("list", vec![Type::Variable(0)])]),
            ),
            (String::from(">="), arrow(vec![tp("int"), tp("int"), tp("bool")])),
            (String::from("+"), arrow(vec![tp("int"), tp("int"), tp("int")])),
            (String::from("0"), tp("int")),
            (String::from("1"), tp("int")),
        ],
        vec![(
            app(Expression::Primitive(2), Expression::Primitive(4)),
            arrow(vec![tp("int"), tp("int")]),
        )],
    );
    let expr = dsl.parse("(singleton ((λ (>= $0 1)) (#(+ 1) 0)))").unwrap();
    assert_eq!(dsl.infer(&expr), Ok(Type::Constructed("list", vec![tp("bool")])));
}

#[test]
fn invent_registers_and_strip_invented_expands() {
    let mut dsl = Language::uniform(
        vec![
            (String::from("+"), arrow(vec![tp("int"), tp("int"), tp("int")])),
            (String::from("1"), tp("int")),
        ],
        vec![],
    );
    let body = dsl.parse("(λ (+ $0 1))").unwrap();
    assert_eq!(dsl.invent(body.clone()), Ok(0));
    assert_eq!(dsl.invented.len(), 1);
    assert_eq!(dsl.invented_logprob, vec![0]);
    assert_eq!(dsl.infer(&Expression::Invented(0)), Ok(arrow(vec![tp("int"), tp("int")])));
    assert_eq!(dsl.strip_invented(&Expression::Invented(0)), body);
    assert_eq!(dsl.stringify(&Expression::Invented(0)), "#(λ (+ $0 1))");
    assert_eq!(dsl.parse("#(λ (+ $0 1))"), Ok(Expression::Invented(0)));
}

#[test]
fn invent_keeps_earlier_inventions() {
    let mut dsl = arithmetic();
    let first = dsl.parse("(+ 1)").unwrap();
    assert_eq!(dsl.invent(first.clone()), Ok(0));
    let second = dsl.parse("(λ (#(+ 1) (#(+ 1) $0)))").unwrap();
    assert_eq!(dsl.invent(second.clone()), Ok(1));
    assert_eq!(dsl.invented.len(), 2);
    assert_eq!(dsl.invented[0].0, first);
    assert_eq!(dsl.invented[0].1, arrow(vec![tp("int"), tp("int")]));
    assert_eq!(dsl.invented[1].0, second);
    let stripped = dsl.strip_invented(&Expression::Invented(1));
    assert_eq!(stripped, dsl.parse("(λ ((+ 1) ((+ 1) $0)))").unwrap());
    assert_eq!(dsl.strip_invented(&stripped), stripped);
}

#[test]
fn invent_refuses_what_has_no_type() {
    let mut dsl = arithmetic();
    // an invention cannot refer to itself
    let r = dsl.invent(Expression::Invented(0));
    assert_eq!(r, Err(InferenceError::BadExpression(String::from("invention does not exist: 0"))));
    assert_eq!(dsl.invented.len(), 0);
    assert_eq!(
        dsl.infer(&Expression::Primitive(12)),
        Err(InferenceError::BadExpression(String::from("primitive does not exist: 12")))
    );
}

#[test]
fn infer_fails_where_types_do_not_unify() {
    let dsl = Language::uniform(
        vec![
            (String::from("+"), arrow(vec![tp("int"), tp("int"), tp("int")])),
            (String::from("true"), tp("bool")),
        ],
        vec![],
    );
    let expr = app(Expression::Primitive(0), Expression::Primitive(1));
    assert_eq!(
        dsl.infer(&expr),
        Err(InferenceError::Unify(UnificationError::Failure(tp("int"), tp("bool"))))
    );
}

#[test]
fn infer_gives_each_free_index_one_variable() {
    let dsl = arithmetic();
    // $0 is free and used twice as an int
    let expr = app(app(Expression::Primitive(2), Expression::Index(0)), Expression::Index(0));
    assert_eq!(dsl.infer(&expr), Ok(tp("int")));
    // under one abstraction, $1 is the free index 0
    let expr = Expression::Abstraction(Box::new(Expression::Index(1)));
    assert_eq!(
        dsl.infer(&expr),
        Ok(arrow(vec![Type::Variable(0), Type::Variable(1)]))
    );
}

#[test]
fn uniform_sets_every_log_probability_to_zero() {
    let dsl = arithmetic();
    assert_eq!(dsl.variable_logprob, 0);
    assert_eq!(dsl.primitives_logprob, vec![0, 0, 0]);
    assert_eq!(dsl.invented_logprob, Vec::<i64>::new());
    assert_eq!(dsl.primitive(2).map(|p| (p.0, p.2)), Some(("+", 0)));
    assert_eq!(dsl.primitive(1).map(|p| p.1.clone()), Some(tp("int")));
    assert!(dsl.primitive(3).is_none());
    assert!(dsl.invented(0).is_none());
}

#[test]
fn parse_takes_any_white_space_between_items() {
    let dsl = arithmetic();
    let expected = app(app(Expression::Primitive(2), Expression::Primitive(0)), Expression::Primitive(1));
    assert_eq!(dsl.parse("(+\t0\n1)"), Ok(expected.clone()));
    assert_eq!(dsl.parse("\u{a0}(+ 0\u{2003}1)\u{3000}"), Ok(expected.clone()));
    // a name ends at white space of any kind
    assert_eq!(dsl.parse("(+ 0\u{a0}2)"), Err(ParseError(7, "unexpected end of expression")));
}

#[test]
fn parse_applies_from_the_left() {
    let dsl = arithmetic();
    let nested = dsl.parse("((+ 0) 1)").unwrap();
    let flat = dsl.parse("(+ 0 1)").unwrap();
    assert_eq!(nested, flat);
    assert_eq!(dsl.stringify(&nested), "(+ 0 1)");
    let right = dsl.parse("(+ (+ 0 1))").unwrap();
    assert_eq!(
        right,
        app(
            Expression::Primitive(2),
            app(app(Expression::Primitive(2), Expression::Primitive(0)), Expression::Primitive(1))
        )
    );
    assert_eq!(dsl.stringify(&right), "(+ (+ 0 1))");
}

#[test]
fn stringify_writes_large_indices_in_decimal() {
    let dsl = arithmetic();
    let expr = Expression::Abstraction(Box::new(Expression::Index(1234567890)));
    assert_eq!(dsl.stringify(&expr), "(λ $1234567890)");
    assert_eq!(dsl.parse("(λ $1234567890)"), Ok(expr));
    assert_eq!(dsl.stringify(&Expression::Index(0)), "$0");
}

#[test]
fn is_grounded_and_has_tell_what_can_be_written() {
    let mut dsl = arithmetic();
    assert!(dsl.is_grounded());
    assert!(dsl.has(&Expression::Primitive(2)));
    assert!(!dsl.has(&Expression::Primitive(3)));
    assert!(!dsl.has(&Expression::Invented(0)));
    // an invention that refers to itself is not grounded
    dsl.invented.push((Expression::Invented(0), tp("int")));
    dsl.invented_logprob.push(0);
    assert!(!dsl.is_grounded());
    assert!(dsl.has(&Expression::Invented(0)));
}

#[test]
fn same_and_duplicate_agree_with_equality() {
    let dsl = arithmetic();
    let a = dsl.parse("(λ (+ $0 (+ 1 0)))").unwrap();
    let b = dsl.parse("(λ (+ $0 (+ 1 1)))").unwrap();
    assert!(a.same(&a.duplicate()));
    assert!(!a.same(&b));
    assert_eq!(a.clone(), a);
}

#[test]
fn check_accepts_nothing() {
    let dsl = arithmetic();
    let evaluator = |_name: &str, inps: &Vec<i32>| inps.iter().sum();
    assert!(!dsl.check(&Expression::Primitive(0), &evaluator, &vec![], &0));
}

#[test]
fn infer_reports_a_variable_that_would_contain_itself() {
    let dsl = arithmetic();
    // applying a variable to itself: its type would be a function of itself
    let expr = Expression::Abstraction(Box::new(app(Expression::Index(0), Expression::Index(0))));
    assert_eq!(dsl.infer(&expr), Err(InferenceError::Unify(UnificationError::Occurs(0))));
}

#[test]
fn infer_instantiates_each_use_on_its_own() {
    let dsl = Language::uniform(
        vec![
            (String::from("id"), arrow(vec![Type::Variable(0), Type::Variable(0)])),
            (String::from("0"), tp("int")),
            (String::from("true"), tp("bool")),
            (
                String::from("pair"),
                arrow(vec![
                    Type::Variable(0),
                    Type::Variable(1),
                    Type::Constructed("pair", vec![Type::Variable(0), Type::Variable(1)]),
                ]),
            ),
        ],
        vec![],
    );
    let expr = dsl.parse("(pair (id 0) (id true))").unwrap();
    assert_eq!(
        dsl.infer(&expr),
        Ok(Type::Constructed("pair", vec![tp("int"), tp("bool")]))
    );
}

#[test]
fn parse_reads_an_index_wherever_it_ends() {
    let dsl = Language::uniform(vec![], vec![]);
    assert_eq!(dsl.parse("$0"), Ok(Expression::Index(0)));
    assert_eq!(dsl.parse("  $12  "), Ok(Expression::Index(12)));
    assert_eq!(dsl.parse("(λ $0)"), Ok(Expression::Abstraction(Box::new(Expression::Index(0)))));
    assert_eq!(dsl.parse("($1 $0)"), Ok(app(Expression::Index(1), Expression::Index(0))));
    assert_eq!(dsl.stringify(&Expression::Index(7)), "$7");
    assert_eq!(dsl.parse(&dsl.stringify(&Expression::Index(7))), Ok(Expression::Index(7)));
    assert_eq!(dsl.parse("$"), Err(ParseError(1, "unexpected end of expression")));
}

#[test]
fn strip_invented_reads_no_primitive() {
    let mut dsl = arithmetic();
    assert_eq!(dsl.invent(dsl.parse("(+ 1)").unwrap()), Ok(0));
    // primitive 9 is not registered; stripping does not look at it
    let expr = app(Expression::Invented(0), Expression::Primitive(9));
    assert!(dsl.can_expand(&expr));
    assert!(!dsl.has(&expr));
    assert_eq!(
        dsl.strip_invented(&expr),
        app(app(Expression::Primitive(2), Expression::Primitive(1)), Expression::Primitive(9))
    );
    assert!(!dsl.can_expand(&Expression::Invented(1)));
    dsl.invented.push((Expression::Invented(1), tp("int")));
    assert!(!dsl.can_expand(&Expression::Primitive(0)));
}
