use programinduction::lambda::types::Type;

#[test]
fn duplicate_keeps_the_type() {
    let t = Type::Arrow(
        Box::new(Type::Constructed("int", vec![])),
        Box::new(Type::Constructed("list", vec![Type::Variable(3)])),
    );
    assert_eq!(t.duplicate(), t);
}
