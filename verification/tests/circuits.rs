use programinduction::domains::circuits::{base_dsl, evaluator};
use programinduction::lambda::{Expression, Type};

#[test]
fn evaluator_gives_false() {
    assert!(!evaluator(&Expression::Primitive(0), &vec![true, true]));
    assert!(!evaluator(&Expression::Index(0), &vec![]));
}

#[test]
fn base_dsl_holds_nand_alone() {
    let dsl = base_dsl();
    let boolean = || Type::Constructed("bool", vec![]);
    assert_eq!(dsl.primitives.len(), 1);
    assert_eq!(dsl.primitives[0].0, "nand");
    assert_eq!(
        dsl.primitives[0].1,
        Type::Arrow(
            Box::new(boolean()),
            Box::new(Type::Arrow(Box::new(boolean()), Box::new(boolean())))
        )
    );
    assert!(dsl.invented.is_empty());
    assert_eq!(dsl.primitives_logprob, vec![0]);
    assert_eq!(dsl.stringify(&dsl.parse("(nand $0 (nand $1 $0))").unwrap()), "(nand $0 (nand $1 $0))");
}
