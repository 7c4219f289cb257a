use programinduction::lambda::engine::TypeContext;
use programinduction::lambda::{Type, UnificationError};

fn tp(name: &'static str) -> Type {
    Type::Constructed(name, vec![])
}

fn list(of: Type) -> Type {
    Type::Constructed("list", vec![of])
}

fn arrow(arg: Type, ret: Type) -> Type {
    Type::Arrow(Box::new(arg), Box::new(ret))
}

#[test]
fn new_variable_counts_from_zero() {
    let mut ctx = TypeContext::new();
    assert_eq!(ctx.new_variable(), Some(Type::Variable(0)));
    assert_eq!(ctx.new_variable(), Some(Type::Variable(1)));
    let mut copy = ctx.duplicate();
    assert_eq!(copy.new_variable(), Some(Type::Variable(2)));
    assert_eq!(ctx.new_variable(), Some(Type::Variable(2)));
}

#[test]
fn instantiate_numbers_variables_as_they_are_first_met() {
    let mut ctx = TypeContext::new();
    let t = arrow(Type::Variable(5), arrow(list(Type::Variable(3)), Type::Variable(5)));
    assert_eq!(
        ctx.instantiate(&t),
        Some(arrow(Type::Variable(0), arrow(list(Type::Variable(1)), Type::Variable(0))))
    );
    assert_eq!(
        ctx.instantiate(&t),
        Some(arrow(Type::Variable(2), arrow(list(Type::Variable(3)), Type::Variable(2))))
    );
    // a type without variables stays as it is and uses none
    assert_eq!(ctx.instantiate(&arrow(tp("int"), tp("bool"))), Some(arrow(tp("int"), tp("bool"))));
    assert_eq!(ctx.new_variable(), Some(Type::Variable(4)));
}

#[test]
fn unify_binds_and_apply_replaces() {
    let mut ctx = TypeContext::new();
    let t1 = arrow(tp("int"), Type::Variable(0));
    let t2 = arrow(Type::Variable(1), tp("bool"));
    assert_eq!(ctx.unify(&t1, &t2), Ok(()));
    assert_eq!(ctx.apply(&t1), arrow(tp("int"), tp("bool")));
    assert_eq!(ctx.apply(&t2), arrow(tp("int"), tp("bool")));
    assert_eq!(ctx.apply(&list(Type::Variable(0))), list(tp("bool")));
    assert_eq!(ctx.apply(&Type::Variable(7)), Type::Variable(7));
}

#[test]
fn unify_reports_failures_and_keeps_the_context() {
    let mut ctx = TypeContext::new();
    let t1 = arrow(Type::Variable(0), tp("int"));
    let t2 = arrow(tp("bool"), tp("bool"));
    assert_eq!(ctx.unify(&t1, &t2), Err(UnificationError::Failure(tp("int"), tp("bool"))));
    // the binding of variable 0 made on the way is gone
    assert_eq!(ctx.apply(&Type::Variable(0)), Type::Variable(0));
    let circular = arrow(tp("bool"), Type::Variable(1));
    assert_eq!(ctx.unify(&Type::Variable(1), &circular), Err(UnificationError::Occurs(1)));
    assert_eq!(ctx.apply(&Type::Variable(1)), Type::Variable(1));
}

#[test]
fn duplicate_parts_the_contexts() {
    let mut ctx = TypeContext::new();
    assert_eq!(ctx.unify(&Type::Variable(0), &tp("int")), Ok(()));
    let mut copy = ctx.duplicate();
    assert_eq!(copy.apply(&Type::Variable(0)), tp("int"));
    assert_eq!(copy.unify(&Type::Variable(1), &tp("bool")), Ok(()));
    assert_eq!(copy.apply(&Type::Variable(1)), tp("bool"));
    assert_eq!(ctx.apply(&Type::Variable(1)), Type::Variable(1));
}

#[test]
fn variable_occurrences_counts_each_occurrence() {
    let t = arrow(Type::Variable(5), arrow(list(Type::Variable(3)), Type::Variable(5)));
    assert_eq!(t.variable_occurrences(), 3);
    assert_eq!(tp("int").variable_occurrences(), 0);
    assert_eq!(
        Type::Constructed("pair", vec![Type::Variable(0), list(Type::Variable(0))]).variable_occurrences(),
        2
    );
}

#[test]
fn result_follows_the_arrows() {
    let t = arrow(tp("int"), arrow(arrow(tp("a"), tp("b")), tp("bool")));
    assert_eq!(*t.result(), tp("bool"));
    assert_eq!(*tp("int").result(), tp("int"));
}

#[test]
fn apply_follows_bindings_to_their_end() {
    let mut ctx = TypeContext::new();
    // t0 stands for list(t1), and t1 for int
    assert_eq!(ctx.unify(&Type::Variable(0), &list(Type::Variable(1))), Ok(()));
    assert_eq!(ctx.unify(&Type::Variable(1), &tp("int")), Ok(()));
    assert_eq!(ctx.apply(&Type::Variable(0)), list(tp("int")));
    assert_eq!(
        ctx.apply(&arrow(Type::Variable(0), Type::Constructed("pair", vec![Type::Variable(1), Type::Variable(2)]))),
        arrow(list(tp("int")), Type::Constructed("pair", vec![tp("int"), Type::Variable(2)]))
    );
}

#[test]
fn unify_settles_types_without_variables_as_they_stand() {
    let mut ctx = TypeContext::new();
    let t = arrow(tp("int"), list(tp("bool")));
    assert_eq!(ctx.unify(&t, &arrow(tp("int"), list(tp("bool")))), Ok(()));
    assert_eq!(ctx.new_variable(), Some(Type::Variable(0)));
    assert_eq!(
        ctx.unify(&t, &arrow(tp("int"), list(tp("int")))),
        Err(UnificationError::Failure(t.duplicate(), arrow(tp("int"), list(tp("int")))))
    );
    // equal once the substitutions are applied
    assert_eq!(ctx.unify(&Type::Variable(0), &tp("int")), Ok(()));
    assert_eq!(ctx.unify(&list(Type::Variable(0)), &list(tp("int"))), Ok(()));
    assert_eq!(
        ctx.unify(&list(Type::Variable(0)), &list(tp("bool"))),
        Err(UnificationError::Failure(list(tp("int")), list(tp("bool"))))
    );
}
