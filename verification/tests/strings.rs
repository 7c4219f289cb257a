use programinduction::domains::strings::{dsl, Evaluator, Space};
use programinduction::lambda::Type;

fn s(text: &str) -> Space {
    Space::Str(text.to_string())
}

fn list(items: &[&str]) -> Space {
    Space::StrList(items.iter().map(|x| x.to_string()).collect())
}

#[test]
fn evaluate_counts() {
    let e = Evaluator;
    assert!(e.evaluate("0", &[]) == Space::Num(0));
    assert!(e.evaluate("+1", &[Space::Num(41)]) == Space::Num(42));
    assert!(e.evaluate("-1", &[Space::Num(0)]) == Space::Num(-1));
    assert!(e.try_evaluate("+1", &[Space::Num(i32::MAX)]).is_none());
    assert!(e.try_evaluate("-1", &[Space::Num(i32::MIN)]).is_none());
    // the length is in bytes
    assert!(e.evaluate("len", &[s("abc")]) == Space::Num(3));
    assert!(e.evaluate("len", &[s("λx")]) == Space::Num(3));
}

#[test]
fn evaluate_edits_strings() {
    let e = Evaluator;
    assert!(e.evaluate("empty_str", &[]) == s(""));
    assert!(e.evaluate("lower", &[s("OFJQc")]) == s("ofjqc"));
    assert!(e.evaluate("upper", &[s("eMS ß")]) == s("EMS SS"));
    assert!(e.evaluate("concat", &[s("ab"), s("cd")]) == s("abcd"));
    assert!(e.evaluate("strip", &[s(" \t a b \u{a0}\n")]) == s("a b"));
    assert!(e.evaluate("strip", &[s("   ")]) == s(""));
    assert!(e.evaluate("strip", &[s("")]) == s(""));
    assert!(e.evaluate("char->str", &[Space::Char('/')]) == s("/"));
}

#[test]
fn evaluate_slices_by_characters() {
    let e = Evaluator;
    let slice = |x: i32, y: i32, text: &str| e.evaluate("slice", &[Space::Num(x), Space::Num(y), s(text)]);
    assert!(slice(1, 3, "abcde") == s("bc"));
    assert!(slice(0, 5, "abcde") == s("abcde"));
    assert!(slice(2, 99, "abcde") == s("cde"));
    assert!(slice(7, 9, "abcde") == s(""));
    assert!(slice(3, 3, "abcde") == s(""));
    // a negative start skips everything; an end before the start takes everything
    assert!(slice(-1, 3, "abcde") == s(""));
    assert!(slice(3, 1, "abcde") == s("de"));
    assert!(slice(1, 2, "aλc") == s("λ"));
    assert!(e.try_evaluate("slice", &[Space::Num(-2), Space::Num(i32::MAX), s("a")]).is_none());
}

#[test]
fn evaluate_splits_and_joins() {
    let e = Evaluator;
    assert!(e.evaluate("split", &[Space::Char('>'), s("OFJQc>BLVP>eMS")]) == list(&["OFJQc", "BLVP", "eMS"]));
    assert!(e.evaluate("split", &[Space::Char(','), s("")]) == list(&[""]));
    assert!(e.evaluate("split", &[Space::Char(','), s(",a,,")]) == list(&["", "a", "", ""]));
    assert!(e.evaluate("split", &[Space::Char(','), s("abc")]) == list(&["abc"]));
    assert!(e.evaluate("join", &[s("/"), list(&["OFJQc", "BLVP", "eMS"])]) == s("OFJQc/BLVP/eMS"));
    assert!(e.evaluate("join", &[s(", "), list(&[])]) == s(""));
    assert!(e.evaluate("join", &[s(", "), list(&["a"])]) == s("a"));
    assert!(e.evaluate("join", &[s(""), list(&["a", "", "b"])]) == s("ab"));
    assert!(e.evaluate("nth", &[Space::Num(1), list(&["a", "b"])]) == s("b"));
    assert!(e.evaluate("nth", &[Space::Num(2), list(&["a", "b"])]) == s(""));
    assert!(e.evaluate("nth", &[Space::Num(-1), list(&["a", "b"])]) == s(""));
}

#[test]
fn evaluate_gives_the_characters() {
    let e = Evaluator;
    let names = ["space", ".", ",", "<", ">", "/", "@", "-", "|"];
    let chars = [' ', '.', ',', '<', '>', '/', '@', '-', '|'];
    for (name, c) in names.iter().zip(chars.iter()) {
        assert!(e.evaluate(name, &[]) == Space::Char(*c));
    }
}

#[test]
fn try_evaluate_refuses_what_is_not_defined() {
    let e = Evaluator;
    assert!(e.try_evaluate("reverse", &[s("abc")]).is_none());
    assert!(e.try_evaluate("", &[]).is_none());
    assert!(e.try_evaluate("len", &[]).is_none());
    assert!(e.try_evaluate("len", &[Space::Num(3)]).is_none());
    assert!(e.try_evaluate("concat", &[s("a")]).is_none());
    assert!(e.try_evaluate("join", &[list(&["a"]), s(",")]).is_none());
    // applying a function is left to whoever holds the functions
    assert!(e.try_evaluate("map-to-nums", &[Space::Func(0), Space::NumList(vec![1])]).is_none());
    assert!(e.try_evaluate("map-to-strs", &[Space::Func(0), list(&["a"])]).is_none());
    // values beyond a primitive's arguments are not looked at
    assert!(e.try_evaluate("len", &[s("ab"), Space::Num(1)]) == Some(Space::Num(2)));
}

#[test]
fn values_are_equal_by_what_they_hold() {
    assert!(Space::Num(1) == Space::Num(1));
    assert!(Space::Num(1) != Space::Num(2));
    assert!(Space::Char('a') == Space::Char('a'));
    assert!(s("a") == s("a"));
    assert!(s("a") != s("b"));
    assert!(list(&["a", "b"]) == list(&["a", "b"]));
    assert!(list(&["a", "b"]) != list(&["a"]));
    assert!(list(&["a", "b"]) != list(&["a", "c"]));
    assert!(Space::NumList(vec![1, 2]) == Space::NumList(vec![1, 2]));
    assert!(Space::NumList(vec![1, 2]) != Space::NumList(vec![2, 1]));
    assert!(Space::Num(1) != Space::Char('1'));
    assert!(s("") != list(&[]));
    // a function is equal to nothing
    assert!(Space::Func(3) != Space::Func(3));
    assert!(Evaluator.lift(3).unwrap() != Space::Func(3));
    assert!(matches!(Evaluator.lift(3), Ok(Space::Func(3))));
}

#[test]
fn dsl_registers_the_primitives() {
    let dsl = dsl();
    assert_eq!(dsl.primitives.len(), 25);
    assert_eq!(dsl.primitives_logprob, vec![0; 25]);
    assert!(dsl.invented.is_empty());
    assert!(dsl.is_grounded());
    let names: Vec<&str> = dsl.primitives.iter().map(|p| p.0.as_str()).collect();
    assert_eq!(
        names,
        vec![
            "0", "+1", "-1", "len", "empty_str", "lower", "upper", "concat", "slice", "nth",
            "map-to-nums", "map-to-strs", "strip", "split", "join", "char->str", "space", ".",
            ",", "<", ">", "/", "@", "-", "|"
        ]
    );
    let tp = |name: &'static str| Type::Constructed(name, vec![]);
    let arrow = |a: Type, b: Type| Type::Arrow(Box::new(a), Box::new(b));
    assert_eq!(dsl.primitives[8].1, arrow(tp("int"), arrow(tp("int"), arrow(tp("str"), tp("str")))));
    assert_eq!(
        dsl.primitives[10].1,
        arrow(
            arrow(Type::Variable(0), tp("int")),
            arrow(
                Type::Constructed("list", vec![Type::Variable(0)]),
                Type::Constructed("list", vec![tp("int")])
            )
        )
    );
    assert_eq!(dsl.primitives[16].1, tp("char"));
    // every primitive can be evaluated or is left to the holder of functions
    for (name, _) in dsl.primitives.iter() {
        assert!(Evaluator.try_evaluate(name, &[Space::Func(0)]).is_none() || !name.starts_with("map"));
    }
}

#[test]
fn dsl_types_an_edit() {
    let dsl = dsl();
    let expr = dsl.parse("(λ (join (char->str /) (split > $0)))").unwrap();
    assert_eq!(dsl.stringify(&expr), "(λ (join (char->str /) (split > $0)))");
    let tp = |name: &'static str| Type::Constructed(name, vec![]);
    assert_eq!(dsl.infer(&expr), Ok(Type::Arrow(Box::new(tp("str")), Box::new(tp("str")))));
}
