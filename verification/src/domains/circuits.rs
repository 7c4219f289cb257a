//! The circuit domain of "Bootstrap Learning for Modular Concept Discovery"
//! (2013): the single primitive is the binary `nand` over booleans.

use vstd::prelude::*;
use crate::lambda::expression::Expression;
use crate::lambda::language::Language;
use crate::lambda::types::{Type, TypeTerm};

verus! {

/// The type of booleans.
pub open spec fn boolean() -> TypeTerm {
    TypeTerm::Constructed("bool"@, Seq::empty())
}

/// The type of `nand`: a function of two booleans to a boolean.
pub open spec fn nand_type() -> TypeTerm {
    TypeTerm::Arrow(
        Box::new(boolean()),
        Box::new(TypeTerm::Arrow(Box::new(boolean()), Box::new(boolean()))),
    )
}

/// The type of booleans.
fn bool_type() -> (t: Type)
    ensures
        t@ == boolean(),
{
    let args: Vec<Type> = Vec::new();
    let t = Type::Constructed("bool", args);
    assert(t@ == boolean()) by {
        assert(t@->Constructed_1 =~= Seq::empty());
    }
    t
}

/// The language of the domain: the one primitive `nand` of two booleans,
/// no inventions, every log-probability 0.
pub fn base_dsl() -> (dsl: Language)
    ensures
        dsl.well_formed(),
        dsl.grounded(),
        dsl.invented@.len() == 0,
        dsl.primitive_names() == seq!["nand"@],
        dsl.primitive_types() == seq![nand_type()],
        dsl.primitives_logprob@ == seq![0i64],
        dsl.variable_logprob == 0,
{
    let unary = Type::Arrow(Box::new(bool_type()), Box::new(bool_type()));
    assert(unary@ == TypeTerm::Arrow(Box::new(boolean()), Box::new(boolean())));
    let tp = Type::Arrow(Box::new(bool_type()), Box::new(unary));
    assert(tp@ == nand_type());
    let mut primitives: Vec<(String, Type)> = Vec::new();
    primitives.push(("nand".to_string(), tp));
    let dsl = Language::uniform(primitives, Vec::new());
    proof {
        assert(dsl.primitive_names() =~= seq!["nand"@]);
        assert(dsl.primitives@[0].1@ == nand_type());
        assert(dsl.primitive_types() =~= seq![nand_type()]);
        assert(dsl.primitives_logprob@ =~= seq![0i64]);
    }
    dsl
}

/// Evaluates an expression of the circuit domain on the given inputs. The
/// domain defines no evaluation of its own: every expression on every input
/// gives `false`.
pub fn evaluator(expr: &Expression, inp: &Vec<bool>) -> (out: bool)
    ensures
        !out,
{
    false
}

} // verus!
