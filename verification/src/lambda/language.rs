//! The registry of primitives and invented expressions.

use vstd::prelude::*;
use super::expression::Expression;
use super::types::{Type, TypeTerm, UnificationError, UnificationFault};

verus! {

/// Why the type of an expression could not be inferred.
#[derive(Debug, PartialEq, Eq)]
pub enum InferenceError {
    /// The expression cannot be typed at all: it refers to a primitive or an
    /// invention that is not registered, or it needs more type variables than
    /// there are.
    BadExpression(String),
    /// Two types that have to agree do not.
    Unify(UnificationError),
}

/// The mathematical value of an [`InferenceError`].
pub enum InferenceFault {
    BadExpression(Seq<char>),
    Unify(UnificationFault),
}

impl View for InferenceError {
    type V = InferenceFault;

    open spec fn view(&self) -> InferenceFault {
        match self {
            InferenceError::BadExpression(message) => InferenceFault::BadExpression(message@),
            InferenceError::Unify(error) => InferenceFault::Unify(error@),
        }
    }
}

/// A registry of primitive and invented expressions of a polymorphically
/// typed lambda calculus, with a log-probability for each.
///
/// Log-probabilities are fixed-point numbers: one unit is a millionth of a
/// nat.
#[derive(Debug, Clone)]
pub struct Language {
    /// The primitives by name, each with its type. An expression refers to a
    /// primitive by its position here.
    pub primitives: Vec<(String, Type)>,
    /// The invented expressions, each with its type. An expression refers to
    /// an invention by its position here.
    pub invented: Vec<(Expression, Type)>,
    /// The log-probability of a bound variable, whichever it is.
    pub variable_logprob: i64,
    /// The log-probability of each primitive.
    pub primitives_logprob: Vec<i64>,
    /// The log-probability of each invention.
    pub invented_logprob: Vec<i64>,
}

impl Language {
    /// Whether there is one log-probability for each registered item.
    pub open spec fn well_formed(self) -> bool {
        &&& self.primitives_logprob.len() == self.primitives.len()
        &&& self.invented_logprob.len() == self.invented.len()
    }

    /// The types of the primitives, by position.
    pub open spec fn primitive_types(self) -> Seq<TypeTerm> {
        Seq::new(self.primitives.len() as nat, |i: int| self.primitives@[i].1@)
    }

    /// The names of the primitives, by position.
    pub open spec fn primitive_names(self) -> Seq<Seq<char>> {
        Seq::new(self.primitives.len() as nat, |i: int| self.primitives@[i].0@)
    }

    /// The types of the inventions, by position.
    pub open spec fn invented_types(self) -> Seq<TypeTerm> {
        Seq::new(self.invented.len() as nat, |i: int| self.invented@[i].1@)
    }

    /// The invented expressions, by position.
    pub open spec fn invented_expressions(self) -> Seq<Expression> {
        Seq::new(self.invented.len() as nat, |i: int| self.invented@[i].0)
    }

    /// A uniform distribution over primitives and invented expressions:
    /// every log-probability is 0, that of the bound variables too.
    pub fn uniform(primitives: Vec<(String, Type)>, invented: Vec<(Expression, Type)>) -> (dsl:
        Language)
        ensures
            dsl.primitives == primitives,
            dsl.invented == invented,
            dsl.variable_logprob == 0,
            dsl.well_formed(),
            forall|i: int| 0 <= i < dsl.primitives_logprob.len() ==> dsl.primitives_logprob[i] == 0,
            forall|i: int| 0 <= i < dsl.invented_logprob.len() ==> dsl.invented_logprob[i] == 0,
    {
        let primitives_logprob = zeros(primitives.len());
        let invented_logprob = zeros(invented.len());
        Language {
            primitives,
            invented,
            variable_logprob: 0,
            primitives_logprob,
            invented_logprob,
        }
    }

    /// The name, type and log-probability of the primitive at a position, or
    /// `None` where nothing is registered there.
    pub fn primitive(&self, num: usize) -> (r: Option<(&str, &Type, i64)>)
        ensures
            r is Some <==> num < self.primitives.len() && num < self.primitives_logprob.len(),
            r matches Some(found) ==> {
                &&& found.0@ == self.primitives[num as int].0@
                &&& *found.1 == self.primitives[num as int].1
                &&& found.2 == self.primitives_logprob[num as int]
            },
    {
        if num < self.primitives.len() && num < self.primitives_logprob.len() {
            let entry = &self.primitives[num];
            Some((entry.0.as_str(), &entry.1, self.primitives_logprob[num]))
        } else {
            None
        }
    }

    /// The expression, type and log-probability of the invention at a
    /// position, or `None` where nothing is registered there.
    pub fn invented(&self, num: usize) -> (r: Option<(&Expression, &Type, i64)>)
        ensures
            r is Some <==> num < self.invented.len() && num < self.invented_logprob.len(),
            r matches Some(found) ==> {
                &&& *found.0 == self.invented[num as int].0
                &&& *found.1 == self.invented[num as int].1
                &&& found.2 == self.invented_logprob[num as int]
            },
    {
        if num < self.invented.len() && num < self.invented_logprob.len() {
            let entry = &self.invented[num];
            Some((&entry.0, &entry.1, self.invented_logprob[num]))
        } else {
            None
        }
    }

    /// Whether the expression gives the output `out` on the inputs `inps`,
    /// where `evaluator` gives the value of a primitive, by its name, on
    /// values. The language evaluates no expression: none is taken to give
    /// any output, and the evaluator is not called.
    pub fn check<V, F>(&self, expr: &Expression, evaluator: &F, inps: &Vec<V>, out: &V) -> (r:
        bool) where F: Fn(&str, &Vec<V>) -> V
        ensures
            !r,
    {
        false
    }
}

/// A vector of `n` zeros.
fn zeros(n: usize) -> (v: Vec<i64>)
    ensures
        v.len() == n,
        forall|i: int| 0 <= i < n ==> v[i] == 0,
{
    let mut v: Vec<i64> = Vec::new();
    let mut i: usize = 0;
    while i < n
        invariant
            i <= n,
            v.len() == i,
            forall|j: int| 0 <= j < i ==> v[j] == 0,
        decreases n - i,
    {
        v.push(0);
        i = i + 1;
    }
    v
}

} // verus!
