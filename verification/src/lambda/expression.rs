//! The terms of the lambda calculus.

use vstd::prelude::*;

verus! {

/// An expression of the lambda calculus. Primitives and inventions are
/// referred to by their position in a [`Language`](super::language::Language),
/// so an expression only makes sense together with one.
#[derive(Debug, PartialEq, Eq)]
pub enum Expression {
    /// The primitive registered at this position.
    Primitive(usize),
    /// The first expression applied to the second.
    Application(Box<Expression>, Box<Expression>),
    /// A function of one bound variable with the given body.
    Abstraction(Box<Expression>),
    /// De Bruijn index: the variable bound by the nth-nearest enclosing
    /// abstraction, counting from 0. The identity function is
    /// `Abstraction(Index(0))`.
    Index(usize),
    /// The invented expression registered at this position.
    Invented(usize),
}

impl Expression {
    /// Whether no `Invented` node occurs in the expression.
    pub open spec fn invention_free(self) -> bool
        decreases self,
    {
        match self {
            Expression::Application(f, x) => f.invention_free() && x.invention_free(),
            Expression::Abstraction(body) => body.invention_free(),
            Expression::Invented(_) => false,
            _ => true,
        }
    }

    /// Whether every primitive that the expression refers to is registered
    /// at a position below `n`.
    pub open spec fn primitives_below(self, n: nat) -> bool
        decreases self,
    {
        match self {
            Expression::Application(f, x) => f.primitives_below(n) && x.primitives_below(n),
            Expression::Abstraction(body) => body.primitives_below(n),
            Expression::Primitive(num) => num < n,
            _ => true,
        }
    }

    /// Whether every invention that the expression refers to is registered
    /// at a position below `n`.
    pub open spec fn inventions_below(self, n: nat) -> bool
        decreases self,
    {
        match self {
            Expression::Application(f, x) => f.inventions_below(n) && x.inventions_below(n),
            Expression::Abstraction(body) => body.inventions_below(n),
            Expression::Invented(num) => num < n,
            _ => true,
        }
    }

    /// Whether every index of the expression refers to a binder, where `n`
    /// binders stand around the expression.
    pub open spec fn indices_below(self, n: nat) -> bool
        decreases self,
    {
        match self {
            Expression::Application(f, x) => f.indices_below(n) && x.indices_below(n),
            Expression::Abstraction(body) => body.indices_below(n + 1),
            Expression::Index(i) => i < n,
            _ => true,
        }
    }

    /// Whether the expression refers to primitives below `primitives` and to
    /// inventions below `inventions` only.
    pub fn refers_within(&self, primitives: usize, inventions: usize) -> (b: bool)
        ensures
            b == (self.primitives_below(primitives as nat) && self.inventions_below(
                inventions as nat,
            )),
        decreases self,
    {
        match self {
            Expression::Primitive(num) => *num < primitives,
            Expression::Application(f, x) => f.refers_within(primitives, inventions)
                && x.refers_within(primitives, inventions),
            Expression::Abstraction(body) => body.refers_within(primitives, inventions),
            Expression::Index(_) => true,
            Expression::Invented(num) => *num < inventions,
        }
    }

    /// Whether the expression refers to inventions below `inventions` only.
    pub fn invents_within(&self, inventions: usize) -> (b: bool)
        ensures
            b == self.inventions_below(inventions as nat),
        decreases self,
    {
        match self {
            Expression::Application(f, x) => f.invents_within(inventions) && x.invents_within(
                inventions,
            ),
            Expression::Abstraction(body) => body.invents_within(inventions),
            Expression::Invented(num) => *num < inventions,
            _ => true,
        }
    }

    /// A copy of the expression.
    pub fn duplicate(&self) -> (r: Expression)
        ensures
            r == *self,
        decreases self,
    {
        match self {
            Expression::Primitive(num) => Expression::Primitive(*num),
            Expression::Application(f, x) => Expression::Application(
                Box::new(f.duplicate()),
                Box::new(x.duplicate()),
            ),
            Expression::Abstraction(body) => Expression::Abstraction(Box::new(body.duplicate())),
            Expression::Index(i) => Expression::Index(*i),
            Expression::Invented(num) => Expression::Invented(*num),
        }
    }

    /// Structural equality.
    pub fn same(&self, other: &Expression) -> (r: bool)
        ensures
            r == (*self == *other),
        decreases self,
    {
        match (self, other) {
            (Expression::Primitive(a), Expression::Primitive(b)) => *a == *b,
            (Expression::Application(f, x), Expression::Application(g, y)) => f.same(g) && x.same(
                y,
            ),
            (Expression::Abstraction(a), Expression::Abstraction(b)) => a.same(b),
            (Expression::Index(a), Expression::Index(b)) => *a == *b,
            (Expression::Invented(a), Expression::Invented(b)) => *a == *b,
            _ => false,
        }
    }
}

impl Clone for Expression {
    fn clone(&self) -> (r: Self)
        ensures
            r == *self,
    {
        self.duplicate()
    }
}

} // verus!
