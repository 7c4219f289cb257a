//! Invented expressions: registering them and expanding them again.

use vstd::prelude::*;
use super::expression::Expression;
use super::infer::{infer_spec, Inference};
use super::language::{InferenceError, Language};
use super::types::{Type, TypeTerm};

verus! {

impl Expression {
    /// The expression with every reference to an invention below `below`
    /// replaced by that invention's definition, expanded in turn with the
    /// inventions below itself.
    pub open spec fn expanded(self, invented: Seq<Expression>, below: nat) -> Expression
        decreases below, self,
    {
        match self {
            Expression::Application(f, x) => Expression::Application(
                Box::new(f.expanded(invented, below)),
                Box::new(x.expanded(invented, below)),
            ),
            Expression::Abstraction(body) => Expression::Abstraction(
                Box::new(body.expanded(invented, below)),
            ),
            Expression::Invented(num) => if num < below && num < invented.len() {
                invented[num as int].expanded(invented, num as nat)
            } else {
                self
            },
            _ => self,
        }
    }

    /// Expands the references to inventions below `below`.
    fn expand(&self, invented: &Vec<(Expression, Type)>, below: usize) -> (r: Expression)
        ensures
            r == self.expanded(Seq::new(invented.len() as nat, |i: int| invented@[i].0), below as nat),
        decreases below, self,
    {
        match self {
            Expression::Application(f, x) => Expression::Application(
                Box::new(f.expand(invented, below)),
                Box::new(x.expand(invented, below)),
            ),
            Expression::Abstraction(body) => Expression::Abstraction(
                Box::new(body.expand(invented, below)),
            ),
            Expression::Invented(num) => if *num < below && *num < invented.len() {
                invented[*num].0.expand(invented, *num)
            } else {
                Expression::Invented(*num)
            },
            Expression::Primitive(num) => Expression::Primitive(*num),
            Expression::Index(i) => Expression::Index(*i),
        }
    }
}

/// Whether each invention of the table refers to earlier inventions only.
pub open spec fn earlier_only(invented: Seq<Expression>) -> bool {
    forall|i: int| 0 <= i < invented.len() ==> (#[trigger] invented[i]).inventions_below(i as nat)
}

/// Whether each invention of the table refers to primitives below `n` only.
pub open spec fn primitives_within(invented: Seq<Expression>, n: nat) -> bool {
    forall|i: int| 0 <= i < invented.len() ==> (#[trigger] invented[i]).primitives_below(n)
}

/// Expanding an expression whose inventions lie below the bound, in a table
/// whose inventions refer to earlier ones only, leaves no reference to an
/// invention.
pub proof fn lemma_expanded_invention_free(expr: Expression, invented: Seq<Expression>, below: nat)
    requires
        earlier_only(invented),
        below <= invented.len(),
        expr.inventions_below(below),
    ensures
        expr.expanded(invented, below).invention_free(),
    decreases below, expr,
{
    match expr {
        Expression::Application(f, x) => {
            lemma_expanded_invention_free(*f, invented, below);
            lemma_expanded_invention_free(*x, invented, below);
        },
        Expression::Abstraction(body) => {
            lemma_expanded_invention_free(*body, invented, below);
        },
        Expression::Invented(num) => {
            lemma_expanded_invention_free(invented[num as int], invented, num as nat);
        },
        _ => {},
    }
}

/// Expanding an expression without references to inventions changes
/// nothing.
pub proof fn lemma_expanded_fixes_invention_free(
    expr: Expression,
    invented: Seq<Expression>,
    below: nat,
)
    requires
        expr.invention_free(),
    ensures
        expr.expanded(invented, below) == expr,
    decreases expr,
{
    match expr {
        Expression::Application(f, x) => {
            lemma_expanded_fixes_invention_free(*f, invented, below);
            lemma_expanded_fixes_invention_free(*x, invented, below);
        },
        Expression::Abstraction(body) => {
            lemma_expanded_fixes_invention_free(*body, invented, below);
        },
        _ => {},
    }
}

/// Where inference succeeds, everything that the expression refers to is
/// registered.
pub proof fn lemma_inferred_refers_to_registered(
    primitives: Seq<TypeTerm>,
    invented: Seq<TypeTerm>,
    expr: Expression,
    env: Seq<TypeTerm>,
    st: Inference,
)
    requires
        infer_spec(primitives, invented, expr, env, st).0 is Ok,
    ensures
        expr.inventions_below(invented.len()),
        expr.primitives_below(primitives.len()),
    decreases expr,
{
    match expr {
        Expression::Application(f, x) => {
            lemma_inferred_refers_to_registered(primitives, invented, *f, env, st);
            let after_f = infer_spec(primitives, invented, *f, env, st).1;
            lemma_inferred_refers_to_registered(primitives, invented, *x, env, after_f);
        },
        Expression::Abstraction(body) => {
            let made = st.ctx.new_variable();
            lemma_inferred_refers_to_registered(
                primitives,
                invented,
                *body,
                seq![made.0->Some_0] + env,
                Inference { ctx: made.1, ..st },
            );
        },
        _ => {},
    }
}

impl Language {
    /// Whether each invention refers to registered primitives and to
    /// earlier inventions only, so that expanding inventions comes to an end.
    pub open spec fn grounded(self) -> bool {
        &&& earlier_only(self.invented_expressions())
        &&& primitives_within(self.invented_expressions(), self.primitives.len() as nat)
    }

    /// Whether everything that the expression refers to is registered.
    pub open spec fn knows(self, expr: Expression) -> bool {
        &&& expr.inventions_below(self.invented.len() as nat)
        &&& expr.primitives_below(self.primitives.len() as nat)
    }

    /// Whether each invention refers to registered primitives and to earlier
    /// inventions only.
    pub fn is_grounded(&self) -> (b: bool)
        ensures
            b == self.grounded(),
    {
        let mut i: usize = 0;
        while i < self.invented.len()
            invariant
                i <= self.invented.len(),
                forall|j: int|
                    0 <= j < i ==> {
                        &&& (#[trigger] self.invented_expressions()[j]).inventions_below(j as nat)
                        &&& self.invented_expressions()[j].primitives_below(
                            self.primitives.len() as nat,
                        )
                    },
            decreases self.invented.len() - i,
        {
            if !self.invented[i].0.refers_within(self.primitives.len(), i) {
                assert(self.invented_expressions()[i as int] == self.invented@[i as int].0);
                return false;
            }
            assert(self.invented_expressions()[i as int] == self.invented@[i as int].0);
            i = i + 1;
        }
        true
    }

    /// Whether everything that the expression refers to is registered.
    pub fn has(&self, expr: &Expression) -> (b: bool)
        ensures
            b == self.knows(*expr),
    {
        expr.refers_within(self.primitives.len(), self.invented.len())
    }

    /// Whether the inventions in the expression can be expanded: each is
    /// registered, and each invention of the language refers to earlier
    /// inventions only, so that expanding comes to an end.
    pub open spec fn expands(self, expr: Expression) -> bool {
        &&& earlier_only(self.invented_expressions())
        &&& expr.inventions_below(self.invented.len() as nat)
    }

    /// Whether the inventions in the expression can be expanded.
    pub fn can_expand(&self, expr: &Expression) -> (b: bool)
        ensures
            b == self.expands(*expr),
    {
        let mut i: usize = 0;
        while i < self.invented.len()
            invariant
                i <= self.invented.len(),
                forall|j: int|
                    0 <= j < i ==> (#[trigger] self.invented_expressions()[j]).inventions_below(
                        j as nat,
                    ),
            decreases self.invented.len() - i,
        {
            assert(self.invented_expressions()[i as int] == self.invented@[i as int].0);
            if !self.invented[i].0.invents_within(i) {
                return false;
            }
            i = i + 1;
        }
        expr.invents_within(self.invented.len())
    }

    /// The expression with every reference to an invention replaced by the
    /// invention's definition, expanded in turn.
    pub open spec fn stripped(self, expr: Expression) -> Expression {
        expr.expanded(self.invented_expressions(), self.invented.len() as nat)
    }

    /// Removes all references to inventions by putting each invention's
    /// definition, expanded in turn, in its place.
    pub fn strip_invented(&self, expr: &Expression) -> (r: Expression)
        requires
            self.expands(*expr),
        ensures
            r == self.stripped(*expr),
            r.invention_free(),
    {
        proof {
            lemma_expanded_invention_free(
                *expr,
                self.invented_expressions(),
                self.invented.len() as nat,
            );
        }
        expr.expand(&self.invented, self.invented.len())
    }

    /// Registers a new invention if it has a type, and returns its position.
    /// The expression is typed under the inventions registered so far, so it
    /// cannot refer to itself; where it has no type, the language stays as it
    /// is. Free indices are admitted: each is typed by a variable of its own,
    /// as inference does everywhere.
    pub fn invent(&mut self, expr: Expression) -> (r: Result<usize, InferenceError>)
        ensures
            match old(self).infer_result(expr) {
                Ok(t) => {
                    &&& r == Ok::<usize, InferenceError>(old(self).invented.len())
                    &&& final(self).invented@.len() == old(self).invented@.len() + 1
                    &&& final(self).invented@.drop_last() == old(self).invented@
                    &&& final(self).invented@.last().0 == expr
                    &&& final(self).invented@.last().1@ == t
                    &&& final(self).invented_logprob@ == old(self).invented_logprob@.push(0)
                    &&& final(self).primitives == old(self).primitives
                    &&& final(self).primitives_logprob == old(self).primitives_logprob
                    &&& final(self).variable_logprob == old(self).variable_logprob
                },
                Err(fault) => r is Err && r->Err_0@ == fault && *final(self) == *old(self),
            },
            old(self).well_formed() ==> final(self).well_formed(),
            old(self).grounded() ==> final(self).grounded(),
            earlier_only(old(self).invented_expressions()) ==> earlier_only(
                final(self).invented_expressions(),
            ),
    {
        match self.infer(&expr) {
            Ok(tp) => {
                proof {
                    lemma_inferred_refers_to_registered(
                        self.primitive_types(),
                        self.invented_types(),
                        expr,
                        Seq::empty(),
                        Inference { ctx: super::engine::ContextState::empty(), free: Map::empty() },
                    );
                }
                self.invented.push((expr, tp));
                self.invented_logprob.push(0);
                assert(self.invented@.drop_last() =~= old(self).invented@);
                proof {
                    if earlier_only(old(self).invented_expressions()) {
                        let before = old(self).invented_expressions();
                        let after = self.invented_expressions();
                        assert forall|i: int| 0 <= i < after.len() implies (
                        #[trigger] after[i]).inventions_below(i as nat) by {
                            if i < before.len() {
                                assert(after[i] == before[i]);
                            }
                        }
                    }
                    if old(self).grounded() {
                        let before = old(self).invented_expressions();
                        let after = self.invented_expressions();
                        assert forall|i: int| 0 <= i < after.len() implies (#[trigger] after[i]).inventions_below(i as nat) by {
                            if i < before.len() {
                                assert(after[i] == before[i]);
                            }
                        }
                        assert forall|i: int| 0 <= i < after.len() implies (#[trigger] after[i]).primitives_below(self.primitives.len() as nat) by {
                            if i < before.len() {
                                assert(after[i] == before[i]);
                            }
                        }
                    }
                }
                Ok(self.invented.len() - 1)
            },
            Err(e) => Err(e),
        }
    }
}

/// Stripping inventions twice gives what stripping them once gives.
pub proof fn law_strip_invented_idempotent(dsl: Language, expr: Expression)
    requires
        dsl.expands(expr),
    ensures
        dsl.stripped(expr).invention_free(),
        dsl.stripped(dsl.stripped(expr)) == dsl.stripped(expr),
{
    lemma_expanded_invention_free(expr, dsl.invented_expressions(), dsl.invented.len() as nat);
    lemma_expanded_fixes_invention_free(
        dsl.stripped(expr),
        dsl.invented_expressions(),
        dsl.invented.len() as nat,
    );
}

} // verus!
