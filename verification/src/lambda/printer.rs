//! The textual syntax of expressions: writing it.

use vstd::prelude::*;
use super::expression::Expression;
use super::language::Language;
use super::text::{chars_of, decimal, push_all, push_decimal, string_of};
use super::types::Type;

verus! {

impl Expression {
    /// The text of the expression. An application is written as its function
    /// followed by its argument, in parentheses unless it stands as the
    /// function of another application, so that `((f x) y)` reads `(f x y)`.
    /// An invention is written as `#` before the text of its definition, in
    /// which inventions below `below` are written out in turn.
    pub open spec fn shown(
        self,
        names: Seq<Seq<char>>,
        invented: Seq<Expression>,
        below: nat,
        is_function: bool,
    ) -> Seq<char>
        decreases below, self,
    {
        match self {
            Expression::Primitive(num) => if num < names.len() {
                names[num as int]
            } else {
                Seq::empty()
            },
            Expression::Application(f, x) => {
                let inner = f.shown(names, invented, below, true) + seq![' '] + x.shown(
                    names,
                    invented,
                    below,
                    false,
                );
                if is_function {
                    inner
                } else {
                    seq!['('] + inner + seq![')']
                }
            },
            Expression::Abstraction(body) => seq!['(', '\u{3bb}', ' '] + body.shown(
                names,
                invented,
                below,
                false,
            ) + seq![')'],
            Expression::Index(i) => seq!['$'] + decimal(i as nat),
            Expression::Invented(num) => if num < below && num < invented.len() {
                seq!['#'] + invented[num as int].shown(names, invented, num as nat, false)
            } else {
                seq!['#']
            },
        }
    }

    /// Appends the text of the expression.
    fn show(
        &self,
        out: &mut Vec<char>,
        names: &Vec<Vec<char>>,
        invented: &Vec<(Expression, Type)>,
        below: usize,
        is_function: bool,
    )
        requires
            below <= invented.len(),
            self.primitives_below(names.len() as nat),
            self.inventions_below(below as nat),
            forall|i: int|
                0 <= i < invented.len() ==> {
                    &&& (#[trigger] invented@[i]).0.primitives_below(names.len() as nat)
                    &&& invented@[i].0.inventions_below(i as nat)
                },
        ensures
            final(out)@ == old(out)@ + self.shown(
                Seq::new(names.len() as nat, |i: int| names@[i]@),
                Seq::new(invented.len() as nat, |i: int| invented@[i].0),
                below as nat,
                is_function,
            ),
        decreases below, self,
    {
        let ghost all_names = Seq::new(names.len() as nat, |i: int| names@[i]@);
        let ghost definitions = Seq::new(invented.len() as nat, |i: int| invented@[i].0);
        match self {
            Expression::Primitive(num) => {
                push_all(out, &names[*num]);
            },
            Expression::Application(f, x) => {
                if !is_function {
                    out.push('(');
                }
                f.show(out, names, invented, below, true);
                out.push(' ');
                x.show(out, names, invented, below, false);
                if !is_function {
                    out.push(')');
                }
                assert(out@ =~= old(out)@ + self.shown(
                    all_names,
                    definitions,
                    below as nat,
                    is_function,
                ));
            },
            Expression::Abstraction(body) => {
                out.push('(');
                out.push('\u{3bb}');
                out.push(' ');
                body.show(out, names, invented, below, false);
                out.push(')');
                assert(out@ =~= old(out)@ + self.shown(
                    all_names,
                    definitions,
                    below as nat,
                    is_function,
                ));
            },
            Expression::Index(i) => {
                out.push('$');
                push_decimal(out, *i);
                assert(out@ =~= old(out)@ + self.shown(
                    all_names,
                    definitions,
                    below as nat,
                    is_function,
                ));
            },
            Expression::Invented(num) => {
                out.push('#');
                invented[*num].0.show(out, names, invented, *num, false);
                assert(out@ =~= old(out)@ + self.shown(
                    all_names,
                    definitions,
                    below as nat,
                    is_function,
                ));
            },
        }
    }
}

impl Language {
    /// The text of an expression of this language.
    pub open spec fn text_of(self, expr: Expression) -> Seq<char> {
        expr.shown(
            self.primitive_names(),
            self.invented_expressions(),
            self.invented.len() as nat,
            false,
        )
    }

    /// The names of the primitives as characters.
    pub(crate) fn names(&self) -> (names: Vec<Vec<char>>)
        ensures
            names.len() == self.primitives.len(),
            forall|i: int| 0 <= i < names.len() ==> names@[i]@ == self.primitives@[i].0@,
    {
        let mut names: Vec<Vec<char>> = Vec::new();
        let mut i: usize = 0;
        while i < self.primitives.len()
            invariant
                i <= self.primitives.len(),
                names.len() == i,
                forall|j: int| 0 <= j < i ==> names@[j]@ == self.primitives@[j].0@,
            decreases self.primitives.len() - i,
        {
            names.push(chars_of(self.primitives[i].0.as_str()));
            i = i + 1;
        }
        names
    }

    /// Writes an expression as text: a primitive by its name, an index as
    /// `$` and its number, an abstraction as `(λ BODY)`, an application as
    /// `(FUNCTION ARGUMENT ...)` and an invention as `#` before its
    /// definition. The inverse of [`parse`](Language::parse).
    ///
    /// Everything that the expression refers to has to be registered, and so
    /// has what the inventions refer to.
    pub fn stringify(&self, expr: &Expression) -> (text: String)
        requires
            self.grounded(),
            self.knows(*expr),
        ensures
            text@ == self.text_of(*expr),
    {
        let names = self.names();
        let mut out: Vec<char> = Vec::new();
        assert(Seq::new(names.len() as nat, |i: int| names@[i]@) =~= self.primitive_names());
        assert forall|i: int| 0 <= i < self.invented.len() implies {
            &&& (#[trigger] self.invented@[i]).0.primitives_below(names.len() as nat)
            &&& self.invented@[i].0.inventions_below(i as nat)
        } by {
            assert(self.invented_expressions()[i] == self.invented@[i].0);
        }
        expr.show(&mut out, &names, &self.invented, self.invented.len(), false);
        string_of(&out)
    }
}

} // verus!
