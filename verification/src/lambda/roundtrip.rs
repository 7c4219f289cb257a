//! Reading what was written gives the expression back.

use vstd::prelude::*;
use super::candidates::{
    invented_candidates, primitive_candidates, variable_candidates, CandidateModel,
};
use super::engine::ContextState;
use super::enumeration::{
    applied_to, completes, enumeration, extends, fills, lemma_within_members, outermost, picks,
    within, Found, Weigher,
};
use super::enumerator::{abstracted, curried, reversed, weights_of, FrameModel, HoleModel};
use super::expression::Expression;
use super::language::Language;
use super::parser::{
    all_digits, digits_value, is_digit, lambda_letter, lambda_word, number, position_from,
    read_expression, read_index, read_items, skip_spaces, terminator, token_end, word_end, Reason,
};
use super::text::{decimal, digit, white_space};
use super::types::TypeTerm;

verus! {

/// Whether a name reads as a primitive wherever it is written: it is not
/// empty, holds neither white space nor `)`, does not begin like an
/// application or an invention, and is no index.
pub open spec fn plain_name(name: Seq<char>) -> bool {
    &&& name.len() > 0
    &&& forall|i: int| 0 <= i < name.len() ==> !terminator(#[trigger] name[i])
    &&& name[0] != '('
    &&& !(name[0] == '$' && number(name.subrange(1, name.len() as int)) is Some)
    &&& !(name.len() >= 2 && name[0] == '#' && name[1] == '(')
}

/// The expression that an application applies first: the function of its
/// function, and so on.
pub open spec fn spine_head(expr: Expression) -> Expression
    decreases expr,
{
    match expr {
        Expression::Application(f, _) => spine_head(*f),
        _ => expr,
    }
}

/// Whether the expression is a primitive whose name makes an abstraction of
/// the parentheses that it opens.
pub open spec fn named_lambda(names: Seq<Seq<char>>, expr: Expression) -> bool {
    expr matches Expression::Primitive(num) && num < names.len() && (names[num as int]
        == lambda_word() || names[num as int] == lambda_letter())
}

impl Expression {
    /// Whether the text of the expression reads as the expression: every
    /// primitive in it is registered under a plain name that no earlier
    /// primitive has, no application begins with a primitive called `lambda`
    /// or `λ`, and every invention in it is registered below `below`, is
    /// the first with its definition, and is defined as an application or an
    /// abstraction that itself reads as it is written.
    pub open spec fn legible(self, names: Seq<Seq<char>>, invented: Seq<Expression>, below: nat) -> bool
        decreases below, self,
    {
        match self {
            Expression::Primitive(num) => {
                &&& num < names.len()
                &&& plain_name(names[num as int])
                &&& position_from(names, names[num as int], 0) == Some(num as int)
            },
            Expression::Application(f, x) => {
                &&& f.legible(names, invented, below)
                &&& x.legible(names, invented, below)
                &&& !named_lambda(names, spine_head(*f))
            },
            Expression::Abstraction(body) => body.legible(names, invented, below),
            Expression::Index(_) => true,
            Expression::Invented(num) => {
                &&& num < below
                &&& num < invented.len()
                &&& (invented[num as int] is Application || invented[num as int] is Abstraction)
                &&& invented[num as int].legible(names, invented, num as nat)
                &&& position_from(invented, invented[num as int], 0) == Some(num as int)
            },
        }
    }
}

/// Whether the text `part` stands in `s` at `pos`.
pub open spec fn stands_at(s: Seq<char>, pos: int, part: Seq<char>) -> bool {
    &&& 0 <= pos
    &&& pos + part.len() <= s.len()
    &&& forall|i: int| 0 <= i < part.len() ==> s[pos + i] == #[trigger] part[i]
}

/// A text stands where its two halves stand one after the other.
pub proof fn lemma_stands_at_split(s: Seq<char>, pos: int, a: Seq<char>, b: Seq<char>)
    requires
        stands_at(s, pos, a + b),
    ensures
        stands_at(s, pos, a),
        stands_at(s, pos + a.len(), b),
{
    assert forall|i: int| 0 <= i < a.len() implies s[pos + i] == #[trigger] a[i] by {
        assert((a + b)[i] == a[i]);
    }
    assert forall|i: int| 0 <= i < b.len() implies s[pos + a.len() + i] == #[trigger] b[i] by {
        assert((a + b)[a.len() + i] == b[i]);
    }
}

/// What stands in a text is the part of the text at that place.
pub proof fn lemma_stands_at_subrange(s: Seq<char>, pos: int, part: Seq<char>)
    requires
        stands_at(s, pos, part),
    ensures
        s.subrange(pos, pos + part.len()) == part,
{
    assert(s.subrange(pos, pos + part.len()) =~= part);
}

/// A name or number ends where the first white space or `)` stands, or the
/// text ends.
pub proof fn lemma_token_end(s: Seq<char>, pos: int, part: Seq<char>, done: int)
    requires
        stands_at(s, pos, part),
        0 <= done <= part.len(),
        forall|i: int| 0 <= i < part.len() ==> !terminator(#[trigger] part[i]),
        pos + part.len() == s.len() || terminator(s[pos + part.len()]),
    ensures
        token_end(s, pos + done) == pos + part.len(),
    decreases part.len() - done,
{
    if done < part.len() {
        assert(s[pos + done] == part[done]);
        lemma_token_end(s, pos, part, done + 1);
    }
}

/// A word ends where the first white space stands, or the text ends.
pub proof fn lemma_word_end(s: Seq<char>, pos: int, part: Seq<char>, done: int)
    requires
        stands_at(s, pos, part),
        0 <= done <= part.len(),
        forall|i: int| 0 <= i < part.len() ==> !white_space(#[trigger] part[i]),
        pos + part.len() == s.len() || white_space(s[pos + part.len()]),
    ensures
        word_end(s, pos + done) == pos + part.len(),
    decreases part.len() - done,
{
    if done < part.len() {
        assert(s[pos + done] == part[done]);
        lemma_word_end(s, pos, part, done + 1);
    }
}

/// A decimal numeral holds digits only, and denotes its number.
pub proof fn lemma_decimal_denotes(n: nat)
    ensures
        decimal(n).len() > 0,
        all_digits(decimal(n)),
        digits_value(decimal(n)) == n,
    decreases n,
{
    if n < 10 {
        assert(decimal(n) =~= seq![digit(n)]);
        assert(decimal(n).drop_last() =~= Seq::<char>::empty());
        assert(digits_value(decimal(n).drop_last()) == 0);
    } else {
        lemma_decimal_denotes(n / 10);
        let front = decimal(n / 10);
        assert(decimal(n).drop_last() =~= front);
        assert(decimal(n).last() == digit(n % 10));
        assert forall|i: int| 0 <= i < decimal(n).len() implies is_digit(
            #[trigger] decimal(n)[i],
        ) by {
            if i < front.len() {
                assert(decimal(n)[i] == front[i]);
            }
        }
    }
}

/// Reading a decimal numeral gives its number.
pub proof fn lemma_number_of_decimal(n: usize)
    ensures
        number(decimal(n as nat)) == Some(n),
        forall|i: int| 0 <= i < decimal(n as nat).len() ==> !terminator(#[trigger] decimal(n as nat)[i]),
{
    lemma_decimal_denotes(n as nat);
    let d = decimal(n as nat);
    assert(is_digit(d[0]));
    assert forall|i: int| 0 <= i < d.len() implies !terminator(#[trigger] d[i]) by {
        assert(is_digit(d[i]));
    }
}

/// Outside the function of an application, an expression is written in one
/// way only.
pub proof fn lemma_shown_alike(
    expr: Expression,
    names: Seq<Seq<char>>,
    invented: Seq<Expression>,
    below: nat,
)
    requires
        !(expr is Application),
    ensures
        expr.shown(names, invented, below, true) == expr.shown(names, invented, below, false),
{
}

/// The text of a legible expression begins with a character that is neither
/// white space nor `)`; unless the expression is a primitive, or an
/// application written as a function, the character is `(`, `$` or `#`.
pub proof fn lemma_shown_begins(
    expr: Expression,
    names: Seq<Seq<char>>,
    invented: Seq<Expression>,
    below: nat,
    is_function: bool,
)
    requires
        expr.legible(names, invented, below),
    ensures
        expr.shown(names, invented, below, is_function).len() > 0,
        !terminator(expr.shown(names, invented, below, is_function)[0]),
        expr.shown(names, invented, below, is_function)[0] == spine_first(
            expr,
            names,
            is_function,
        ),
    decreases expr,
{
    match expr {
        Expression::Application(f, x) => {
            if is_function {
                lemma_shown_begins(*f, names, invented, below, true);
            }
        },
        Expression::Primitive(num) => {
            assert(!terminator(names[num as int][0]));
        },
        _ => {},
    }
}

/// The first character of the text of an expression.
pub open spec fn spine_first(expr: Expression, names: Seq<Seq<char>>, is_function: bool) -> char
    decreases expr,
{
    match expr {
        Expression::Primitive(num) => names[num as int][0],
        Expression::Application(f, _) => if is_function {
            spine_first(*f, names, true)
        } else {
            '('
        },
        Expression::Abstraction(_) => '(',
        Expression::Index(_) => '$',
        Expression::Invented(_) => '#',
    }
}

/// The text of an application, written as a function, begins with the text
/// of its head and a blank.
pub proof fn lemma_spine_begins(
    expr: Expression,
    names: Seq<Seq<char>>,
    invented: Seq<Expression>,
    below: nat,
    s: Seq<char>,
    pos: int,
)
    requires
        expr is Application,
        stands_at(s, pos, expr.shown(names, invented, below, true)),
    ensures
        stands_at(s, pos, spine_head(expr).shown(names, invented, below, false)),
        pos + spine_head(expr).shown(names, invented, below, false).len() < s.len(),
        s[pos + spine_head(expr).shown(names, invented, below, false).len()] == ' ',
    decreases expr,
{
    match expr {
        Expression::Application(f, x) => {
            let front = f.shown(names, invented, below, true);
            let back = x.shown(names, invented, below, false);
            assert(expr.shown(names, invented, below, true) == front + seq![' '] + back);
            lemma_stands_at_split(s, pos, front + seq![' '], back);
            lemma_stands_at_split(s, pos, front, seq![' ']);
            assert(seq![' '][0] == ' ');
            assert(s[pos + front.len() + 0] == ' ');
            if *f is Application {
                lemma_spine_begins(*f, names, invented, below, s, pos);
            } else {
                lemma_shown_alike(*f, names, invented, below);
            }
        },
        _ => {},
    }
}

/// The first word of a legible application does not make an abstraction.
pub proof fn lemma_application_word(
    expr: Expression,
    names: Seq<Seq<char>>,
    invented: Seq<Expression>,
    below: nat,
    s: Seq<char>,
    pos: int,
)
    requires
        expr is Application,
        expr.legible(names, invented, below),
        stands_at(s, pos, expr.shown(names, invented, below, true)),
    ensures
        s.subrange(pos, word_end(s, pos)) != lambda_word(),
        s.subrange(pos, word_end(s, pos)) != lambda_letter(),
{
    let head = spine_head(expr);
    lemma_spine_begins(expr, names, invented, below, s, pos);
    lemma_spine_head_legible(expr, names, invented, below);
    lemma_shown_begins(head, names, invented, below, false);
    let text = head.shown(names, invented, below, false);
    assert(s[pos + 0] == text[0]);
    assert(lambda_word()[0] == 'l');
    assert(lambda_letter()[0] == '\u{3bb}');
    match head {
        Expression::Primitive(num) => {
            let name = names[num as int];
            assert forall|i: int| 0 <= i < name.len() implies !white_space(#[trigger] name[i]) by {
                assert(!terminator(name[i]));
            }
            lemma_word_end(s, pos, name, 0);
            lemma_stands_at_subrange(s, pos, name);
        },
        _ => {
            assert(!white_space(s[pos]));
            let word = word_end(s, pos);
            assert(word >= pos + 1) by {
                lemma_word_end_bounds(s, pos + 1);
            }
            lemma_word_end_bounds(s, pos);
            assert(s.subrange(pos, word)[0] == s[pos]);
        },
    }
}

/// A word ends at or after the place where it begins, within the text.
pub proof fn lemma_word_end_bounds(s: Seq<char>, pos: int)
    requires
        0 <= pos <= s.len(),
    ensures
        pos <= word_end(s, pos) <= s.len(),
    decreases s.len() - pos,
{
    if pos < s.len() && !white_space(s[pos]) {
        lemma_word_end_bounds(s, pos + 1);
    }
}

/// The head of a legible application is legible, and it is no application.
pub proof fn lemma_spine_head_legible(
    expr: Expression,
    names: Seq<Seq<char>>,
    invented: Seq<Expression>,
    below: nat,
)
    requires
        expr.legible(names, invented, below),
    ensures
        spine_head(expr).legible(names, invented, below),
        !(spine_head(expr) is Application),
        expr is Application ==> !named_lambda(names, spine_head(expr)),
    decreases expr,
{
    match expr {
        Expression::Application(f, _) => {
            lemma_spine_head_legible(*f, names, invented, below);
        },
        _ => {},
    }
}

/// Reading the text of a legible expression gives the expression and the
/// position after the text, where white space, `)` or the end of the text
/// follows an index or a primitive. `rank` orders this lemma and the next
/// for the induction: an application is read through its items, every
/// other item through this lemma.
proof fn lemma_reads(
    expr: Expression,
    names: Seq<Seq<char>>,
    invented: Seq<Expression>,
    below: nat,
    s: Seq<char>,
    pos: int,
    rank: nat,
)
    requires
        expr.legible(names, invented, below),
        stands_at(s, pos, expr.shown(names, invented, below, false)),
        expr is Index || expr is Primitive ==> pos + expr.shown(names, invented, below, false).len()
            == s.len() || terminator(
            s[pos + expr.shown(names, invented, below, false).len()],
        ),
        rank == if expr is Application {
            2nat
        } else {
            0nat
        },
    ensures
        read_expression(names, invented, s, pos) == Ok::<(int, Expression), (int, Reason)>(
            (pos + expr.shown(names, invented, below, false).len(), expr),
        ),
    decreases below, expr, rank,
{
    let text = expr.shown(names, invented, below, false);
    let end = pos + text.len();
    lemma_shown_begins(expr, names, invented, below, false);
    assert(s[pos + 0] == text[0]);
    assert(!white_space(s[pos]));
    assert(skip_spaces(s, pos) == pos);
    match expr {
        Expression::Primitive(num) => {
            let name = names[num as int];
            lemma_token_end(s, pos, name, 0);
            lemma_stands_at_subrange(s, pos, name);
            if name[0] == '$' {
                if name.len() > 1 {
                    lemma_token_end(s, pos, name, 1);
                    assert(s.subrange(pos + 1, end) =~= name.subrange(1, name.len() as int));
                } else {
                    assert(token_end(s, pos + 1) == pos + 1);
                    assert(s.subrange(pos + 1, pos + 1) =~= name.subrange(1, name.len() as int));
                }
                assert(read_index(s, pos) is None);
            }
            if name[0] == '#' && pos + 1 < s.len() {
                if name.len() >= 2 {
                    assert(s[pos + 1] == name[1]);
                } else {
                    assert(terminator(s[pos + 1]));
                }
            }
        },
        Expression::Index(i) => {
            let numeral = decimal(i as nat);
            lemma_number_of_decimal(i);
            assert(text == seq!['$'] + numeral);
            lemma_stands_at_split(s, pos, seq!['$'], numeral);
            lemma_token_end(s, pos + 1, numeral, 0);
            lemma_stands_at_subrange(s, pos + 1, numeral);
        },
        Expression::Abstraction(body) => {
            let inner = body.shown(names, invented, below, false);
            let opening = seq!['(', '\u{3bb}', ' '];
            assert(text == opening + inner + seq![')']);
            lemma_stands_at_split(s, pos, opening + inner, seq![')']);
            lemma_stands_at_split(s, pos, opening, inner);
            assert(s[pos + 0] == opening[0]);
            assert(s[pos + 1] == opening[1]);
            assert(s[pos + 2] == opening[2]);
            assert(seq![')'][0] == ')');
            assert(s[pos + opening.len() + inner.len() + 0] == ')');
            lemma_shown_begins(*body, names, invented, below, false);
            assert(s[pos + 3 + 0] == inner[0]);
            assert(white_space(' '));
            assert(!white_space('\u{3bb}'));
            assert(word_end(s, pos + 2) == pos + 2);
            assert(word_end(s, pos + 1) == pos + 2);
            assert(s.subrange(pos + 1, pos + 2) =~= lambda_letter());
            assert(skip_spaces(s, pos + 3) == pos + 3);
            assert(skip_spaces(s, pos + 2) == pos + 3);
            lemma_reads(
                *body,
                names,
                invented,
                below,
                s,
                pos + 3,
                if *body is Application {
                    2nat
                } else {
                    0nat
                },
            );
        },
        Expression::Application(f, x) => {
            let inner = expr.shown(names, invented, below, true);
            assert(text == seq!['('] + inner + seq![')']);
            lemma_stands_at_split(s, pos, seq!['('] + inner, seq![')']);
            lemma_stands_at_split(s, pos, seq!['('], inner);
            assert(seq!['('][0] == '(');
            assert(s[pos + 0] == '(');
            assert(seq![')'][0] == ')');
            assert(s[pos + 1 + inner.len() + 0] == ')');
            lemma_application_word(expr, names, invented, below, s, pos + 1);
            lemma_reads_items(expr, names, invented, below, s, pos + 1, 1);
        },
        Expression::Invented(num) => {
            let definition = invented[num as int];
            let inner = definition.shown(names, invented, num as nat, false);
            assert(text == seq!['#'] + inner);
            lemma_stands_at_split(s, pos, seq!['#'], inner);
            assert(seq!['#'][0] == '#');
            assert(s[pos + 0] == '#');
            lemma_shown_begins(definition, names, invented, num as nat, false);
            assert(s[pos + 1 + 0] == inner[0]);
            assert(read_index(s, pos) is None);
            lemma_reads(
                definition,
                names,
                invented,
                num as nat,
                s,
                pos + 1,
                if definition is Application {
                    2nat
                } else {
                    0nat
                },
            );
        },
    }
}

/// Reading the items of an application from the text of a legible
/// expression, written as a function: where `)` follows an application, it
/// is complete; where a blank and another item follow, reading goes on
/// there with the expression as what has been applied so far.
proof fn lemma_reads_items(
    expr: Expression,
    names: Seq<Seq<char>>,
    invented: Seq<Expression>,
    below: nat,
    s: Seq<char>,
    pos: int,
    rank: nat,
)
    requires
        expr.legible(names, invented, below),
        stands_at(s, pos, expr.shown(names, invented, below, true)),
        pos + expr.shown(names, invented, below, true).len() < s.len(),
        ({
            let q = pos + expr.shown(names, invented, below, true).len();
            s[q] == ')' || (s[q] == ' ' && q + 1 < s.len() && !terminator(s[q + 1]))
        }),
        rank == 1,
    ensures
        ({
            let q = pos + expr.shown(names, invented, below, true).len();
            if s[q] == ')' {
                expr is Application ==> read_items(names, invented, s, pos, None) == Ok::<
                    (int, Expression),
                    (int, Reason),
                >((q + 1, expr))
            } else {
                read_items(names, invented, s, pos, None) == read_items(
                    names,
                    invented,
                    s,
                    q + 1,
                    Some(expr),
                )
            }
        }),
    decreases below, expr, rank,
{
    let text = expr.shown(names, invented, below, true);
    let q = pos + text.len();
    assert(white_space(' '));
    assert(skip_spaces(s, q) == if s[q] == ')' {
        q
    } else {
        q + 1
    }) by {
        if s[q] != ')' {
            assert(skip_spaces(s, q + 1) == q + 1);
        }
    }
    match expr {
        Expression::Application(f, x) => {
            let front = f.shown(names, invented, below, true);
            let back = x.shown(names, invented, below, false);
            assert(text == front + seq![' '] + back);
            lemma_stands_at_split(s, pos, front + seq![' '], back);
            lemma_stands_at_split(s, pos, front, seq![' ']);
            assert(seq![' '][0] == ' ');
            assert(s[pos + front.len() + 0] == ' ');
            lemma_shown_begins(*x, names, invented, below, false);
            assert(s[pos + front.len() + 1 + 0] == back[0]);
            lemma_reads_items(*f, names, invented, below, s, pos, 1);
            lemma_reads(
                *x,
                names,
                invented,
                below,
                s,
                pos + front.len() + 1,
                if *x is Application {
                    2nat
                } else {
                    0nat
                },
            );
        },
        _ => {
            lemma_shown_alike(expr, names, invented, below);
            lemma_reads(expr, names, invented, below, s, pos, 0);
        },
    }
}

impl Language {
    /// Whether the text of an expression of this language reads as the
    /// expression.
    pub open spec fn legible(self, expr: Expression) -> bool {
        expr.legible(
            self.primitive_names(),
            self.invented_expressions(),
            self.invented.len() as nat,
        )
    }
}

/// Reading what was written gives the expression back: `parse` inverts
/// `stringify` on every legible expression.
pub proof fn law_parse_inverts_stringify(dsl: Language, expr: Expression)
    requires
        dsl.legible(expr),
    ensures
        dsl.parsed(dsl.text_of(expr)) == Ok::<Expression, (int, Reason)>(expr),
{
    let names = dsl.primitive_names();
    let invented = dsl.invented_expressions();
    let below = dsl.invented.len() as nat;
    let text = dsl.text_of(expr);
    lemma_shown_begins(expr, names, invented, below, false);
    assert(skip_spaces(text, 0) == 0);
    assert(stands_at(text, 0, text));
    lemma_reads(
        expr,
        names,
        invented,
        below,
        text,
        0,
        if expr is Application {
            2nat
        } else {
            0nat
        },
    );
    assert(skip_spaces(text, text.len() as int) == text.len());
}

impl Language {
    /// Whether everything that is registered reads as it is written: every
    /// primitive has a plain name that no earlier primitive has, a
    /// primitive called `lambda` or `λ` is of a constructed type, so that
    /// it is applied to nothing, and every invention is the first with its
    /// definition, which is an application or an abstraction that reads as
    /// it is written.
    pub open spec fn plainly_written(self) -> bool {
        let names = self.primitive_names();
        let invented = self.invented_expressions();
        &&& forall|k: int|
            0 <= k < names.len() ==> {
                &&& plain_name(#[trigger] names[k])
                &&& position_from(names, names[k], 0) == Some(k)
                &&& names[k] == lambda_word() || names[k] == lambda_letter()
                    ==> self.primitive_types()[k] is Constructed
            }
        &&& forall|k: int|
            0 <= k < invented.len() ==> {
                &&& (#[trigger] invented[k]) is Application || invented[k] is Abstraction
                &&& invented[k].legible(names, invented, k as nat)
                &&& position_from(invented, invented[k], 0) == Some(k)
            }
    }

    /// Whether an expression is a reference to something registered, or an
    /// index.
    pub open spec fn is_head(self, expr: Expression) -> bool {
        match expr {
            Expression::Primitive(num) => num < self.primitives.len(),
            Expression::Invented(num) => num < self.invented.len(),
            Expression::Index(_) => true,
            _ => false,
        }
    }
}

/// In a language that is plainly written, every head reads as it is
/// written.
pub proof fn lemma_head_legible(dsl: Language, head: Expression)
    requires
        dsl.plainly_written(),
        dsl.is_head(head),
    ensures
        dsl.legible(head),
{
    let names = dsl.primitive_names();
    let invented = dsl.invented_expressions();
    match head {
        Expression::Primitive(num) => {
            assert(plain_name(names[num as int]));
        },
        Expression::Invented(num) => {
            assert(invented[num as int] is Application || invented[num as int] is Abstraction);
        },
        _ => {},
    }
}

/// An expression inside abstractions reads as it is written if it does
/// without them.
pub proof fn lemma_abstracted_legible(dsl: Language, expr: Expression, n: nat)
    requires
        dsl.legible(expr),
    ensures
        dsl.legible(abstracted(expr, n)),
    decreases n,
{
    if n > 0 {
        lemma_abstracted_legible(dsl, Expression::Abstraction(Box::new(expr)), (n - 1) as nat);
    }
}

/// The candidates among the first `n` primitives are primitives that are
/// registered.
pub proof fn lemma_primitive_candidates_heads(
    dsl: Language,
    request: TypeTerm,
    ctx: ContextState,
    n: nat,
)
    requires
        n <= dsl.primitives.len(),
    ensures
        forall|i: int|
            0 <= i < primitive_candidates(
                dsl.primitive_types(),
                dsl.primitives_logprob@,
                request,
                ctx,
                n,
            ).len() ==> {
                let head = (#[trigger] primitive_candidates(
                    dsl.primitive_types(),
                    dsl.primitives_logprob@,
                    request,
                    ctx,
                    n,
                )[i]).head;
                dsl.is_head(head) && !(head is Index)
            },
    decreases n,
{
    if n > 0 {
        lemma_primitive_candidates_heads(dsl, request, ctx, (n - 1) as nat);
    }
}

/// The candidates among the first `n` inventions are inventions that are
/// registered.
pub proof fn lemma_invented_candidates_heads(
    dsl: Language,
    request: TypeTerm,
    ctx: ContextState,
    n: nat,
)
    requires
        n <= dsl.invented.len(),
    ensures
        forall|i: int|
            0 <= i < invented_candidates(
                dsl.invented_types(),
                dsl.invented_logprob@,
                request,
                ctx,
                n,
            ).len() ==> {
                let head = (#[trigger] invented_candidates(
                    dsl.invented_types(),
                    dsl.invented_logprob@,
                    request,
                    ctx,
                    n,
                )[i]).head;
                dsl.is_head(head) && !(head is Index)
            },
    decreases n,
{
    if n > 0 {
        lemma_invented_candidates_heads(dsl, request, ctx, (n - 1) as nat);
    }
}

/// The candidates among bound variables are indices.
pub proof fn lemma_variable_candidates_heads(
    dsl: Language,
    env: Seq<TypeTerm>,
    request: TypeTerm,
    ctx: ContextState,
    n: nat,
)
    ensures
        forall|i: int|
            0 <= i < variable_candidates(env, dsl.variable_logprob, request, ctx, n).len()
                ==> dsl.is_head(
                (#[trigger] variable_candidates(env, dsl.variable_logprob, request, ctx, n)[i]).head,
            ),
    decreases n,
{
    if n > 0 {
        lemma_variable_candidates_heads(dsl, env, request, ctx, (n - 1) as nat);
    }
}

/// Every candidate is a head.
pub proof fn lemma_candidates_heads(
    dsl: Language,
    request: TypeTerm,
    ctx: ContextState,
    env: Seq<TypeTerm>,
)
    ensures
        forall|i: int|
            0 <= i < dsl.candidates_for(request, ctx, env).len() ==> dsl.is_head(
                (#[trigger] dsl.candidates_for(request, ctx, env)[i]).head,
            ),
{
    lemma_primitive_candidates_heads(dsl, request, ctx, dsl.weighted_primitives());
    lemma_invented_candidates_heads(dsl, request, ctx, dsl.weighted_inventions());
    lemma_variable_candidates_heads(dsl, env, request, ctx, env.len());
}

/// Whether no candidate called `lambda` or `λ` is a function.
pub open spec fn constants_apart(dsl: Language, candidates: Seq<CandidateModel>) -> bool {
    forall|i: int|
        0 <= i < candidates.len() ==> (named_lambda(
            dsl.primitive_names(),
            (#[trigger] candidates[i]).head,
        ) ==> !(candidates[i].tp is Arrow))
}

/// Among the first `n` primitives, no candidate called `lambda` or `λ` is a
/// function.
proof fn lemma_primitive_candidates_constants(
    dsl: Language,
    request: TypeTerm,
    ctx: ContextState,
    n: nat,
)
    requires
        dsl.plainly_written(),
        n <= dsl.primitives.len(),
    ensures
        constants_apart(
            dsl,
            primitive_candidates(dsl.primitive_types(), dsl.primitives_logprob@, request, ctx, n),
        ),
    decreases n,
{
    if n > 0 {
        lemma_primitive_candidates_constants(dsl, request, ctx, (n - 1) as nat);
        let names = dsl.primitive_names();
        assert(plain_name(names[n - 1]));
    }
}

/// No candidate among the inventions is a primitive.
proof fn lemma_invented_candidates_constants(
    dsl: Language,
    request: TypeTerm,
    ctx: ContextState,
    n: nat,
)
    ensures
        constants_apart(
            dsl,
            invented_candidates(dsl.invented_types(), dsl.invented_logprob@, request, ctx, n),
        ),
    decreases n,
{
    if n > 0 {
        lemma_invented_candidates_constants(dsl, request, ctx, (n - 1) as nat);
    }
}

/// No candidate among the bound variables is a primitive.
proof fn lemma_variable_candidates_constants(
    dsl: Language,
    env: Seq<TypeTerm>,
    request: TypeTerm,
    ctx: ContextState,
    n: nat,
)
    ensures
        constants_apart(dsl, variable_candidates(env, dsl.variable_logprob, request, ctx, n)),
    decreases n,
{
    if n > 0 {
        lemma_variable_candidates_constants(dsl, env, request, ctx, (n - 1) as nat);
    }
}

/// No candidate called `lambda` or `λ` is a function, in a language that
/// is plainly written.
pub proof fn lemma_candidates_constants(
    dsl: Language,
    request: TypeTerm,
    ctx: ContextState,
    env: Seq<TypeTerm>,
)
    requires
        dsl.plainly_written(),
    ensures
        constants_apart(dsl, dsl.candidates_for(request, ctx, env)),
{
    lemma_primitive_candidates_constants(dsl, request, ctx, dsl.weighted_primitives());
    lemma_invented_candidates_constants(dsl, request, ctx, dsl.weighted_inventions());
    lemma_variable_candidates_constants(dsl, env, request, ctx, env.len());
    let primitives = primitive_candidates(
        dsl.primitive_types(),
        dsl.primitives_logprob@,
        request,
        ctx,
        dsl.weighted_primitives(),
    );
    let inventions = invented_candidates(
        dsl.invented_types(),
        dsl.invented_logprob@,
        request,
        ctx,
        dsl.weighted_inventions(),
    );
    let variables = variable_candidates(env, dsl.variable_logprob, request, ctx, env.len());
    let all = dsl.candidates_for(request, ctx, env);
    assert forall|i: int| 0 <= i < all.len() implies (named_lambda(
        dsl.primitive_names(),
        (#[trigger] all[i]).head,
    ) ==> !(all[i].tp is Arrow)) by {
        if i < primitives.len() {
            assert(all[i] == primitives[i]);
        } else if i < primitives.len() + inventions.len() {
            assert(all[i] == inventions[i - primitives.len()]);
        } else {
            assert(all[i] == variables[i - primitives.len() - inventions.len()]);
        }
    }
}

/// What fills a place reads as it is written.
pub proof fn lemma_fills_legible(
    dsl: Language,
    weigh: Weigher,
    hi: nat,
    hole: HoleModel,
    ctx: ContextState,
    spent: nat,
)
    requires
        dsl.plainly_written(),
    ensures
        forall|i: int|
            0 <= i < fills(dsl, weigh, hi, hole, ctx, spent).len() ==> {
                let expr = (#[trigger] fills(dsl, weigh, hi, hole, ctx, spent)[i]).expr;
                dsl.legible(expr)
            },
    decreases hole.room, 1nat, hole.request, 0nat,
{
    let (request, env) = curried(hole.request, hole.env);
    let found = dsl.candidates_for(request, ctx, reversed(env));
    if !(spent >= hi || hole.room == 0 || env.len() > usize::MAX || found.len() == 0) {
        lemma_candidates_heads(dsl, request, ctx, reversed(env));
        lemma_candidates_constants(dsl, request, ctx, reversed(env));
        lemma_curried_grows(hole.request, hole.env);
        let opened = HoleModel {
            request,
            env,
            lambdas: (env.len() - hole.env.len()) as nat,
            room: (hole.room - 1) as nat,
        };
        lemma_picks_legible(
            dsl,
            weigh,
            hi,
            found,
            weigh(weights_of(found)),
            opened,
            spent,
            0,
        );
    }
}

/// Turning arguments into binders leaves the binders that there were.
pub proof fn lemma_curried_grows(request: TypeTerm, env: Seq<TypeTerm>)
    ensures
        curried(request, env).1.len() >= env.len(),
    decreases request,
{
    match request {
        TypeTerm::Arrow(arg, ret) => {
            lemma_curried_grows(*ret, env.push(*arg));
        },
        _ => {},
    }
}

/// What fills a place with one of the heads reads as it is written.
pub proof fn lemma_picks_legible(
    dsl: Language,
    weigh: Weigher,
    hi: nat,
    candidates: Seq<CandidateModel>,
    costs: Seq<u64>,
    hole: HoleModel,
    spent: nat,
    i: nat,
)
    requires
        dsl.plainly_written(),
        forall|k: int| 0 <= k < candidates.len() ==> dsl.is_head((#[trigger] candidates[k]).head),
        constants_apart(dsl, candidates),
    ensures
        forall|k: int|
            0 <= k < picks(dsl, weigh, hi, candidates, costs, hole, spent, i).len() ==> {
                let expr = (#[trigger] picks(
                    dsl,
                    weigh,
                    hi,
                    candidates,
                    costs,
                    hole,
                    spent,
                    i,
                )[k]).expr;
                dsl.legible(expr)
            },
    decreases hole.room, 3nat, hole.request, candidates.len() - i,
{
    if !(i >= candidates.len() || i >= costs.len()) {
        lemma_picks_legible(
            dsl,
            weigh,
            hi,
            candidates,
            costs,
            hole,
            spent,
            i + 1,
        );
        if spent + costs[i as int] < hi {
            let frame = FrameModel {
                f: candidates[i as int].head,
                pending: candidates[i as int].tp,
                env: hole.env,
                lambdas: hole.lambdas,
                room: hole.room,
            };
            lemma_head_legible(dsl, frame.f);
            assert(named_lambda(dsl.primitive_names(), candidates[i as int].head) ==> !(
            candidates[i as int].tp is Arrow));
            lemma_completes_legible(
                dsl,
                weigh,
                hi,
                frame,
                candidates[i as int].ctx,
                spent + costs[i as int] as nat,
            );
        }
    }
}

/// What an application becomes reads as it is written.
pub proof fn lemma_completes_legible(
    dsl: Language,
    weigh: Weigher,
    hi: nat,
    frame: FrameModel,
    ctx: ContextState,
    spent: nat,
)
    requires
        dsl.plainly_written(),
        dsl.legible(frame.f),
        frame.pending is Arrow ==> !named_lambda(dsl.primitive_names(), spine_head(frame.f)),
    ensures
        forall|k: int|
            0 <= k < completes(dsl, weigh, hi, frame, ctx, spent).len() ==> {
                let expr = (#[trigger] completes(dsl, weigh, hi, frame, ctx, spent)[k]).expr;
                dsl.legible(expr)
            },
    decreases frame.room, 2nat, frame.pending, 0nat,
{
    match frame.pending {
        TypeTerm::Arrow(arg, ret) => {
            let hole = HoleModel {
                request: ctx.apply(*arg),
                env: frame.env,
                lambdas: 0,
                room: frame.room,
            };
            lemma_fills_legible(dsl, weigh, hi, hole, ctx, spent);
            lemma_extends_legible(
                dsl,
                weigh,
                hi,
                FrameModel { pending: *ret, ..frame },
                fills(dsl, weigh, hi, hole, ctx, spent),
                0,
            );
        },
        _ => {
            lemma_abstracted_legible(dsl, frame.f, frame.lambdas);
        },
    }
}

/// What an application becomes with one of the arguments reads as it is
/// written.
pub proof fn lemma_extends_legible(
    dsl: Language,
    weigh: Weigher,
    hi: nat,
    frame: FrameModel,
    arguments: Seq<Found>,
    j: nat,
)
    requires
        dsl.plainly_written(),
        dsl.legible(frame.f),
        !named_lambda(dsl.primitive_names(), spine_head(frame.f)),
        forall|k: int| 0 <= k < arguments.len() ==> dsl.legible((#[trigger] arguments[k]).expr),
    ensures
        forall|k: int|
            0 <= k < extends(dsl, weigh, hi, frame, arguments, j).len() ==> {
                let expr = (#[trigger] extends(dsl, weigh, hi, frame, arguments, j)[k]).expr;
                dsl.legible(expr)
            },
    decreases frame.room, 2nat, frame.pending, 1 + arguments.len() - j,
{
    if j < arguments.len() {
        lemma_extends_legible(dsl, weigh, hi, frame, arguments, j + 1);
        let grown = applied_to(frame, arguments[j as int].expr);
        assert(dsl.legible(arguments[j as int].expr));
        lemma_completes_legible(
            dsl,
            weigh,
            hi,
            grown,
            arguments[j as int].ctx,
            arguments[j as int].spent,
        );
    }
}

/// Reading what was written gives back every expression that a search gives
/// out, in a language that is plainly written.
pub proof fn law_enumerated_reads_back(
    dsl: Language,
    weigh: Weigher,
    request: TypeTerm,
    lo: nat,
    hi: nat,
    i: int,
)
    requires
        dsl.plainly_written(),
        0 <= i < enumeration(dsl, weigh, request, lo, hi).len(),
    ensures
        dsl.parsed(dsl.text_of(enumeration(dsl, weigh, request, lo, hi)[i].0)) == Ok::<
            Expression,
            (int, Reason),
        >(enumeration(dsl, weigh, request, lo, hi)[i].0),
{
    let top = fills(dsl, weigh, hi, outermost(request), ContextState::empty(), 0);
    lemma_within_members(lo, hi, top, i);
    lemma_fills_legible(dsl, weigh, hi, outermost(request), ContextState::empty(), 0);
    let j = choose|j: int|
        0 <= j < top.len() && (#[trigger] top[j]).expr == within(lo, hi, top)[i].0 && top[j].spent
            == within(lo, hi, top)[i].1;
    law_parse_inverts_stringify(dsl, top[j].expr);
}

} // verus!
