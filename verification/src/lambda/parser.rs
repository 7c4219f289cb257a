//! The textual syntax of expressions: reading it.
//!
//! An expression is one of, tried in this order:
//!
//! * an abstraction `(λ BODY)` or `(lambda BODY)`;
//! * an application `(FUNCTION ARGUMENT ...)` with at least one argument,
//!   which applies the function to each argument in turn;
//! * an index `$N` with a number `N`;
//! * an invention `#(...)`, where what follows `#` reads as an expression
//!   that is registered as an invention;
//! * a primitive: the characters up to the next white space or `)`, which
//!   have to be the name of a registered primitive.

use vstd::prelude::*;
use super::expression::Expression;
use super::language::Language;
use super::text::{chars_of, is_whitespace, len_utf8, utf8_size, white_space};
use super::types::Type;

verus! {

/// Why a text is not an expression: the byte offset at which reading
/// stopped, and the reason.
#[derive(Debug, Clone, Copy, PartialEq, Eq)]
pub struct ParseError(pub usize, pub &'static str);

/// The reasons for which reading stops.
#[derive(Debug, Clone, Copy, PartialEq, Eq)]
pub enum Reason {
    /// Nothing that could start an expression stands here.
    NoVariant,
    /// The characters up to here are not the name of a primitive.
    UnknownPrimitive,
    /// The text ends inside parentheses, or an abstraction's body is not
    /// followed by `)`.
    Incomplete,
    /// One expression stands in parentheses without an argument.
    Alone,
    /// What follows `#` is not registered as an invention.
    Unfamiliar,
    /// Something other than white space follows the expression.
    Trailing,
}

impl Reason {
    /// The reason in words.
    pub open spec fn message(self) -> Seq<char> {
        match self {
            Reason::NoVariant => "could not parse any expression variant"@,
            Reason::UnknownPrimitive => "unexpected end of expression"@,
            Reason::Incomplete => "incomplete application"@,
            Reason::Alone => "application without an argument"@,
            Reason::Unfamiliar => "invented expr is unfamiliar to context"@,
            Reason::Trailing => "expected end of expression, found more tokens"@,
        }
    }

    /// The reason in words.
    pub fn words(self) -> (text: &'static str)
        ensures
            text@ == self.message(),
    {
        match self {
            Reason::NoVariant => "could not parse any expression variant",
            Reason::UnknownPrimitive => "unexpected end of expression",
            Reason::Incomplete => "incomplete application",
            Reason::Alone => "application without an argument",
            Reason::Unfamiliar => "invented expr is unfamiliar to context",
            Reason::Trailing => "expected end of expression, found more tokens",
        }
    }
}

/// The first position at or after `pos` that holds no white space, or the
/// length of the text.
pub open spec fn skip_spaces(s: Seq<char>, pos: int) -> int
    decreases s.len() - pos,
{
    if 0 <= pos < s.len() && white_space(s[pos]) {
        skip_spaces(s, pos + 1)
    } else {
        pos
    }
}

/// The first position at or after `pos` that holds white space, or the
/// length of the text.
pub open spec fn word_end(s: Seq<char>, pos: int) -> int
    decreases s.len() - pos,
{
    if 0 <= pos < s.len() && !white_space(s[pos]) {
        word_end(s, pos + 1)
    } else {
        pos
    }
}

/// Whether the character ends a name or a number.
pub open spec fn terminator(c: char) -> bool {
    white_space(c) || c == ')'
}

/// The first position at or after `pos` that holds white space or `)`, or
/// the length of the text.
pub open spec fn token_end(s: Seq<char>, pos: int) -> int
    decreases s.len() - pos,
{
    if 0 <= pos < s.len() && !terminator(s[pos]) {
        token_end(s, pos + 1)
    } else {
        pos
    }
}

/// The word that makes an abstraction, spelled out.
pub open spec fn lambda_word() -> Seq<char> {
    seq!['l', 'a', 'm', 'b', 'd', 'a']
}

/// The word that makes an abstraction, as the Greek letter.
pub open spec fn lambda_letter() -> Seq<char> {
    seq!['\u{3bb}']
}

/// Whether the character is a decimal digit.
pub open spec fn is_digit(c: char) -> bool {
    '0' <= c <= '9'
}

/// Whether all characters are decimal digits.
pub open spec fn all_digits(s: Seq<char>) -> bool {
    forall|i: int| 0 <= i < s.len() ==> is_digit(#[trigger] s[i])
}

/// The number that a sequence of digits denotes.
pub open spec fn digits_value(s: Seq<char>) -> nat
    decreases s.len(),
{
    if s.len() == 0 {
        0
    } else {
        (digits_value(s.drop_last()) * 10 + (s.last() as u32 - '0' as u32)) as nat
    }
}

/// The number that a numeral denotes: digits, at least one, after an
/// optional `+`, with a value that a `usize` holds.
pub open spec fn number(s: Seq<char>) -> Option<usize> {
    let digits = if s.len() > 0 && s[0] == '+' {
        s.subrange(1, s.len() as int)
    } else {
        s
    };
    if digits.len() > 0 && all_digits(digits) && digits_value(digits) <= usize::MAX {
        Some(digits_value(digits) as usize)
    } else {
        None
    }
}

/// The first position at or after `from` at which the sequence holds `x`.
pub open spec fn position_from<A>(xs: Seq<A>, x: A, from: int) -> Option<int>
    decreases xs.len() - from,
{
    if from < 0 || from >= xs.len() {
        None
    } else if xs[from] == x {
        Some(from)
    } else {
        position_from(xs, x, from + 1)
    }
}

/// What reading gives: the position after the expression and the
/// expression, or the position at which reading stopped and the reason.
/// Positions count characters.
pub type Reading = Result<(int, Expression), (int, Reason)>;

/// What reading an index at `pos` gives, if an index stands there: `$` and
/// a numeral that ends at white space, at `)` or with the text.
pub open spec fn read_index(s: Seq<char>, pos: int) -> Option<(int, Expression)> {
    let end = token_end(s, pos + 1);
    if 0 <= pos < s.len() && s[pos] == '$' {
        match number(s.subrange(pos + 1, end)) {
            Some(n) => Some((end, Expression::Index(n))),
            None => None,
        }
    } else {
        None
    }
}

/// What reading a primitive at `pos` gives.
pub open spec fn read_primitive(names: Seq<Seq<char>>, s: Seq<char>, pos: int) -> Reading {
    let end = token_end(s, pos);
    if 0 <= pos < end {
        match position_from(names, s.subrange(pos, end), 0) {
            Some(num) => Ok((end, Expression::Primitive(num as usize))),
            None => Err((end, Reason::UnknownPrimitive)),
        }
    } else {
        Err((pos, Reason::NoVariant))
    }
}

/// What reading an expression at `pos` gives.
pub open spec fn read_expression(
    names: Seq<Seq<char>>,
    invented: Seq<Expression>,
    s: Seq<char>,
    pos: int,
) -> Reading
    decreases s.len() - pos, 0nat,
{
    let open = skip_spaces(s, pos);
    if pos < 0 {
        Err((pos, Reason::NoVariant))
    } else if open < s.len() && s[open] == '(' {
        let word = word_end(s, open + 1);
        if word < s.len() && (s.subrange(open + 1, word) == lambda_word() || s.subrange(
            open + 1,
            word,
        ) == lambda_letter()) {
            let start = skip_spaces(s, word);
            if pos < start <= s.len() {
                match read_expression(names, invented, s, start) {
                    Ok((end, body)) => if end < s.len() && s[end] == ')' {
                        Ok((end + 1, Expression::Abstraction(Box::new(body))))
                    } else {
                        Err((end, Reason::Incomplete))
                    },
                    Err(stopped) => Err(stopped),
                }
            } else {
                Err((start, Reason::Incomplete))
            }
        } else if open + 1 > pos {
            read_items(names, invented, s, open + 1, None)
        } else {
            Err((open, Reason::Incomplete))
        }
    } else if read_index(s, pos) is Some {
        Ok(read_index(s, pos)->Some_0)
    } else if pos + 1 < s.len() && s[pos] == '#' && s[pos + 1] == '(' {
        match read_expression(names, invented, s, pos + 1) {
            Ok((end, definition)) => match position_from(invented, definition, 0) {
                Some(num) => Ok((end, Expression::Invented(num as usize))),
                None => Err((end, Reason::Unfamiliar)),
            },
            Err(stopped) => Err(stopped),
        }
    } else {
        read_primitive(names, s, pos)
    }
}

/// What reading the items of an application from `pos` on gives, where
/// `applied` is the application of the items read before.
pub open spec fn read_items(
    names: Seq<Seq<char>>,
    invented: Seq<Expression>,
    s: Seq<char>,
    pos: int,
    applied: Option<Expression>,
) -> Reading
    decreases s.len() - pos, 1nat,
{
    match read_expression(names, invented, s, pos) {
        Ok((end, item)) => {
            let so_far = match applied {
                Some(f) => Expression::Application(Box::new(f), Box::new(item)),
                None => item,
            };
            let next = skip_spaces(s, end);
            if next >= s.len() {
                Err((next, Reason::Incomplete))
            } else if s[next] == ')' {
                if applied is Some {
                    Ok((next + 1, so_far))
                } else {
                    Err((next, Reason::Alone))
                }
            } else if next > pos {
                read_items(names, invented, s, next, Some(so_far))
            } else {
                Err((next, Reason::Incomplete))
            }
        },
        Err(stopped) => Err(stopped),
    }
}

/// What reading a whole text gives: the expression that stands in it between
/// white space, or the position at which reading stopped and the reason.
pub open spec fn read_text(names: Seq<Seq<char>>, invented: Seq<Expression>, s: Seq<char>) -> Result<
    Expression,
    (int, Reason),
> {
    match read_expression(names, invented, s, skip_spaces(s, 0)) {
        Ok((end, expr)) => if skip_spaces(s, end) >= s.len() {
            Ok(expr)
        } else {
            Err((end, Reason::Trailing))
        },
        Err(stopped) => Err(stopped),
    }
}

/// Whether an outcome of reading is the one that the specification gives.
pub open spec fn same_reading(
    r: Result<(usize, Expression), (usize, Reason)>,
    expected: Reading,
) -> bool {
    match expected {
        Ok((end, expr)) => r is Ok && r->Ok_0.0 == end && r->Ok_0.1 == expr,
        Err((at, reason)) => r is Err && r->Err_0.0 == at && r->Err_0.1 == reason,
    }
}

/// The first position at or after `pos` that holds no white space.
fn skip(chars: &Vec<char>, pos: usize) -> (r: usize)
    requires
        pos <= chars.len(),
    ensures
        r == skip_spaces(chars@, pos as int),
        pos <= r <= chars.len(),
    decreases chars.len() - pos,
{
    if pos < chars.len() && is_whitespace(chars[pos]) {
        skip(chars, pos + 1)
    } else {
        pos
    }
}

/// The first position at or after `pos` that holds white space.
fn end_of_word(chars: &Vec<char>, pos: usize) -> (r: usize)
    requires
        pos <= chars.len(),
    ensures
        r == word_end(chars@, pos as int),
        pos <= r <= chars.len(),
    decreases chars.len() - pos,
{
    if pos < chars.len() && !is_whitespace(chars[pos]) {
        end_of_word(chars, pos + 1)
    } else {
        pos
    }
}

/// The first position at or after `pos` that holds white space or `)`.
fn end_of_token(chars: &Vec<char>, pos: usize) -> (r: usize)
    requires
        pos <= chars.len(),
    ensures
        r == token_end(chars@, pos as int),
        pos <= r <= chars.len(),
    decreases chars.len() - pos,
{
    if pos < chars.len() && !(is_whitespace(chars[pos]) || chars[pos] == ')') {
        end_of_token(chars, pos + 1)
    } else {
        pos
    }
}

/// Whether the characters from `from` up to `to` are those of `word`.
fn spells(chars: &Vec<char>, from: usize, to: usize, word: &Vec<char>) -> (r: bool)
    requires
        from <= to <= chars.len(),
    ensures
        r == (chars@.subrange(from as int, to as int) == word@),
{
    let ghost part = chars@.subrange(from as int, to as int);
    if to - from != word.len() {
        return false;
    }
    let mut i: usize = 0;
    while i < word.len()
        invariant
            i <= word.len(),
            from <= to <= chars.len(),
            to - from == word.len(),
            part == chars@.subrange(from as int, to as int),
            forall|j: int| 0 <= j < i ==> part[j] == word@[j],
        decreases word.len() - i,
    {
        if chars[from + i] != word[i] {
            assert(part[i as int] != word@[i as int]);
            return false;
        }
        i = i + 1;
    }
    assert(part =~= word@);
    true
}

/// Whether the characters from `from` up to `to` are a word that makes an
/// abstraction.
fn is_lambda(chars: &Vec<char>, from: usize, to: usize) -> (r: bool)
    requires
        from <= to <= chars.len(),
    ensures
        r == (chars@.subrange(from as int, to as int) == lambda_word() || chars@.subrange(
            from as int,
            to as int,
        ) == lambda_letter()),
{
    let ghost part = chars@.subrange(from as int, to as int);
    if to - from == 1 {
        assert(lambda_word().len() == 6);
        let r = chars[from] == '\u{3bb}';
        assert(part[0] == chars@[from as int]);
        assert(r ==> part =~= lambda_letter());
        assert(!r ==> part[0] != lambda_letter()[0]);
        r
    } else if to - from == 6 {
        assert(lambda_letter().len() == 1);
        let r = chars[from] == 'l' && chars[from + 1] == 'a' && chars[from + 2] == 'm' && chars[from
            + 3] == 'b' && chars[from + 4] == 'd' && chars[from + 5] == 'a';
        assert(part[0] == chars@[from as int]);
        assert(part[1] == chars@[from + 1]);
        assert(part[2] == chars@[from + 2]);
        assert(part[3] == chars@[from + 3]);
        assert(part[4] == chars@[from + 4]);
        assert(part[5] == chars@[from + 5]);
        assert(r ==> part =~= lambda_word());
        assert(!r ==> (part[0] != lambda_word()[0] || part[1] != lambda_word()[1] || part[2]
            != lambda_word()[2] || part[3] != lambda_word()[3] || part[4] != lambda_word()[4]
            || part[5] != lambda_word()[5]));
        r
    } else {
        assert(lambda_word().len() == 6);
        assert(lambda_letter().len() == 1);
        false
    }
}

/// The value of a digit string is at least the value of each of its
/// beginnings.
pub proof fn lemma_digits_value_grows(s: Seq<char>, n: int)
    requires
        all_digits(s),
        0 <= n <= s.len(),
    ensures
        digits_value(s.subrange(0, n)) <= digits_value(s),
    decreases s.len() - n,
{
    if n == s.len() {
        assert(s.subrange(0, n) =~= s);
    } else {
        lemma_digits_value_grows(s, n + 1);
        let longer = s.subrange(0, n + 1);
        assert(longer.drop_last() =~= s.subrange(0, n));
        assert(is_digit(s[n]));
        assert(longer.last() == s[n]);
        assert(digits_value(longer) == digits_value(s.subrange(0, n)) * 10 + (s[n] as u32
            - '0' as u32));
    }
}

/// The number that the characters from `from` up to `to` denote.
fn read_number(chars: &Vec<char>, from: usize, to: usize) -> (r: Option<usize>)
    requires
        from <= to <= chars.len(),
    ensures
        r == number(chars@.subrange(from as int, to as int)),
{
    let ghost numeral = chars@.subrange(from as int, to as int);
    let start = if from < to && chars[from] == '+' {
        from + 1
    } else {
        from
    };
    let ghost digits = chars@.subrange(start as int, to as int);
    assert(digits =~= if numeral.len() > 0 && numeral[0] == '+' {
        numeral.subrange(1, numeral.len() as int)
    } else {
        numeral
    });
    if start == to {
        return None;
    }
    let mut value: usize = 0;
    let mut i: usize = start;
    while i < to
        invariant
            start <= i <= to <= chars.len(),
            digits == chars@.subrange(start as int, to as int),
            numeral == chars@.subrange(from as int, to as int),
            digits == if numeral.len() > 0 && numeral[0] == '+' {
                numeral.subrange(1, numeral.len() as int)
            } else {
                numeral
            },
            all_digits(digits.subrange(0, i - start)),
            value == digits_value(digits.subrange(0, i - start)),
        decreases to - i,
    {
        let c = chars[i];
        let ghost before = digits.subrange(0, i - start);
        let ghost longer = digits.subrange(0, i - start + 1);
        assert(longer.drop_last() =~= before);
        assert(longer.last() == c);
        if !('0' <= c && c <= '9') {
            assert(!is_digit(digits[i - start]));
            return None;
        }
        let d = (c as u32 - '0' as u32) as usize;
        if value > (usize::MAX - d) / 10 {
            proof {
                assert(digits_value(longer) > usize::MAX);
                if all_digits(digits) {
                    lemma_digits_value_grows(digits, i - start + 1);
                }
            }
            return None;
        }
        value = value * 10 + d;
        assert forall|j: int| 0 <= j < longer.len() implies is_digit(#[trigger] longer[j]) by {
            if j < before.len() {
                assert(longer[j] == before[j]);
            }
        }
        i = i + 1;
    }
    assert(digits.subrange(0, i - start) =~= digits);
    Some(value)
}

/// The position of the first primitive whose name the characters from
/// `from` up to `to` spell.
fn find_name(names: &Vec<Vec<char>>, chars: &Vec<char>, from: usize, to: usize) -> (r: Option<
    usize,
>)
    requires
        from <= to <= chars.len(),
    ensures
        match position_from(
            Seq::new(names.len() as nat, |i: int| names@[i]@),
            chars@.subrange(from as int, to as int),
            0,
        ) {
            Some(num) => r == Some(num as usize) && num < names.len(),
            None => r is None,
        },
{
    let ghost all = Seq::new(names.len() as nat, |i: int| names@[i]@);
    let ghost token = chars@.subrange(from as int, to as int);
    let mut i: usize = 0;
    while i < names.len()
        invariant
            i <= names.len(),
            from <= to <= chars.len(),
            all == Seq::new(names.len() as nat, |i: int| names@[i]@),
            token == chars@.subrange(from as int, to as int),
            position_from(all, token, 0) == position_from(all, token, i as int),
        decreases names.len() - i,
    {
        if spells(chars, from, to, &names[i]) {
            return Some(i);
        }
        i = i + 1;
    }
    None
}

/// The position of the first invention that is the given expression.
fn find_invention(invented: &Vec<(Expression, Type)>, expr: &Expression) -> (r: Option<usize>)
    ensures
        match position_from(Seq::new(invented.len() as nat, |i: int| invented@[i].0), *expr, 0) {
            Some(num) => r == Some(num as usize) && num < invented.len(),
            None => r is None,
        },
{
    let ghost all = Seq::new(invented.len() as nat, |i: int| invented@[i].0);
    let mut i: usize = 0;
    while i < invented.len()
        invariant
            i <= invented.len(),
            all == Seq::new(invented.len() as nat, |i: int| invented@[i].0),
            position_from(all, *expr, 0) == position_from(all, *expr, i as int),
        decreases invented.len() - i,
    {
        if invented[i].0.same(expr) {
            return Some(i);
        }
        i = i + 1;
    }
    None
}

/// Reads an expression at `pos`.
fn parse_expression(
    names: &Vec<Vec<char>>,
    invented: &Vec<(Expression, Type)>,
    chars: &Vec<char>,
    pos: usize,
) -> (r: Result<(usize, Expression), (usize, Reason)>)
    requires
        pos <= chars.len(),
    ensures
        same_reading(
            r,
            read_expression(
                Seq::new(names.len() as nat, |i: int| names@[i]@),
                Seq::new(invented.len() as nat, |i: int| invented@[i].0),
                chars@,
                pos as int,
            ),
        ),
        r matches Ok(done) ==> pos < done.0 <= chars.len(),
        r matches Err(stopped) ==> stopped.0 <= chars.len(),
    decreases chars.len() - pos, 0nat,
{
    let open = skip(chars, pos);
    if open < chars.len() && chars[open] == '(' {
        let word = end_of_word(chars, open + 1);
        if word < chars.len() && is_lambda(chars, open + 1, word) {
            let start = skip(chars, word);
            match parse_expression(names, invented, chars, start) {
                Ok((end, body)) => {
                    if end < chars.len() && chars[end] == ')' {
                        Ok((end + 1, Expression::Abstraction(Box::new(body))))
                    } else {
                        Err((end, Reason::Incomplete))
                    }
                },
                Err(stopped) => Err(stopped),
            }
        } else {
            parse_items(names, invented, chars, open + 1, None)
        }
    } else if pos < chars.len() && chars[pos] == '$' {
        let end = end_of_token(chars, pos + 1);
        match read_number(chars, pos + 1, end) {
            Some(n) => Ok((end, Expression::Index(n))),
            None => parse_primitive(names, chars, pos),
        }
    } else if pos < chars.len() && chars[pos] == '#' && pos + 1 < chars.len() && chars[pos + 1]
        == '(' {
        match parse_expression(names, invented, chars, pos + 1) {
            Ok((end, definition)) => match find_invention(invented, &definition) {
                Some(num) => Ok((end, Expression::Invented(num))),
                None => Err((end, Reason::Unfamiliar)),
            },
            Err(stopped) => Err(stopped),
        }
    } else {
        parse_primitive(names, chars, pos)
    }
}

/// Reads a primitive at `pos`.
fn parse_primitive(names: &Vec<Vec<char>>, chars: &Vec<char>, pos: usize) -> (r: Result<
    (usize, Expression),
    (usize, Reason),
>)
    requires
        pos <= chars.len(),
    ensures
        same_reading(
            r,
            read_primitive(Seq::new(names.len() as nat, |i: int| names@[i]@), chars@, pos as int),
        ),
        r matches Ok(done) ==> pos < done.0 <= chars.len(),
        r matches Err(stopped) ==> stopped.0 <= chars.len(),
{
    let end = end_of_token(chars, pos);
    if pos < end {
        match find_name(names, chars, pos, end) {
            Some(num) => Ok((end, Expression::Primitive(num))),
            None => Err((end, Reason::UnknownPrimitive)),
        }
    } else {
        Err((pos, Reason::NoVariant))
    }
}

/// Reads the items of an application from `pos` on.
fn parse_items(
    names: &Vec<Vec<char>>,
    invented: &Vec<(Expression, Type)>,
    chars: &Vec<char>,
    pos: usize,
    applied: Option<Expression>,
) -> (r: Result<(usize, Expression), (usize, Reason)>)
    requires
        pos <= chars.len(),
    ensures
        same_reading(
            r,
            read_items(
                Seq::new(names.len() as nat, |i: int| names@[i]@),
                Seq::new(invented.len() as nat, |i: int| invented@[i].0),
                chars@,
                pos as int,
                applied,
            ),
        ),
        r matches Ok(done) ==> pos < done.0 <= chars.len(),
        r matches Err(stopped) ==> stopped.0 <= chars.len(),
    decreases chars.len() - pos, 1nat,
{
    match parse_expression(names, invented, chars, pos) {
        Ok((end, item)) => {
            let first = applied.is_none();
            let so_far = match applied {
                Some(f) => Expression::Application(Box::new(f), Box::new(item)),
                None => item,
            };
            let next = skip(chars, end);
            if next >= chars.len() {
                Err((next, Reason::Incomplete))
            } else if chars[next] == ')' {
                if first {
                    Err((next, Reason::Alone))
                } else {
                    Ok((next + 1, so_far))
                }
            } else {
                parse_items(names, invented, chars, next, Some(so_far))
            }
        },
        Err(stopped) => Err(stopped),
    }
}

/// The UTF-8 size of a text is at least that of each of its beginnings.
pub proof fn lemma_utf8_size_grows(s: Seq<char>, n: int)
    requires
        0 <= n <= s.len(),
    ensures
        utf8_size(s.subrange(0, n)) <= utf8_size(s),
    decreases s.len() - n,
{
    if n == s.len() {
        assert(s.subrange(0, n) =~= s);
    } else {
        lemma_utf8_size_grows(s, n + 1);
        assert(s.subrange(0, n + 1).drop_last() =~= s.subrange(0, n));
    }
}

/// The number of bytes that the first `at` characters take in UTF-8.
fn byte_offset(chars: &Vec<char>, at: usize) -> (r: usize)
    requires
        at <= chars.len(),
        utf8_size(chars@) <= usize::MAX,
    ensures
        r == utf8_size(chars@.subrange(0, at as int)),
{
    let mut bytes: usize = 0;
    let mut i: usize = 0;
    while i < at
        invariant
            i <= at <= chars.len(),
            utf8_size(chars@) <= usize::MAX,
            bytes == utf8_size(chars@.subrange(0, i as int)),
        decreases at - i,
    {
        proof {
            lemma_utf8_size_grows(chars@, i + 1);
            assert(chars@.subrange(0, i + 1).drop_last() =~= chars@.subrange(0, i as int));
        }
        bytes = bytes + len_utf8(chars[i]);
        i = i + 1;
    }
    bytes
}

impl Language {
    /// What reading a text as an expression of this language gives.
    pub open spec fn parsed(self, text: Seq<char>) -> Result<Expression, (int, Reason)> {
        read_text(self.primitive_names(), self.invented_expressions(), text)
    }

    /// Reads an expression from its text. White space may stand before and
    /// after it; anything else after it is an error. The error names the
    /// byte at which reading stopped. The inverse of
    /// [`stringify`](Language::stringify).
    pub fn parse(&self, inp: &str) -> (r: Result<Expression, ParseError>)
        ensures
            match self.parsed(inp@) {
                Ok(expr) => r == Ok::<Expression, ParseError>(expr),
                Err((at, reason)) => {
                    &&& r is Err
                    &&& 0 <= at <= inp@.len()
                    &&& r->Err_0.0 == utf8_size(inp@.subrange(0, at))
                    &&& r->Err_0.1@ == reason.message()
                },
            },
    {
        let chars = chars_of(inp);
        let names = self.names();
        assert(Seq::new(names.len() as nat, |i: int| names@[i]@) =~= self.primitive_names());
        let start = skip(&chars, 0);
        match parse_expression(&names, &self.invented, &chars, start) {
            Ok((end, expr)) => {
                if skip(&chars, end) >= chars.len() {
                    Ok(expr)
                } else {
                    Err(ParseError(byte_offset(&chars, end), Reason::Trailing.words()))
                }
            },
            Err((at, reason)) => Err(ParseError(byte_offset(&chars, at), reason.words())),
        }
    }
}

} // verus!

