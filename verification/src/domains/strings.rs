//! The string editing domain, for problems in the style of Flashfill: the
//! values that expressions of the domain take, and what each primitive
//! makes of values.
//!
//! The primitives and their types:
//!
//! ```text
//! 0            int
//! +1           int → int
//! -1           int → int
//! len          str → int
//! empty_str    str
//! lower        str → str
//! upper        str → str
//! concat       str → str → str
//! slice        int → int → str → str
//! nth          int → list(str) → str
//! map-to-nums  (t0 → int) → list(t0) → list(int)
//! map-to-strs  (t0 → str) → list(t0) → list(str)
//! strip        str → str
//! split        char → str → list(str)
//! join         str → list(str) → str
//! char->str    char → str
//! space . , < > / @ - |    char
//! ```

use vstd::prelude::*;
use crate::lambda::language::Language;
use crate::lambda::parser::skip_spaces;
use crate::lambda::text::{
    chars_of, is_whitespace, len_utf8, push_all, same_chars, string_of, utf8_size, white_space,
};
use crate::lambda::types::{Type, TypeTerm};

verus! {

/// A value of the domain.
#[derive(Debug, Clone)]
pub enum Space {
    Num(i32),
    Char(char),
    Str(String),
    StrList(Vec<String>),
    NumList(Vec<i32>),
    /// A function that was lifted to a value, by the number under which
    /// its holder keeps it.
    Func(usize),
}

/// The mathematical value of a [`Space`].
pub enum SpaceValue {
    Num(i32),
    Char(char),
    Str(Seq<char>),
    StrList(Seq<Seq<char>>),
    NumList(Seq<i32>),
    Func(usize),
}

/// The texts of a sequence of strings.
pub open spec fn texts(strings: Seq<String>) -> Seq<Seq<char>> {
    Seq::new(strings.len(), |i: int| strings[i]@)
}

impl View for Space {
    type V = SpaceValue;

    open spec fn view(&self) -> SpaceValue {
        match self {
            Space::Num(x) => SpaceValue::Num(*x),
            Space::Char(c) => SpaceValue::Char(*c),
            Space::Str(s) => SpaceValue::Str(s@),
            Space::StrList(ss) => SpaceValue::StrList(texts(ss@)),
            Space::NumList(xs) => SpaceValue::NumList(xs@),
            Space::Func(f) => SpaceValue::Func(*f),
        }
    }
}

/// The mathematical values of a sequence of values.
pub open spec fn values(inps: Seq<Space>) -> Seq<SpaceValue> {
    Seq::new(inps.len(), |i: int| inps[i]@)
}

/// Whether two values are equal: numbers, characters, strings and lists
/// are equal where they hold the same; a function is equal to nothing, not
/// even to itself.
pub open spec fn equal(a: SpaceValue, b: SpaceValue) -> bool {
    a == b && !(a is Func)
}

/// The primitives of the domain.
#[derive(Debug, Clone, Copy, PartialEq, Eq)]
pub enum Op {
    Zero,
    Incr,
    Decr,
    Len,
    Empty,
    Lower,
    Upper,
    Concat,
    Slice,
    Nth,
    MapToNums,
    MapToStrs,
    Strip,
    Split,
    Join,
    CharToStr,
    CharSpace,
    CharDot,
    CharComma,
    CharLess,
    CharGreater,
    CharSlash,
    CharAt,
    CharDash,
    CharPipe,
}

/// The primitive of a name.
pub open spec fn operation_of(name: Seq<char>) -> Option<Op> {
    if name == "0"@ {
        Some(Op::Zero)
    } else if name == "+1"@ {
        Some(Op::Incr)
    } else if name == "-1"@ {
        Some(Op::Decr)
    } else if name == "len"@ {
        Some(Op::Len)
    } else if name == "empty_str"@ {
        Some(Op::Empty)
    } else if name == "lower"@ {
        Some(Op::Lower)
    } else if name == "upper"@ {
        Some(Op::Upper)
    } else if name == "concat"@ {
        Some(Op::Concat)
    } else if name == "slice"@ {
        Some(Op::Slice)
    } else if name == "nth"@ {
        Some(Op::Nth)
    } else if name == "map-to-nums"@ {
        Some(Op::MapToNums)
    } else if name == "map-to-strs"@ {
        Some(Op::MapToStrs)
    } else if name == "strip"@ {
        Some(Op::Strip)
    } else if name == "split"@ {
        Some(Op::Split)
    } else if name == "join"@ {
        Some(Op::Join)
    } else if name == "char->str"@ {
        Some(Op::CharToStr)
    } else if name == "space"@ {
        Some(Op::CharSpace)
    } else if name == "."@ {
        Some(Op::CharDot)
    } else if name == ","@ {
        Some(Op::CharComma)
    } else if name == "<"@ {
        Some(Op::CharLess)
    } else if name == ">"@ {
        Some(Op::CharGreater)
    } else if name == "/"@ {
        Some(Op::CharSlash)
    } else if name == "@"@ {
        Some(Op::CharAt)
    } else if name == "-"@ {
        Some(Op::CharDash)
    } else if name == "|"@ {
        Some(Op::CharPipe)
    } else {
        None
    }
}

/// What `str::to_lowercase` makes of a text.
pub uninterp spec fn lowercased(s: Seq<char>) -> Seq<char>;

/// What `str::to_uppercase` makes of a text.
pub uninterp spec fn uppercased(s: Seq<char>) -> Seq<char>;

/// The position after the last character of the text that is no white
/// space, or 0.
pub open spec fn trimmed_end(s: Seq<char>) -> int
    decreases s.len(),
{
    if s.len() > 0 && white_space(s.last()) {
        trimmed_end(s.drop_last())
    } else {
        s.len() as int
    }
}

/// The text without the white space at its beginning and at its end.
pub open spec fn trimmed(s: Seq<char>) -> Seq<char> {
    if skip_spaces(s, 0) < trimmed_end(s) {
        s.subrange(skip_spaces(s, 0), trimmed_end(s))
    } else {
        Seq::empty()
    }
}

/// The first position at or after `from` that holds `c`, or the length of
/// the text.
pub open spec fn first_of(s: Seq<char>, c: char, from: int) -> int
    decreases s.len() - from,
{
    if 0 <= from < s.len() && s[from] != c {
        first_of(s, c, from + 1)
    } else {
        from
    }
}

/// The pieces of the text between the occurrences of `c`: one more than
/// there are occurrences.
pub open spec fn split_by(s: Seq<char>, c: char) -> Seq<Seq<char>>
    decreases s.len(),
{
    let i = first_of(s, c, 0);
    if 0 <= i < s.len() {
        seq![s.subrange(0, i)] + split_by(s.subrange(i + 1, s.len() as int), c)
    } else {
        seq![s]
    }
}

/// The texts one after the other, with `delim` between each two.
pub open spec fn joined(pieces: Seq<Seq<char>>, delim: Seq<char>) -> Seq<char>
    decreases pieces.len(),
{
    if pieces.len() == 0 {
        Seq::empty()
    } else if pieces.len() == 1 {
        pieces[0]
    } else {
        joined(pieces.drop_last(), delim) + delim + pieces.last()
    }
}

/// The characters of the text from position `x` up to position `y`. A
/// position beyond the text is the end of the text; so is a negative `x`,
/// and so is `y` where it lies before `x`.
pub open spec fn sliced(s: Seq<char>, x: int, y: int) -> Seq<char> {
    let from = if x < 0 || x > s.len() {
        s.len() as int
    } else {
        x
    };
    let to = if y < x || from + (y - x) > s.len() {
        s.len() as int
    } else {
        from + (y - x)
    };
    s.subrange(from, to)
}

/// What a primitive makes of values, or `None` where it is not defined on
/// them: where there are too few of them or they are not of the primitive's
/// types, and where a number would leave the range of numbers. The
/// primitives that apply a function are defined by whoever holds the
/// functions, not here.
pub open spec fn evaluated(op: Op, inps: Seq<SpaceValue>) -> Option<SpaceValue> {
    match op {
        Op::Zero => Some(SpaceValue::Num(0)),
        Op::Incr => if inps.len() >= 1 && inps[0] is Num && inps[0]->Num_0 < i32::MAX {
            Some(SpaceValue::Num((inps[0]->Num_0 + 1) as i32))
        } else {
            None
        },
        Op::Decr => if inps.len() >= 1 && inps[0] is Num && inps[0]->Num_0 > i32::MIN {
            Some(SpaceValue::Num((inps[0]->Num_0 - 1) as i32))
        } else {
            None
        },
        Op::Len => if inps.len() >= 1 && inps[0] is Str {
            Some(SpaceValue::Num(utf8_size(inps[0]->Str_0) as i32))
        } else {
            None
        },
        Op::Empty => Some(SpaceValue::Str(Seq::empty())),
        Op::Lower => if inps.len() >= 1 && inps[0] is Str {
            Some(SpaceValue::Str(lowercased(inps[0]->Str_0)))
        } else {
            None
        },
        Op::Upper => if inps.len() >= 1 && inps[0] is Str {
            Some(SpaceValue::Str(uppercased(inps[0]->Str_0)))
        } else {
            None
        },
        Op::Concat => if inps.len() >= 2 && inps[0] is Str && inps[1] is Str {
            Some(SpaceValue::Str(inps[0]->Str_0 + inps[1]->Str_0))
        } else {
            None
        },
        Op::Slice => if inps.len() >= 3 && inps[0] is Num && inps[1] is Num && inps[2] is Str
            && i32::MIN <= inps[1]->Num_0 - inps[0]->Num_0 <= i32::MAX {
            Some(
                SpaceValue::Str(
                    sliced(inps[2]->Str_0, inps[0]->Num_0 as int, inps[1]->Num_0 as int),
                ),
            )
        } else {
            None
        },
        Op::Nth => if inps.len() >= 2 && inps[0] is Num && inps[1] is StrList {
            if 0 <= inps[0]->Num_0 < inps[1]->StrList_0.len() {
                Some(SpaceValue::Str(inps[1]->StrList_0[inps[0]->Num_0 as int]))
            } else {
                Some(SpaceValue::Str(Seq::empty()))
            }
        } else {
            None
        },
        Op::MapToNums => None,
        Op::MapToStrs => None,
        Op::Strip => if inps.len() >= 1 && inps[0] is Str {
            Some(SpaceValue::Str(trimmed(inps[0]->Str_0)))
        } else {
            None
        },
        Op::Split => if inps.len() >= 2 && inps[0] is Char && inps[1] is Str {
            Some(SpaceValue::StrList(split_by(inps[1]->Str_0, inps[0]->Char_0)))
        } else {
            None
        },
        Op::Join => if inps.len() >= 2 && inps[0] is Str && inps[1] is StrList {
            Some(SpaceValue::Str(joined(inps[1]->StrList_0, inps[0]->Str_0)))
        } else {
            None
        },
        Op::CharToStr => if inps.len() >= 1 && inps[0] is Char {
            Some(SpaceValue::Str(seq![inps[0]->Char_0]))
        } else {
            None
        },
        Op::CharSpace => Some(SpaceValue::Char(' ')),
        Op::CharDot => Some(SpaceValue::Char('.')),
        Op::CharComma => Some(SpaceValue::Char(',')),
        Op::CharLess => Some(SpaceValue::Char('<')),
        Op::CharGreater => Some(SpaceValue::Char('>')),
        Op::CharSlash => Some(SpaceValue::Char('/')),
        Op::CharAt => Some(SpaceValue::Char('@')),
        Op::CharDash => Some(SpaceValue::Char('-')),
        Op::CharPipe => Some(SpaceValue::Char('|')),
    }
}

/// What the primitive of a name makes of values, or `None` where there is
/// no such primitive or it is not defined on the values.
pub open spec fn evaluation(name: Seq<char>, inps: Seq<SpaceValue>) -> Option<SpaceValue> {
    match operation_of(name) {
        Some(op) => evaluated(op, inps),
        None => None,
    }
}

/// `str::to_lowercase`: the text in lower case.
#[verifier::external_body]
fn to_lowercase(s: &str) -> (r: String)
    ensures
        r@ == lowercased(s@),
{
    s.to_lowercase()
}

/// `str::to_uppercase`: the text in upper case.
#[verifier::external_body]
fn to_uppercase(s: &str) -> (r: String)
    ensures
        r@ == uppercased(s@),
{
    s.to_uppercase()
}

/// The text without the white space at its beginning and at its end.
fn trim(chars: &Vec<char>) -> (r: Vec<char>)
    ensures
        r@ == trimmed(chars@),
{
    let mut start: usize = 0;
    while start < chars.len() && is_whitespace(chars[start])
        invariant
            start <= chars.len(),
            skip_spaces(chars@, 0) == skip_spaces(chars@, start as int),
        decreases chars.len() - start,
    {
        start = start + 1;
    }
    let mut end: usize = chars.len();
    assert(chars@.subrange(0, chars.len() as int) =~= chars@);
    while end > 0 && is_whitespace(chars[end - 1])
        invariant
            end <= chars.len(),
            trimmed_end(chars@) == trimmed_end(chars@.subrange(0, end as int)),
        decreases end,
    {
        assert(chars@.subrange(0, end as int).drop_last() =~= chars@.subrange(0, end - 1));
        end = end - 1;
    }
    assert(trimmed_end(chars@.subrange(0, end as int)) == end);
    if start < end {
        part(chars, start, end)
    } else {
        Vec::new()
    }
}

/// The characters from position `from` up to position `to`.
fn part(chars: &Vec<char>, from: usize, to: usize) -> (r: Vec<char>)
    requires
        from <= to <= chars.len(),
    ensures
        r@ == chars@.subrange(from as int, to as int),
{
    let mut r: Vec<char> = Vec::new();
    let mut i: usize = from;
    while i < to
        invariant
            from <= i <= to <= chars.len(),
            r@ == chars@.subrange(from as int, i as int),
        decreases to - i,
    {
        r.push(chars[i]);
        i = i + 1;
        assert(r@ =~= chars@.subrange(from as int, i as int));
    }
    r
}

/// Splitting the rest of a text after its first piece.
proof fn lemma_split_by_rest(s: Seq<char>, c: char, from: int)
    requires
        0 <= from <= s.len(),
    ensures
        first_of(s.subrange(from, s.len() as int), c, 0) + from == first_of(s, c, from),
{
    lemma_first_of_shift(s, c, from, 0);
}

/// The first occurrence in the rest of a text is the first occurrence in
/// the text from there on.
proof fn lemma_first_of_shift(s: Seq<char>, c: char, from: int, k: int)
    requires
        0 <= from <= s.len(),
        0 <= k <= s.len() - from,
    ensures
        first_of(s.subrange(from, s.len() as int), c, k) + from == first_of(s, c, from + k),
    decreases s.len() - from - k,
{
    let rest = s.subrange(from, s.len() as int);
    if k < rest.len() {
        assert(rest[k] == s[from + k]);
        if rest[k] != c {
            lemma_first_of_shift(s, c, from, k + 1);
        }
    }
}

/// The pieces of the text between the occurrences of `c`.
fn split(chars: &Vec<char>, c: char) -> (r: Vec<String>)
    ensures
        texts(r@) == split_by(chars@, c),
{
    let mut r: Vec<String> = Vec::new();
    let mut start: usize = 0;
    assert(chars@.subrange(0, chars.len() as int) =~= chars@);
    assert(texts(r@) + split_by(chars@.subrange(0, chars.len() as int), c) =~= split_by(chars@, c));
    loop
        invariant_except_break
            start <= chars.len(),
            split_by(chars@, c) == texts(r@) + split_by(
                chars@.subrange(start as int, chars.len() as int),
                c,
            ),
        ensures
            texts(r@) == split_by(chars@, c),
        decreases chars.len() - start,
    {
        let ghost rest = chars@.subrange(start as int, chars.len() as int);
        let ghost before = texts(r@);
        let mut end: usize = start;
        while end < chars.len() && chars[end] != c
            invariant
                start <= end <= chars.len(),
                first_of(chars@, c, start as int) == first_of(chars@, c, end as int),
            decreases chars.len() - end,
        {
            end = end + 1;
        }
        proof {
            lemma_split_by_rest(chars@, c, start as int);
        }
        let piece = string_of(&part(chars, start, end));
        r.push(piece);
        if end < chars.len() {
            proof {
                assert(rest.subrange(0, end - start) =~= chars@.subrange(start as int, end as int));
                assert(rest.subrange(end - start + 1, rest.len() as int) =~= chars@.subrange(
                    end + 1,
                    chars.len() as int,
                ));
                assert(texts(r@) =~= before + seq![piece@]);
                let later = split_by(chars@.subrange(end + 1, chars.len() as int), c);
                assert((before + seq![piece@]) + later =~= before + (seq![piece@] + later));
            }
            start = end + 1;
        } else {
            proof {
                assert(rest =~= chars@.subrange(start as int, end as int));
                assert(texts(r@) =~= before + seq![piece@]);
            }
            break ;
        }
    }
    r
}

/// The texts one after the other, with `delim` between each two.
fn join(pieces: &Vec<String>, delim: &Vec<char>) -> (r: Vec<char>)
    ensures
        r@ == joined(texts(pieces@), delim@),
{
    let mut r: Vec<char> = Vec::new();
    let mut i: usize = 0;
    assert(texts(pieces@).subrange(0, 0) =~= Seq::empty());
    while i < pieces.len()
        invariant
            i <= pieces.len(),
            r@ == joined(texts(pieces@).subrange(0, i as int), delim@),
        decreases pieces.len() - i,
    {
        let ghost before = texts(pieces@).subrange(0, i as int);
        let ghost longer = texts(pieces@).subrange(0, i + 1);
        assert(longer.drop_last() =~= before);
        assert(longer.last() == pieces@[i as int]@);
        if i > 0 {
            push_all(&mut r, delim);
        }
        push_all(&mut r, &chars_of(pieces[i].as_str()));
        proof {
            if i == 0 {
                assert(longer[0] == pieces@[0]@);
                assert(r@ =~= longer[0]);
            }
        }
        i = i + 1;
    }
    assert(texts(pieces@).subrange(0, pieces.len() as int) =~= texts(pieces@));
    r
}

/// The number of bytes that the characters take in UTF-8.
fn byte_length(chars: &Vec<char>) -> (n: usize)
    requires
        utf8_size(chars@) <= usize::MAX,
    ensures
        n == utf8_size(chars@),
{
    let mut n: usize = 0;
    let mut i: usize = 0;
    while i < chars.len()
        invariant
            i <= chars.len(),
            utf8_size(chars@) <= usize::MAX,
            n == utf8_size(chars@.subrange(0, i as int)),
        decreases chars.len() - i,
    {
        proof {
            crate::lambda::parser::lemma_utf8_size_grows(chars@, i + 1);
            assert(chars@.subrange(0, i + 1).drop_last() =~= chars@.subrange(0, i as int));
        }
        n = n + len_utf8(chars[i]);
        i = i + 1;
    }
    assert(chars@.subrange(0, chars.len() as int) =~= chars@);
    n
}

/// The primitive of a name.
fn operation(name: &str) -> (op: Option<Op>)
    ensures
        op == operation_of(name@),
{
    let name = chars_of(name);
    if same_chars(&name, &chars_of("0")) {
        Some(Op::Zero)
    } else if same_chars(&name, &chars_of("+1")) {
        Some(Op::Incr)
    } else if same_chars(&name, &chars_of("-1")) {
        Some(Op::Decr)
    } else if same_chars(&name, &chars_of("len")) {
        Some(Op::Len)
    } else if same_chars(&name, &chars_of("empty_str")) {
        Some(Op::Empty)
    } else if same_chars(&name, &chars_of("lower")) {
        Some(Op::Lower)
    } else if same_chars(&name, &chars_of("upper")) {
        Some(Op::Upper)
    } else if same_chars(&name, &chars_of("concat")) {
        Some(Op::Concat)
    } else if same_chars(&name, &chars_of("slice")) {
        Some(Op::Slice)
    } else if same_chars(&name, &chars_of("nth")) {
        Some(Op::Nth)
    } else if same_chars(&name, &chars_of("map-to-nums")) {
        Some(Op::MapToNums)
    } else if same_chars(&name, &chars_of("map-to-strs")) {
        Some(Op::MapToStrs)
    } else if same_chars(&name, &chars_of("strip")) {
        Some(Op::Strip)
    } else if same_chars(&name, &chars_of("split")) {
        Some(Op::Split)
    } else if same_chars(&name, &chars_of("join")) {
        Some(Op::Join)
    } else if same_chars(&name, &chars_of("char->str")) {
        Some(Op::CharToStr)
    } else if same_chars(&name, &chars_of("space")) {
        Some(Op::CharSpace)
    } else if same_chars(&name, &chars_of(".")) {
        Some(Op::CharDot)
    } else if same_chars(&name, &chars_of(",")) {
        Some(Op::CharComma)
    } else if same_chars(&name, &chars_of("<")) {
        Some(Op::CharLess)
    } else if same_chars(&name, &chars_of(">")) {
        Some(Op::CharGreater)
    } else if same_chars(&name, &chars_of("/")) {
        Some(Op::CharSlash)
    } else if same_chars(&name, &chars_of("@")) {
        Some(Op::CharAt)
    } else if same_chars(&name, &chars_of("-")) {
        Some(Op::CharDash)
    } else if same_chars(&name, &chars_of("|")) {
        Some(Op::CharPipe)
    } else {
        None
    }
}

/// What a primitive makes of values.
fn apply(op: Op, inps: &[Space]) -> (out: Option<Space>)
    ensures
        match evaluated(op, values(inps@)) {
            Some(value) => out is Some && out->Some_0@ == value,
            None => out is None,
        },
{
    let ghost given = values(inps@);
    proof {
        if inps.len() >= 1 {
            assert(given[0] == inps@[0]@);
        }
        if inps.len() >= 2 {
            assert(given[1] == inps@[1]@);
        }
        if inps.len() >= 3 {
            assert(given[2] == inps@[2]@);
        }
    }
    match op {
        Op::Zero => Some(Space::Num(0)),
        Op::Incr => {
            if inps.len() >= 1 {
                if let Space::Num(x) = &inps[0] {
                    if *x < i32::MAX {
                        return Some(Space::Num(*x + 1));
                    }
                }
            }
            None
        },
        Op::Decr => {
            if inps.len() >= 1 {
                if let Space::Num(x) = &inps[0] {
                    if *x > i32::MIN {
                        return Some(Space::Num(*x - 1));
                    }
                }
            }
            None
        },
        Op::Len => {
            if inps.len() >= 1 {
                if let Space::Str(s) = &inps[0] {
                    let n = byte_length(&chars_of(s.as_str()));
                    return Some(Space::Num(#[verifier::truncate] (n as i32)));
                }
            }
            None
        },
        Op::Empty => Some(Space::Str(String::new())),
        Op::Lower => {
            if inps.len() >= 1 {
                if let Space::Str(s) = &inps[0] {
                    return Some(Space::Str(to_lowercase(s.as_str())));
                }
            }
            None
        },
        Op::Upper => {
            if inps.len() >= 1 {
                if let Space::Str(s) = &inps[0] {
                    return Some(Space::Str(to_uppercase(s.as_str())));
                }
            }
            None
        },
        Op::Concat => {
            if inps.len() >= 2 {
                if let Space::Str(x) = &inps[0] {
                    if let Space::Str(y) = &inps[1] {
                        let mut s = chars_of(x.as_str());
                        push_all(&mut s, &chars_of(y.as_str()));
                        return Some(Space::Str(string_of(&s)));
                    }
                }
            }
            None
        },
        Op::Slice => {
            if inps.len() >= 3 {
                if let Space::Num(x) = &inps[0] {
                    if let Space::Num(y) = &inps[1] {
                        if let Space::Str(s) = &inps[2] {
                            let x = *x as i64;
                            let y = *y as i64;
                            if y - x < -2147483648 || y - x > 2147483647 {
                                return None;
                            }
                            let chars = chars_of(s.as_str());
                            let len = chars.len();
                            let from: usize = if x < 0 || x as u64 > len as u64 {
                                len
                            } else {
                                x as usize
                            };
                            let to: usize = if y < x || (y - x) as u64 > (len - from) as u64 {
                                len
                            } else {
                                from + (y - x) as usize
                            };
                            return Some(Space::Str(string_of(&part(&chars, from, to))));
                        }
                    }
                }
            }
            None
        },
        Op::Nth => {
            if inps.len() >= 2 {
                if let Space::Num(x) = &inps[0] {
                    if let Space::StrList(ss) = &inps[1] {
                        if *x >= 0 && (*x as u64) < ss.len() as u64 {
                            let i = *x as usize;
                            assert(texts(ss@)[i as int] == ss@[i as int]@);
                            return Some(Space::Str(ss[i].clone()));
                        } else {
                            return Some(Space::Str(String::new()));
                        }
                    }
                }
            }
            None
        },
        Op::MapToNums => None,
        Op::MapToStrs => None,
        Op::Strip => {
            if inps.len() >= 1 {
                if let Space::Str(s) = &inps[0] {
                    return Some(Space::Str(string_of(&trim(&chars_of(s.as_str())))));
                }
            }
            None
        },
        Op::Split => {
            if inps.len() >= 2 {
                if let Space::Char(c) = &inps[0] {
                    if let Space::Str(s) = &inps[1] {
                        return Some(Space::StrList(split(&chars_of(s.as_str()), *c)));
                    }
                }
            }
            None
        },
        Op::Join => {
            if inps.len() >= 2 {
                if let Space::Str(delim) = &inps[0] {
                    if let Space::StrList(ss) = &inps[1] {
                        return Some(Space::Str(string_of(&join(ss, &chars_of(delim.as_str())))));
                    }
                }
            }
            None
        },
        Op::CharToStr => {
            if inps.len() >= 1 {
                if let Space::Char(c) = &inps[0] {
                    let mut s: Vec<char> = Vec::new();
                    s.push(*c);
                    assert(s@ =~= seq![*c]);
                    return Some(Space::Str(string_of(&s)));
                }
            }
            None
        },
        Op::CharSpace => Some(Space::Char(' ')),
        Op::CharDot => Some(Space::Char('.')),
        Op::CharComma => Some(Space::Char(',')),
        Op::CharLess => Some(Space::Char('<')),
        Op::CharGreater => Some(Space::Char('>')),
        Op::CharSlash => Some(Space::Char('/')),
        Op::CharAt => Some(Space::Char('@')),
        Op::CharDash => Some(Space::Char('-')),
        Op::CharPipe => Some(Space::Char('|')),
    }
}

/// An evaluator for the domain: it says what each primitive makes of
/// values.
#[derive(Debug, Clone, Copy)]
pub struct Evaluator;

impl Evaluator {
    /// Whether the primitive called `name` is defined on `inps`.
    pub open spec fn applies(self, name: Seq<char>, inps: Seq<SpaceValue>) -> bool {
        evaluation(name, inps) is Some
    }

    /// What the primitive called `name` makes of `inps`, of which it takes
    /// as many as it has arguments; `None` where there is no such primitive,
    /// where the values are too few or not of its types, and where a number
    /// would leave the range of numbers. The primitives that apply a
    /// function, `map-to-nums` and `map-to-strs`, give `None`: they are for
    /// whoever holds the functions.
    pub fn try_evaluate(&self, name: &str, inps: &[Space]) -> (out: Option<Space>)
        ensures
            match evaluation(name@, values(inps@)) {
                Some(value) => out is Some && out->Some_0@ == value,
                None => out is None,
            },
    {
        match operation(name) {
            Some(op) => apply(op, inps),
            None => None,
        }
    }

    /// What the primitive called `name` makes of `inps`.
    pub fn evaluate(&self, name: &str, inps: &[Space]) -> (out: Space)
        requires
            self.applies(name@, values(inps@)),
        ensures
            Some(out@) == evaluation(name@, values(inps@)),
    {
        match self.try_evaluate(name, inps) {
            Some(out) => out,
            None => Space::Num(0),
        }
    }

    /// The value that stands for a lifted function, which its holder keeps
    /// under the given number.
    pub fn lift(&self, f: usize) -> (r: Result<Space, ()>)
        ensures
            r is Ok,
            r->Ok_0@ == SpaceValue::Func(f),
    {
        Ok(Space::Func(f))
    }
}

/// Whether the two lists hold the same strings.
fn same_texts(a: &Vec<String>, b: &Vec<String>) -> (r: bool)
    ensures
        r == (texts(a@) == texts(b@)),
{
    if a.len() != b.len() {
        assert(texts(a@).len() != texts(b@).len());
        return false;
    }
    let mut i: usize = 0;
    while i < a.len()
        invariant
            i <= a.len(),
            a.len() == b.len(),
            forall|j: int| 0 <= j < i ==> a@[j]@ == b@[j]@,
        decreases a.len() - i,
    {
        if a[i] != b[i] {
            assert(texts(a@)[i as int] != texts(b@)[i as int]);
            return false;
        }
        i = i + 1;
    }
    assert(texts(a@) =~= texts(b@));
    true
}

/// Whether the two lists hold the same numbers.
fn same_numbers(a: &Vec<i32>, b: &Vec<i32>) -> (r: bool)
    ensures
        r == (a@ == b@),
{
    if a.len() != b.len() {
        return false;
    }
    let mut i: usize = 0;
    while i < a.len()
        invariant
            i <= a.len(),
            a.len() == b.len(),
            forall|j: int| 0 <= j < i ==> a@[j] == b@[j],
        decreases a.len() - i,
    {
        if a[i] != b[i] {
            return false;
        }
        i = i + 1;
    }
    assert(a@ =~= b@);
    true
}

impl PartialEq for Space {
    fn eq(&self, other: &Self) -> (r: bool) {
        match (self, other) {
            (Space::Num(x), Space::Num(y)) => *x == *y,
            (Space::Char(x), Space::Char(y)) => *x == *y,
            (Space::Str(x), Space::Str(y)) => *x == *y,
            (Space::StrList(xs), Space::StrList(ys)) => same_texts(xs, ys),
            (Space::NumList(xs), Space::NumList(ys)) => same_numbers(xs, ys),
            _ => false,
        }
    }
}

impl vstd::std_specs::cmp::PartialEqSpecImpl for Space {
    open spec fn obeys_eq_spec() -> bool {
        true
    }

    open spec fn eq_spec(&self, other: &Self) -> bool {
        equal(self@, other@)
    }
}

/// The type of integers.
pub open spec fn tint() -> TypeTerm {
    TypeTerm::Constructed("int"@, Seq::empty())
}

/// The type of strings.
pub open spec fn tstr() -> TypeTerm {
    TypeTerm::Constructed("str"@, Seq::empty())
}

/// The type of characters.
pub open spec fn tchar() -> TypeTerm {
    TypeTerm::Constructed("char"@, Seq::empty())
}

/// The type of lists of `of`.
pub open spec fn tlist(of: TypeTerm) -> TypeTerm {
    TypeTerm::Constructed("list"@, seq![of])
}

/// The type of functions from `arg` to `ret`.
pub open spec fn tarrow(arg: TypeTerm, ret: TypeTerm) -> TypeTerm {
    TypeTerm::Arrow(Box::new(arg), Box::new(ret))
}

/// The names of the primitives, in order.
pub open spec fn primitive_names() -> Seq<Seq<char>> {
    seq![
        "0"@,
        "+1"@,
        "-1"@,
        "len"@,
        "empty_str"@,
        "lower"@,
        "upper"@,
        "concat"@,
        "slice"@,
        "nth"@,
        "map-to-nums"@,
        "map-to-strs"@,
        "strip"@,
        "split"@,
        "join"@,
        "char->str"@,
        "space"@,
        "."@,
        ","@,
        "<"@,
        ">"@,
        "/"@,
        "@"@,
        "-"@,
        "|"@,
    ]
}

/// The types of the primitives, in order.
pub open spec fn primitive_types() -> Seq<TypeTerm> {
    seq![
        tint(),
        tarrow(tint(), tint()),
        tarrow(tint(), tint()),
        tarrow(tstr(), tint()),
        tstr(),
        tarrow(tstr(), tstr()),
        tarrow(tstr(), tstr()),
        tarrow(tstr(), tarrow(tstr(), tstr())),
        tarrow(tint(), tarrow(tint(), tarrow(tstr(), tstr()))),
        tarrow(tint(), tarrow(tlist(tstr()), tstr())),
        tarrow(
            tarrow(TypeTerm::Variable(0), tint()),
            tarrow(tlist(TypeTerm::Variable(0)), tlist(tint())),
        ),
        tarrow(
            tarrow(TypeTerm::Variable(0), tstr()),
            tarrow(tlist(TypeTerm::Variable(0)), tlist(tstr())),
        ),
        tarrow(tstr(), tstr()),
        tarrow(tchar(), tarrow(tstr(), tlist(tstr()))),
        tarrow(tstr(), tarrow(tlist(tstr()), tstr())),
        tarrow(tchar(), tstr()),
        tchar(),
        tchar(),
        tchar(),
        tchar(),
        tchar(),
        tchar(),
        tchar(),
        tchar(),
        tchar(),
    ]
}

/// A type without arguments.
fn constant(name: &'static str) -> (t: Type)
    ensures
        t@ == TypeTerm::Constructed(name@, Seq::empty()),
{
    let args: Vec<Type> = Vec::new();
    let t = Type::Constructed(name, args);
    assert(t@ == TypeTerm::Constructed(name@, Seq::empty())) by {
        assert(t@->Constructed_1 =~= Seq::empty());
    }
    t
}

/// The type of lists of `of`.
fn list(of: Type) -> (t: Type)
    ensures
        t@ == tlist(of@),
{
    let mut args: Vec<Type> = Vec::new();
    args.push(of);
    let t = Type::Constructed("list", args);
    assert(t@ == tlist(of@)) by {
        assert(t@->Constructed_1 =~= seq![of@]);
    }
    t
}

/// The type of functions from `arg` to `ret`.
fn arrow(arg: Type, ret: Type) -> (t: Type)
    ensures
        t@ == tarrow(arg@, ret@),
{
    Type::Arrow(Box::new(arg), Box::new(ret))
}

/// Appends a primitive.
fn register(primitives: &mut Vec<(String, Type)>, name: &str, tp: Type)
    ensures
        final(primitives)@.len() == old(primitives)@.len() + 1,
        forall|i: int| 0 <= i < old(primitives)@.len() ==> final(primitives)@[i] == old(primitives)@[i],
        final(primitives)@[old(primitives)@.len() as int].0@ == name@,
        final(primitives)@[old(primitives)@.len() as int].1@ == tp@,
{
    primitives.push((name.to_string(), tp));
}

/// The language of the domain: its primitives with their types, in the
/// order of the table above, no inventions, every log-probability 0.
pub fn dsl() -> (dsl: Language)
    ensures
        dsl.well_formed(),
        dsl.grounded(),
        dsl.invented@.len() == 0,
        dsl.primitive_names() == primitive_names(),
        dsl.primitive_types() == primitive_types(),
        dsl.variable_logprob == 0,
        forall|i: int| 0 <= i < dsl.primitives_logprob.len() ==> dsl.primitives_logprob[i] == 0,
{
    let mut primitives: Vec<(String, Type)> = Vec::new();
    register(&mut primitives, "0", constant("int"));
    register(&mut primitives, "+1", arrow(constant("int"), constant("int")));
    register(&mut primitives, "-1", arrow(constant("int"), constant("int")));
    register(&mut primitives, "len", arrow(constant("str"), constant("int")));
    register(&mut primitives, "empty_str", constant("str"));
    register(&mut primitives, "lower", arrow(constant("str"), constant("str")));
    register(&mut primitives, "upper", arrow(constant("str"), constant("str")));
    register(
        &mut primitives,
        "concat",
        arrow(constant("str"), arrow(constant("str"), constant("str"))),
    );
    register(
        &mut primitives,
        "slice",
        arrow(constant("int"), arrow(constant("int"), arrow(constant("str"), constant("str")))),
    );
    register(
        &mut primitives,
        "nth",
        arrow(constant("int"), arrow(list(constant("str")), constant("str"))),
    );
    register(
        &mut primitives,
        "map-to-nums",
        arrow(
            arrow(Type::Variable(0), constant("int")),
            arrow(list(Type::Variable(0)), list(constant("int"))),
        ),
    );
    register(
        &mut primitives,
        "map-to-strs",
        arrow(
            arrow(Type::Variable(0), constant("str")),
            arrow(list(Type::Variable(0)), list(constant("str"))),
        ),
    );
    register(&mut primitives, "strip", arrow(constant("str"), constant("str")));
    register(
        &mut primitives,
        "split",
        arrow(constant("char"), arrow(constant("str"), list(constant("str")))),
    );
    register(
        &mut primitives,
        "join",
        arrow(constant("str"), arrow(list(constant("str")), constant("str"))),
    );
    register(&mut primitives, "char->str", arrow(constant("char"), constant("str")));
    register(&mut primitives, "space", constant("char"));
    register(&mut primitives, ".", constant("char"));
    register(&mut primitives, ",", constant("char"));
    register(&mut primitives, "<", constant("char"));
    register(&mut primitives, ">", constant("char"));
    register(&mut primitives, "/", constant("char"));
    register(&mut primitives, "@", constant("char"));
    register(&mut primitives, "-", constant("char"));
    register(&mut primitives, "|", constant("char"));
    let dsl = Language::uniform(primitives, Vec::new());
    proof {
        assert(dsl.primitive_names() =~= primitive_names());
        assert(dsl.primitive_types() =~= primitive_types());
    }
    dsl
}

} // verus!
