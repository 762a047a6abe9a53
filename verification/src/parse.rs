//! Reading a point from a line of text: two integers with spaces between
//! them.

use crate::point::{Point, PointView};
use vstd::prelude::*;
use vstd::string::StrSliceExecFns;

verus! {

/// The character is white space, as Unicode defines it.
pub open spec fn is_whitespace(c: char) -> bool {
    let code: int = c as int;
    ||| 0x09 <= code <= 0x0D
    ||| code == 0x20
    ||| code == 0x85
    ||| code == 0xA0
    ||| code == 0x1680
    ||| 0x2000 <= code <= 0x200A
    ||| code == 0x2028
    ||| code == 0x2029
    ||| code == 0x202F
    ||| code == 0x205F
    ||| code == 0x3000
}

/// The character is one of the ten decimal digits.
pub open spec fn is_digit(c: char) -> bool {
    0x30 <= c as int <= 0x39
}

/// The first position at or after `from` that holds no white space, or the
/// length of the line where there is none.
pub open spec fn text_start(line: Seq<char>, from: int) -> int
    decreases line.len() - from,
{
    if from < 0 || from >= line.len() {
        line.len() as int
    } else if !is_whitespace(line[from]) {
        from
    } else {
        text_start(line, from + 1)
    }
}

/// The first position at or after `from` that holds no space, or the
/// length of the line where there is none.
pub open spec fn word_start(line: Seq<char>, from: int) -> int
    decreases line.len() - from,
{
    if from < 0 || from >= line.len() {
        line.len() as int
    } else if line[from] != ' ' {
        from
    } else {
        word_start(line, from + 1)
    }
}

/// The first position at or after `from` that holds a space, or the length
/// of the line where there is none.
pub open spec fn word_end(line: Seq<char>, from: int) -> int
    decreases line.len() - from,
{
    if from < 0 || from >= line.len() {
        line.len() as int
    } else if line[from] == ' ' {
        from
    } else {
        word_end(line, from + 1)
    }
}

/// The number that the digits write in decimal.
pub open spec fn digits_value(digits: Seq<char>) -> int
    decreases digits.len(),
{
    if digits.len() == 0 {
        0
    } else {
        digits_value(digits.drop_last()) * 10 + (digits.last() as int - 0x30)
    }
}

/// There is at least one character, and each is a decimal digit.
pub open spec fn is_digits(digits: Seq<char>) -> bool {
    &&& digits.len() > 0
    &&& forall|i: int| 0 <= i < digits.len() ==> is_digit(#[trigger] digits[i])
}

/// The 32-bit integer that `word` writes, if it writes one: a sign or
/// none, then decimal digits and nothing else.
pub open spec fn number(word: Seq<char>) -> Option<int> {
    let signed: bool = word.len() > 0 && (word[0] == '-' || word[0] == '+');
    let digits: Seq<char> = if signed {
        word.skip(1)
    } else {
        word
    };
    let value: int = if word.len() > 0 && word[0] == '-' {
        -digits_value(digits)
    } else {
        digits_value(digits)
    };
    if is_digits(digits) && i32::MIN <= value <= i32::MAX {
        Some(value)
    } else {
        None
    }
}

/// The point called `name` that `line` describes, if it describes one.
/// White space before the first word is skipped. Words end at a space; the
/// first word is the horizontal coordinate, the second the vertical one,
/// and what follows them is not read.
pub open spec fn parsed_point(line: Seq<char>, name: Seq<char>) -> Option<PointView> {
    let x_from: int = word_start(line, text_start(line, 0));
    let x_to: int = word_end(line, x_from);
    let y_from: int = word_start(line, x_to);
    let y_to: int = word_end(line, y_from);
    match (number(line.subrange(x_from, x_to)), number(line.subrange(y_from, y_to))) {
        (Some(x), Some(y)) => Some(PointView { name, x, y }),
        _ => None,
    }
}

/// Digits that follow never make the number smaller.
pub proof fn lemma_digits_value_grows(digits: Seq<char>, k: int)
    requires
        is_digits(digits),
        0 <= k <= digits.len(),
    ensures
        0 <= digits_value(digits.take(k)) <= digits_value(digits),
    decreases digits.len(),
{
    if k == digits.len() {
        assert(digits.take(k) =~= digits);
        if digits.len() > 1 {
            let shorter: Seq<char> = digits.drop_last();
            lemma_digits_value_grows(shorter, shorter.len() as int);
            assert(shorter.take(shorter.len() as int) =~= shorter);
        } else {
            assert(digits.drop_last().len() == 0);
            assert(digits_value(digits.drop_last()) == 0);
        }
        assert(is_digit(digits[digits.len() - 1]));
    } else {
        let shorter: Seq<char> = digits.drop_last();
        assert(is_digit(digits[digits.len() - 1]));
        if shorter.len() == 0 {
            assert(digits.take(k) =~= shorter);
            assert(digits_value(shorter) == 0);
        } else {
            lemma_digits_value_grows(shorter, k);
            assert(shorter.take(k) =~= digits.take(k));
            lemma_digits_value_grows(shorter, shorter.len() as int);
        }
    }
}

/// Whether the character is white space.
fn is_space_like(c: char) -> (yes: bool)
    ensures
        yes == is_whitespace(c),
{
    let code: u32 = c as u32;
    (0x09 <= code && code <= 0x0D) || code == 0x20 || code == 0x85 || code == 0xA0 || code
        == 0x1680 || (0x2000 <= code && code <= 0x200A) || code == 0x2028 || code == 0x2029
        || code == 0x202F || code == 0x205F || code == 0x3000
}

/// Scans `line`, which is `len` characters long, from `from` to the first
/// character that is not white space.
fn find_text_start(line: &str, len: usize, from: usize) -> (at: usize)
    requires
        len == line@.len(),
        from <= len,
    ensures
        at == text_start(line@, from as int),
        from <= at <= len,
{
    let mut at: usize = from;
    while at < len && is_space_like(line.get_char(at))
        invariant
            len == line@.len(),
            from <= at <= len,
            text_start(line@, at as int) == text_start(line@, from as int),
        decreases len - at,
    {
        at += 1;
    }
    at
}

/// Scans `line`, which is `len` characters long, from `from` to the first
/// character that is not a space.
fn find_word_start(line: &str, len: usize, from: usize) -> (at: usize)
    requires
        len == line@.len(),
        from <= len,
    ensures
        at == word_start(line@, from as int),
        from <= at <= len,
{
    let mut at: usize = from;
    while at < len && line.get_char(at) == ' '
        invariant
            len == line@.len(),
            from <= at <= len,
            word_start(line@, at as int) == word_start(line@, from as int),
        decreases len - at,
    {
        at += 1;
    }
    at
}

/// Scans `line`, which is `len` characters long, from `from` to the first
/// space.
fn find_word_end(line: &str, len: usize, from: usize) -> (at: usize)
    requires
        len == line@.len(),
        from <= len,
    ensures
        at == word_end(line@, from as int),
        from <= at <= len,
{
    let mut at: usize = from;
    while at < len && line.get_char(at) != ' '
        invariant
            len == line@.len(),
            from <= at <= len,
            word_end(line@, at as int) == word_end(line@, from as int),
        decreases len - at,
    {
        at += 1;
    }
    at
}

/// Reads the characters of `line` from `from` up to `to` as a 32-bit
/// integer.
fn read_number(line: &str, from: usize, to: usize) -> (value: Option<i32>)
    requires
        from <= to <= line@.len(),
    ensures
        match value {
            Some(v) => number(line@.subrange(from as int, to as int)) == Some(v as int),
            None => number(line@.subrange(from as int, to as int)) is None,
        },
{
    let ghost word: Seq<char> = line@.subrange(from as int, to as int);
    if from == to {
        return None;
    }
    let head: char = line.get_char(from);
    assert(word[0] == head);
    let negative: bool = head == '-';
    let start: usize = if head == '-' || head == '+' {
        from + 1
    } else {
        from
    };
    let ghost digits: Seq<char> = line@.subrange(start as int, to as int);
    assert(digits =~= if word[0] == '-' || word[0] == '+' {
        word.skip(1)
    } else {
        word
    });
    if start == to {
        return None;
    }
    let mut total: i64 = 0;
    let mut at: usize = start;
    assert(digits.take(0) =~= Seq::<char>::empty());
    while at < to
        invariant
            from <= start <= at <= to,
            to <= line@.len(),
            word == line@.subrange(from as int, to as int),
            digits == line@.subrange(start as int, to as int),
            digits == if word[0] == '-' || word[0] == '+' {
                word.skip(1)
            } else {
                word
            },
            forall|i: int| 0 <= i < at - start ==> is_digit(#[trigger] digits[i]),
            total == digits_value(digits.take(at - start)),
            0 <= total <= 0x8000_0000,
        decreases to - at,
    {
        let c: char = line.get_char(at);
        let code: u32 = c as u32;
        assert(digits[at - start] == c);
        if code < 0x30 || code > 0x39 {
            return None;
        }
        let ghost longer: Seq<char> = digits.take(at - start + 1);
        assert(longer.drop_last() =~= digits.take(at - start));
        assert(longer.last() == c);
        total = total * 10 + (code - 0x30) as i64;
        if total > 0x8000_0000 {
            proof {
                if is_digits(digits) {
                    lemma_digits_value_grows(digits, at - start + 1);
                }
            }
            return None;
        }
        at += 1;
    }
    assert(digits.take(at - start) =~= digits);
    if negative {
        Some((-total) as i32)
    } else if total > 0x7FFF_FFFF {
        None
    } else {
        Some(total as i32)
    }
}

/// Reads the point called `name` from `string`: white space before the
/// first word is skipped, the first two words that spaces set apart are
/// its coordinates, and what follows them is not read. `None` where one of
/// the two is missing or is not a 32-bit integer.
pub fn get_point_from_string(string: String, name: String) -> (point: Option<Point>)
    ensures
        match point {
            Some(p) => parsed_point(string@, name@) == Some(p@),
            None => parsed_point(string@, name@) is None,
        },
{
    let line: &str = string.as_str();
    let len: usize = line.unicode_len();
    let text_from: usize = find_text_start(line, len, 0);
    let x_from: usize = find_word_start(line, len, text_from);
    let x_to: usize = find_word_end(line, len, x_from);
    let y_from: usize = find_word_start(line, len, x_to);
    let y_to: usize = find_word_end(line, len, y_from);
    let x: Option<i32> = read_number(line, x_from, x_to);
    let y: Option<i32> = read_number(line, y_from, y_to);
    match (x, y) {
        (Some(x), Some(y)) => Some(Point::new(name.as_str(), x, y)),
        _ => None,
    }
}

} // verus!
