//! Small questions about text: white space, comment lines, prefixes and
//! decimal numbers.

use vstd::prelude::*;
use vstd::std_specs::iter::IteratorSpec;

verus! {

/// The characters that count as white space: those with the Unicode property
/// `White_Space`.
pub open spec fn is_space(c: char) -> bool {
    ||| '\u{9}' <= c <= '\u{d}'
    ||| c == ' '
    ||| c == '\u{85}'
    ||| c == '\u{a0}'
    ||| c == '\u{1680}'
    ||| '\u{2000}' <= c <= '\u{200a}'
    ||| c == '\u{2028}'
    ||| c == '\u{2029}'
    ||| c == '\u{202f}'
    ||| c == '\u{205f}'
    ||| c == '\u{3000}'
}

/// Whether `c` is white space.
pub fn is_whitespace(c: char) -> (r: bool)
    ensures
        r == is_space(c),
{
    ('\u{9}' <= c && c <= '\u{d}') || c == ' ' || c == '\u{85}' || c == '\u{a0}' || c == '\u{1680}'
        || ('\u{2000}' <= c && c <= '\u{200a}') || c == '\u{2028}' || c == '\u{2029}' || c
        == '\u{202f}' || c == '\u{205f}' || c == '\u{3000}'
}

/// A line is a comment when its first character that is not white space is
/// `#`.
pub open spec fn is_comment(line: Seq<char>) -> bool {
    exists|i: int|
        0 <= i < line.len() && #[trigger] line[i] == '#' && forall|j: int|
            0 <= j < i ==> is_space(#[trigger] line[j])
}

/// Whether `line` is a comment.
pub fn is_comment_line(line: &str) -> (r: bool)
    ensures
        r == is_comment(line@),
{
    let mut rest = line.chars();
    let ghost mut seen: int = 0;
    loop
        invariant
            0 <= seen <= line@.len(),
            rest.remaining() == line@.skip(seen),
            forall|j: int| 0 <= j < seen ==> is_space(#[trigger] line@[j]),
        decreases line@.len() - seen,
    {
        match rest.next() {
            None => {
                return false;
            },
            Some(c) => {
                assert(c == line@[seen]);
                if c == '#' {
                    return true;
                }
                if !is_whitespace(c) {
                    return false;
                }
                proof {
                    assert(line@.skip(seen).drop_first() =~= line@.skip(seen + 1));
                    seen = seen + 1;
                }
            },
        }
    }
}

/// Whether `text` begins with `prefix`.
pub fn has_prefix(text: &str, prefix: &str) -> (r: bool)
    ensures
        r == prefix@.is_prefix_of(text@),
{
    let mut rest = text.chars();
    let mut wanted = prefix.chars();
    let ghost mut seen: int = 0;
    loop
        invariant
            0 <= seen <= prefix@.len(),
            seen <= text@.len(),
            rest.remaining() == text@.skip(seen),
            wanted.remaining() == prefix@.skip(seen),
            forall|j: int| 0 <= j < seen ==> text@[j] == prefix@[j],
        decreases prefix@.len() - seen,
    {
        match wanted.next() {
            None => {
                assert(prefix@ =~= text@.subrange(0, prefix@.len() as int));
                return true;
            },
            Some(w) => {
                assert(w == prefix@[seen]);
                match rest.next() {
                    None => {
                        return false;
                    },
                    Some(c) => {
                        assert(c == text@[seen]);
                        if c != w {
                            assert(prefix@.len() <= text@.len() ==> text@.subrange(
                                0,
                                prefix@.len() as int,
                            )[seen] == text@[seen]);
                            return false;
                        }
                        proof {
                            assert(text@.skip(seen).drop_first() =~= text@.skip(seen + 1));
                            assert(prefix@.skip(seen).drop_first() =~= prefix@.skip(seen + 1));
                            seen = seen + 1;
                        }
                    },
                }
            },
        }
    }
}

/// The decimal digits.
pub open spec fn is_digit(c: char) -> bool {
    '0' <= c <= '9'
}

/// The number that a decimal digit stands for.
pub open spec fn digit_value(c: char) -> nat {
    (c as nat - '0' as nat) as nat
}

/// The number that a run of decimal digits stands for.
pub open spec fn decimal_value(digits: Seq<char>) -> nat
    decreases digits.len(),
{
    if digits.len() == 0 {
        0
    } else {
        decimal_value(digits.drop_last()) * 10 + digit_value(digits.last())
    }
}

/// A number's text without the `+` that may stand in front of it.
pub open spec fn unsigned_part(text: Seq<char>) -> Seq<char> {
    if text.len() > 0 && text[0] == '+' {
        text.drop_first()
    } else {
        text
    }
}

/// The number that a text denotes: an optional `+`, then one or more decimal
/// digits whose value fits in 32 bits. Any other text denotes none.
pub open spec fn parsed_u32(text: Seq<char>) -> Option<u32> {
    let digits = unsigned_part(text);
    if digits.len() > 0 && (forall|i: int| 0 <= i < digits.len() ==> is_digit(#[trigger] digits[i]))
        && decimal_value(digits) <= u32::MAX {
        Some(decimal_value(digits) as u32)
    } else {
        None
    }
}

/// A run of digits is worth at least as much as any of its beginnings.
pub proof fn lemma_decimal_value_grows(digits: Seq<char>, k: int)
    requires
        0 <= k <= digits.len(),
    ensures
        decimal_value(digits.take(k)) <= decimal_value(digits),
    decreases digits.len() - k,
{
    if k == digits.len() {
        assert(digits.take(k) =~= digits);
    } else {
        lemma_decimal_value_grows(digits, k + 1);
        assert(digits.take(k + 1).drop_last() =~= digits.take(k));
    }
}

/// Reads a 32-bit unsigned number in decimal notation.
pub fn parse_u32(text: &str) -> (r: Option<u32>)
    ensures
        r == parsed_u32(text@),
{
    let ghost digits = unsigned_part(text@);
    let mut rest = text.chars();
    let mut first = rest.next();
    if first == Some('+') {
        assert(text@.skip(0) =~= text@);
        first = rest.next();
    } else {
        assert(text@.skip(0) =~= text@);
    }
    assert(rest.remaining() =~= if first.is_some() { digits.skip(1) } else { digits });
    let mut current = match first {
        None => {
            return None;
        },
        Some(c) => c,
    };
    let mut value: u64 = 0;
    let ghost mut seen: int = 0;
    loop
        invariant
            0 <= seen < digits.len(),
            digits == unsigned_part(text@),
            current == digits[seen],
            rest.remaining() == digits.skip(seen + 1),
            forall|j: int| 0 <= j < seen ==> is_digit(#[trigger] digits[j]),
            value == decimal_value(digits.take(seen)),
            value <= u32::MAX,
        decreases digits.len() - seen,
    {
        if !('0' <= current && current <= '9') {
            return None;
        }
        let digit: u64 = (current as u64) - ('0' as u64);
        proof {
            assert(digits.take(seen + 1).drop_last() =~= digits.take(seen));
            lemma_decimal_value_grows(digits, seen + 1);
        }
        value = value * 10 + digit;
        if value > u32::MAX as u64 {
            return None;
        }
        match rest.next() {
            None => {
                assert(digits.take(seen + 1) =~= digits);
                return Some(value as u32);
            },
            Some(c) => {
                proof {
                    assert(digits.skip(seen + 1).drop_first() =~= digits.skip(seen + 2));
                    seen = seen + 1;
                }
                current = c;
            },
        }
    }
}

} // verus!
