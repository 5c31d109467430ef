//! Source admission before parsing, and UTF-8 byte offsets of refusals.
use vstd::prelude::*;
use crate::math_grammar::ParseFailure;
use crate::math_parse::Failure;
use crate::math_source::{MathSourceError, MathSourceErrorKind, error_at};

verus! {

/// Number of UTF-8 bytes that encode `c`.
pub open spec fn utf8_width(c: char) -> int {
    let v = c as u32;
    if v < 0x80 {
        1
    } else if v < 0x800 {
        2
    } else if v < 0x10000 {
        3
    } else {
        4
    }
}

/// UTF-8 byte offset of character index `i`.
pub open spec fn utf8_offset(s: Seq<char>, i: int) -> int
    decreases i,
{
    if i <= 0 {
        0
    } else if i > s.len() {
        utf8_offset(s, s.len() as int)
    } else {
        utf8_offset(s, i - 1) + utf8_width(s[i - 1])
    }
}

/// NUL, C0 controls other than newline, DEL and C1 controls are refused.
pub open spec fn forbidden_char(c: char) -> bool {
    let v = c as u32;
    v == 0 || (1 <= v <= 0x1f && c != '\n') || (0x7f <= v <= 0x9f)
}

/// First refused character at or after `i`.
pub open spec fn first_forbidden_from(s: Seq<char>, i: int) -> Option<int>
    decreases s.len() - i,
{
    if i < 0 || i >= s.len() {
        None
    } else if forbidden_char(s[i]) {
        Some(i)
    } else {
        first_forbidden_from(s, i + 1)
    }
}

/// Index of the character that refuses the source: a leading byte-order mark,
/// or the first forbidden character.
pub open spec fn refused_at(s: Seq<char>) -> Option<int> {
    if s.len() > 0 && s[0] == '\u{feff}' {
        Some(0)
    } else {
        first_forbidden_from(s, 0)
    }
}

/// The public refusal for a failure at a character index.
pub open spec fn source_error(s: Seq<char>, f: ParseFailure) -> MathSourceError {
    error_at(f.kind, utf8_offset(s, f.pos))
}

fn utf8_len(c: char) -> (n: u64)
    ensures
        n == utf8_width(c),
{
    let v = c as u32;
    if v < 0x80 {
        1
    } else if v < 0x800 {
        2
    } else if v < 0x10000 {
        3
    } else {
        4
    }
}

proof fn lemma_utf8_offset_monotonic(s: Seq<char>, i: int, j: int)
    requires
        0 <= i <= j <= s.len(),
    ensures
        utf8_offset(s, i) <= utf8_offset(s, j),
    decreases j - i,
{
    if i < j {
        lemma_utf8_offset_monotonic(s, i, j - 1);
    }
}

/// The refusal with its byte offset, computed from the character index.
pub(crate) fn to_source_error(chars: &[char], failure: Failure) -> (error: MathSourceError)
    ensures
        error == source_error(chars@, failure.view()),
{
    let mut total: u64 = 0;
    let mut index: usize = 0;
    let limit: u64 = 0x1_0000_0000;
    let end = if failure.pos < chars.len() {
        failure.pos
    } else {
        chars.len()
    };
    while index < end
        invariant
            0 <= index <= end <= chars@.len(),
            end == failure.pos || end == chars@.len(),
            end < failure.pos ==> end == chars@.len(),
            total <= limit,
            limit == 0x1_0000_0000,
            total == if utf8_offset(chars@, index as int) > limit {
                limit as int
            } else {
                utf8_offset(chars@, index as int)
            },
        decreases end - index,
    {
        let width = utf8_len(chars[index]);
        if total + width > limit {
            total = limit;
        } else {
            total = total + width;
        }
        proof {
            lemma_utf8_offset_monotonic(chars@, index as int, index as int + 1);
        }
        index = index + 1;
    }
    proof {
        crate::math_source::lemma_error_at(failure.kind, utf8_offset(chars@, failure.pos as int));
    }
    let error = MathSourceError::at_offset(failure.kind, total);
    assert(utf8_offset(chars@, failure.pos as int) == utf8_offset(chars@, end as int));
    proof {
        crate::math_source::lemma_error_at_saturated(
            failure.kind,
            total as int,
            utf8_offset(chars@, failure.pos as int),
        );
    }
    error
}

/// Refuse a source with a byte-order mark or a forbidden character.
pub(crate) fn validate_source_chars(chars: &[char]) -> (r: Result<(), Failure>)
    ensures
        match refused_at(chars@) {
            Some(i) => r matches Err(f) && f.view() == (ParseFailure {
                kind: MathSourceErrorKind::ForbiddenByte,
                pos: i,
            }) && f.pos <= chars@.len(),
            None => r is Ok,
        },
{
    if chars.len() > 0 && chars[0] == '\u{feff}' {
        return Err(Failure { kind: MathSourceErrorKind::ForbiddenByte, pos: 0 });
    }
    let mut index: usize = 0;
    while index < chars.len()
        invariant
            0 <= index <= chars@.len(),
            first_forbidden_from(chars@, 0) == first_forbidden_from(chars@, index as int),
            !(chars@.len() > 0 && chars@[0] == '\u{feff}'),
        decreases chars.len() - index,
    {
        let c = chars[index];
        let v = c as u32;
        if v == 0 || (1 <= v && v <= 0x1f && c != '\n') || (0x7f <= v && v <= 0x9f) {
            assert(forbidden_char(chars@[index as int]));
            assert(first_forbidden_from(chars@, index as int) == Some(index as int));
            assert(!(chars@.len() > 0 && chars@[0] == '\u{feff}'));
            assert(refused_at(chars@) == Some(index as int));
            return Err(Failure { kind: MathSourceErrorKind::ForbiddenByte, pos: index });
        }
        index = index + 1;
    }
    Ok(())
}

} // verus!
