//! Canonical text: JSON string literals, decimal integers and hexadecimal
//! fingerprints, written exactly as the canonical JSON records require.
use vstd::prelude::*;

verus! {

/// Lowercase hexadecimal digit for a value below sixteen.
pub open spec fn hex_digit(value: int) -> char {
    if value < 10 {
        ((value + 48) as u32) as char
    } else {
        ((value + 87) as u32) as char
    }
}

/// Two lowercase hexadecimal digits per byte, most significant first.
pub open spec fn hex_bytes(bytes: Seq<u8>) -> Seq<char>
    decreases bytes.len(),
{
    if bytes.len() == 0 {
        Seq::empty()
    } else {
        hex_bytes(bytes.drop_last()) + seq![
            hex_digit(bytes.last() as int / 16),
            hex_digit(bytes.last() as int % 16),
        ]
    }
}

/// A fingerprint as a quoted JSON string of lowercase hex.
pub open spec fn quoted_hex(bytes: Seq<u8>) -> Seq<char> {
    seq!['"'] + hex_bytes(bytes) + seq!['"']
}

/// Decimal digits of a natural number, without leading zeros ("0" for zero).
pub open spec fn decimal(value: nat) -> Seq<char>
    decreases value,
{
    if value < 10 {
        seq![hex_digit(value as int)]
    } else {
        decimal(value / 10) + seq![hex_digit((value % 10) as int)]
    }
}

/// Decimal text of a signed integer: a minus sign before negative values.
pub open spec fn signed_decimal(value: int) -> Seq<char> {
    if value < 0 {
        seq!['-'] + decimal((-value) as nat)
    } else {
        decimal(value as nat)
    }
}

/// The escape of one character inside a canonical JSON string: quote and
/// backslash are escaped, the five control characters with short forms use
/// them, other characters below U+0020 use `\u00xx`, everything else is kept.
pub open spec fn json_escape(c: char) -> Seq<char> {
    if c == '"' {
        seq!['\\', '"']
    } else if c == '\\' {
        seq!['\\', '\\']
    } else if c == '\u{8}' {
        seq!['\\', 'b']
    } else if c == '\u{c}' {
        seq!['\\', 'f']
    } else if c == '\n' {
        seq!['\\', 'n']
    } else if c == '\r' {
        seq!['\\', 'r']
    } else if c == '\t' {
        seq!['\\', 't']
    } else if (c as u32) < 0x20 {
        seq!['\\', 'u', '0', '0', hex_digit((c as u32) as int / 16), hex_digit((c as u32) as int % 16)]
    } else {
        seq![c]
    }
}

/// Escaped body of a JSON string.
pub open spec fn json_escaped(s: Seq<char>) -> Seq<char>
    decreases s.len(),
{
    if s.len() == 0 {
        Seq::empty()
    } else {
        json_escaped(s.drop_last()) + json_escape(s.last())
    }
}

/// A canonical JSON string literal.
pub open spec fn json_string(s: Seq<char>) -> Seq<char> {
    seq!['"'] + json_escaped(s) + seq!['"']
}

/// Calls `String::push`. Claimed: the character is appended at the end.
#[verifier::external_body]
pub(crate) fn push_char(output: &mut String, c: char)
    ensures
        final(output)@ == old(output)@.push(c),
{
    output.push(c);
}

/// The lowercase hexadecimal digit of a value below sixteen.
pub fn hex_char(value: u8) -> (c: char)
    requires
        value < 16,
    ensures
        c == hex_digit(value as int),
{
    match value {
        0 => '0',
        1 => '1',
        2 => '2',
        3 => '3',
        4 => '4',
        5 => '5',
        6 => '6',
        7 => '7',
        8 => '8',
        9 => '9',
        10 => 'a',
        11 => 'b',
        12 => 'c',
        13 => 'd',
        14 => 'e',
        _ => 'f',
    }
}

/// Append a fingerprint as a quoted lowercase hex string.
pub fn push_hash(output: &mut String, value: &[u8; 32])
    ensures
        final(output)@ == old(output)@ + quoted_hex(value@),
{
    push_char(output, '"');
    let mut index: usize = 0;
    while index < 32
        invariant
            0 <= index <= 32,
            value@.len() == 32,
            output@ == old(output)@ + seq!['"'] + hex_bytes(value@.take(index as int)),
        decreases 32 - index,
    {
        let byte = value[index];
        push_char(output, hex_char(byte / 16));
        push_char(output, hex_char(byte % 16));
        proof {
            let prefix = value@.take(index as int + 1);
            assert(prefix.drop_last() =~= value@.take(index as int));
            assert(prefix.last() == byte);
        }
        index = index + 1;
    }
    assert(value@.take(32) =~= value@);
    push_char(output, '"');
    assert(output@ =~= old(output)@ + quoted_hex(value@));
}

/// Append the decimal digits of an unsigned value.
pub fn push_u64(output: &mut String, value: u64)
    ensures
        final(output)@ == old(output)@ + decimal(value as nat),
    decreases value,
{
    if value >= 10 {
        push_u64(output, value / 10);
    }
    push_char(output, hex_char((value % 10) as u8));
    assert(output@ =~= old(output)@ + decimal(value as nat));
}

/// Append the decimal text of a signed value.
pub fn push_i64(output: &mut String, value: i64)
    ensures
        final(output)@ == old(output)@ + signed_decimal(value as int),
{
    if value < 0 {
        push_char(output, '-');
        let magnitude: u64 = if value == i64::MIN {
            9223372036854775808u64
        } else {
            (-value) as u64
        };
        push_u64(output, magnitude);
        assert(output@ =~= old(output)@ + signed_decimal(value as int));
    } else {
        push_u64(output, value as u64);
    }
}

/// Append one character as it stands inside a JSON string.
pub(crate) fn push_json_char(output: &mut String, c: char)
    ensures
        final(output)@ == old(output)@ + json_escape(c),
{
    let ghost start = output@;
    if c == '"' {
        push_char(output, '\\');
        push_char(output, '"');
    } else if c == '\\' {
        push_char(output, '\\');
        push_char(output, '\\');
    } else if c == '\u{8}' {
        push_char(output, '\\');
        push_char(output, 'b');
    } else if c == '\u{c}' {
        push_char(output, '\\');
        push_char(output, 'f');
    } else if c == '\n' {
        push_char(output, '\\');
        push_char(output, 'n');
    } else if c == '\r' {
        push_char(output, '\\');
        push_char(output, 'r');
    } else if c == '\t' {
        push_char(output, '\\');
        push_char(output, 't');
    } else if (c as u32) < 0x20 {
        let code = c as u32;
        push_char(output, '\\');
        push_char(output, 'u');
        push_char(output, '0');
        push_char(output, '0');
        push_char(output, hex_char((code / 16) as u8));
        push_char(output, hex_char((code % 16) as u8));
    } else {
        push_char(output, c);
    }
    assert(output@ =~= start + json_escape(c));
}

/// Append a canonical JSON string literal for `value`.
pub fn push_json_chars(output: &mut String, value: &Vec<char>)
    ensures
        final(output)@ == old(output)@ + json_string(value@),
{
    push_char(output, '"');
    let mut index: usize = 0;
    while index < value.len()
        invariant
            0 <= index <= value@.len(),
            output@ == old(output)@ + seq!['"'] + json_escaped(value@.take(index as int)),
        decreases value.len() - index,
    {
        push_json_char(output, value[index]);
        proof {
            let prefix = value@.take(index as int + 1);
            assert(prefix.drop_last() =~= value@.take(index as int));
        }
        index = index + 1;
    }
    assert(value@.take(value@.len() as int) =~= value@);
    push_char(output, '"');
    assert(output@ =~= old(output)@ + json_string(value@));
}

} // verus!

verus! {

/// The characters of `s`, in order.
pub(crate) fn str_chars(s: &str) -> (chars: Vec<char>)
    ensures
        chars@ == s@,
{
    broadcast use vstd::string::axiom_spec_iter;

    let mut out: Vec<char> = Vec::new();
    for c in it: s.chars()
        invariant
            out@ == it.seq().take(it.index() as int),
    {
        out.push(c);
    }
    out
}

/// A string that holds exactly these characters, in order.
pub(crate) fn string_from_chars(chars: &Vec<char>) -> (s: String)
    ensures
        s@ == chars@,
{
    let mut out = String::new();
    let mut index: usize = 0;
    while index < chars.len()
        invariant
            0 <= index <= chars@.len(),
            out@ == chars@.take(index as int),
        decreases chars.len() - index,
    {
        push_char(&mut out, chars[index]);
        assert(chars@.take(index as int + 1) =~= chars@.take(index as int).push(chars@[index as int]));
        index = index + 1;
    }
    assert(chars@.take(chars@.len() as int) =~= chars@);
    out
}

/// Append a canonical JSON string literal for a `&str`.
pub fn push_json_str(output: &mut String, value: &str)
    ensures
        final(output)@ == old(output)@ + json_string(value@),
{
    let chars = str_chars(value);
    push_json_chars(output, &chars);
}

/// Append all characters of `more`.
pub fn extend_chars(output: &mut Vec<char>, more: &Vec<char>)
    ensures
        final(output)@ == old(output)@ + more@,
{
    let mut index: usize = 0;
    while index < more.len()
        invariant
            0 <= index <= more@.len(),
            output@ == old(output)@ + more@.take(index as int),
        decreases more.len() - index,
    {
        output.push(more[index]);
        assert(more@.take(index as int + 1) =~= more@.take(index as int).push(more@[index as int]));
        index = index + 1;
    }
    assert(more@.take(more@.len() as int) =~= more@);
}

} // verus!

verus! {

/// Comma-separated encodings of the items of a list.
pub open spec fn joined<T>(items: Seq<T>, f: spec_fn(T) -> Seq<char>) -> Seq<char>
    decreases items.len(),
{
    if items.len() == 0 {
        Seq::empty()
    } else if items.len() == 1 {
        f(items[0])
    } else {
        joined(items.drop_last(), f) + seq![','] + f(items.last())
    }
}

/// Appending one more item to a joined list.
pub proof fn lemma_joined_step<T>(items: Seq<T>, f: spec_fn(T) -> Seq<char>, i: int)
    requires
        0 <= i < items.len(),
    ensures
        joined(items.take(i + 1), f) == joined(items.take(i), f) + (if i > 0 {
            seq![',']
        } else {
            Seq::<char>::empty()
        }) + f(items[i]),
{
    let prefix = items.take(i + 1);
    assert(prefix.drop_last() =~= items.take(i));
    assert(prefix.last() == items[i]);
    if i == 0 {
        assert(items.take(0) =~= Seq::<T>::empty());
        assert(joined(items.take(0), f) =~= Seq::<char>::empty());
        assert(joined(prefix, f) == f(items[0]));
    }
    assert(joined(items.take(i + 1), f) =~= joined(items.take(i), f) + (if i > 0 {
        seq![',']
    } else {
        Seq::<char>::empty()
    }) + f(items[i]));
}

} // verus!
