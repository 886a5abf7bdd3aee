use vstd::prelude::*;
use crate::text::push_char;

verus! {

/// The lowercase hexadecimal digit for a nibble.
pub open spec fn hex_char(nibble: int) -> char {
    if nibble < 10 {
        (nibble + 48) as char
    } else {
        (nibble + 87) as char
    }
}

/// Lowercase hexadecimal rendering of a byte sequence: two digits per byte,
/// most significant nibble first.
pub open spec fn lower_hex_chars(bytes: Seq<u8>) -> Seq<char> {
    Seq::new(
        (2 * bytes.len()) as nat,
        |i: int|
            if i % 2 == 0 {
                hex_char((bytes[i / 2] / 16) as int)
            } else {
                hex_char((bytes[i / 2] % 16) as int)
            },
    )
}

/// Whether a byte is one of `0-9a-f`.
pub open spec fn is_lower_hex_digit(byte: u8) -> bool {
    (48 <= byte && byte <= 57) || (97 <= byte && byte <= 102)
}

/// The value of a lowercase hexadecimal digit.
pub open spec fn lower_hex_value(byte: u8) -> int {
    if byte <= 57 {
        byte - 48
    } else {
        byte - 87
    }
}

fn nibble_char(nibble: u8) -> (c: char)
    requires
        nibble < 16,
    ensures
        c == hex_char(nibble as int),
{
    if nibble < 10 {
        (nibble + 48) as char
    } else {
        (nibble + 87) as char
    }
}

/// Appends the lowercase hexadecimal rendering of `bytes` to `out`.
pub fn push_lower_hex(out: &mut String, bytes: &[u8])
    ensures
        final(out)@ == old(out)@ + lower_hex_chars(bytes@),
{
    let ghost start = out@;
    let mut i: usize = 0;
    while i < bytes.len()
        invariant
            i <= bytes@.len(),
            out@ == start + lower_hex_chars(bytes@.take(i as int)),
        decreases bytes@.len() - i,
    {
        let byte = bytes[i];
        push_char(out, nibble_char(byte / 16));
        push_char(out, nibble_char(byte % 16));
        i = i + 1;
        assert(out@ =~= start + lower_hex_chars(bytes@.take(i as int)));
    }
    assert(bytes@.take(i as int) =~= bytes@);
}

/// Renders bytes as lowercase hexadecimal.
pub fn lower_hex(bytes: &[u8]) -> (out: String)
    ensures
        out@ == lower_hex_chars(bytes@),
{
    let mut out = String::new();
    push_lower_hex(&mut out, bytes);
    assert(out@ =~= lower_hex_chars(bytes@));
    out
}

/// The value of one lowercase hexadecimal digit, if it is one.
pub fn lower_hex_digit_value(byte: u8) -> (r: Option<u8>)
    ensures
        match r {
            Some(v) => is_lower_hex_digit(byte) && v == lower_hex_value(byte),
            None => !is_lower_hex_digit(byte),
        },
{
    if 48 <= byte && byte <= 57 {
        Some(byte - 48)
    } else if 97 <= byte && byte <= 102 {
        Some(byte - 87)
    } else {
        None
    }
}

} // verus!
