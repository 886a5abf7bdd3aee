use vstd::prelude::*;

verus! {

/// Appends one character to an owned string (`String::push`).
#[verifier::external_body]
pub fn push_char(s: &mut String, c: char)
    ensures
        final(s)@ == old(s)@.push(c),
{
    s.push(c);
}

/// Copies the characters of a string slice into a vector (`str::chars`
/// collected in order).
pub fn chars_of(s: &str) -> (out: Vec<char>)
    ensures
        out@ == s@,
{
    let mut out: Vec<char> = Vec::new();
    for c in it: s.chars()
        invariant
            out@ == it.seq().take(it.index() as int),
    {
        out.push(c);
    }
    out
}

} // verus!

verus! {

/// Whether two byte slices hold the same bytes.
pub fn same_bytes(a: &[u8], b: &[u8]) -> (same: bool)
    ensures
        same == (a@ == b@),
{
    if a.len() != b.len() {
        return false;
    }
    let mut i: usize = 0;
    while i < a.len()
        invariant
            i <= a@.len(),
            a@.len() == b@.len(),
            forall|j: int| 0 <= j < i ==> a@[j] == b@[j],
        decreases a@.len() - i,
    {
        if a[i] != b[i] {
            return false;
        }
        i = i + 1;
    }
    assert(a@ =~= b@);
    true
}

/// Appends a byte slice to a byte vector.
pub fn append_bytes(out: &mut Vec<u8>, bytes: &[u8])
    ensures
        final(out)@ == old(out)@ + bytes@,
{
    let ghost start = out@;
    let mut i: usize = 0;
    while i < bytes.len()
        invariant
            i <= bytes@.len(),
            out@ == start + bytes@.take(i as int),
        decreases bytes@.len() - i,
    {
        out.push(bytes[i]);
        i = i + 1;
        assert(out@ =~= start + bytes@.take(i as int));
    }
    assert(bytes@.take(i as int) =~= bytes@);
}

} // verus!

verus! {

/// ASCII letters and digits.
pub open spec fn is_ascii_alnum(byte: u8) -> bool {
    (48 <= byte && byte <= 57) || (65 <= byte && byte <= 90) || (97 <= byte && byte <= 122)
}

pub fn ascii_alnum(byte: u8) -> (r: bool)
    ensures
        r == is_ascii_alnum(byte),
{
    (48 <= byte && byte <= 57) || (65 <= byte && byte <= 90) || (97 <= byte && byte <= 122)
}

/// Checks UTF-8 and views the bytes as a string slice (`std::str::from_utf8`).
#[verifier::external_body]
pub fn utf8_str<'a>(bytes: &'a [u8]) -> (r: Option<&'a str>)
    ensures
        match r {
            Some(text) => vstd::utf8::valid_utf8(bytes@) && text@ == vstd::utf8::decode_utf8(bytes@),
            None => !vstd::utf8::valid_utf8(bytes@),
        },
{
    std::str::from_utf8(bytes).ok()
}

/// An owned copy of a string slice.
pub fn owned(text: &str) -> (out: String)
    ensures
        out@ == text@,
{
    text.to_owned()
}

} // verus!

verus! {

/// Decimal digits of a natural number, most significant first.
pub open spec fn decimal_chars(n: nat) -> Seq<char>
    decreases n,
{
    if n < 10 {
        seq![(n + 48) as char]
    } else {
        decimal_chars(n / 10).push(((n % 10) + 48) as char)
    }
}

/// Appends the decimal rendering of `n`.
pub fn push_decimal(out: &mut String, n: u64)
    ensures
        final(out)@ == old(out)@ + decimal_chars(n as nat),
    decreases n,
{
    if n >= 10 {
        push_decimal(out, n / 10);
    }
    let digit = (n % 10) as u8;
    push_char(out, (digit + 48) as char);
    proof {
        if n >= 10 {
            assert(final(out)@ =~= old(out)@ + decimal_chars(n as nat));
        } else {
            assert(final(out)@ =~= old(out)@ + decimal_chars(n as nat));
        }
    }
}

/// Appends a string slice.
pub fn push_str(out: &mut String, text: &str)
    ensures
        final(out)@ == old(out)@ + text@,
{
    out.append(text);
}

} // verus!

verus! {

/// The text that Rust's `Debug` formatting gives a string: the string in
/// double quotes with quotes, backslashes and non-printable characters
/// escaped.
pub uninterp spec fn debug_text(text: Seq<char>) -> Seq<char>;

/// `format!("{:?}", text)`.
#[verifier::external_body]
pub fn debug_quoted(text: &str) -> (out: String)
    ensures
        out@ == debug_text(text@),
{
    format!("{:?}", text)
}

/// An owned string holding exactly the given characters.
pub fn string_of(chars: &[char]) -> (out: String)
    ensures
        out@ == chars@,
{
    let mut out = String::new();
    let mut i: usize = 0;
    while i < chars.len()
        invariant
            i <= chars@.len(),
            out@ == chars@.take(i as int),
        decreases chars@.len() - i,
    {
        push_char(&mut out, chars[i]);
        i = i + 1;
        assert(out@ =~= chars@.take(i as int));
    }
    assert(chars@.take(i as int) =~= chars@);
    out
}

/// Whether two character slices hold the same characters.
pub fn same_chars(a: &[char], b: &[char]) -> (same: bool)
    ensures
        same == (a@ == b@),
{
    if a.len() != b.len() {
        return false;
    }
    let mut i: usize = 0;
    while i < a.len()
        invariant
            i <= a@.len(),
            a@.len() == b@.len(),
            forall|j: int| 0 <= j < i ==> a@[j] == b@[j],
        decreases a@.len() - i,
    {
        if a[i] != b[i] {
            return false;
        }
        i = i + 1;
    }
    assert(a@ =~= b@);
    true
}

/// The first position at or after `from` where `pattern` occurs in `text`.
pub open spec fn find_from(text: Seq<char>, pattern: Seq<char>, from: int) -> Option<int>
    decreases text.len() + 1 - from,
{
    if from < 0 || from + pattern.len() > text.len() {
        None
    } else if text.subrange(from, from + pattern.len()) == pattern {
        Some(from)
    } else {
        find_from(text, pattern, from + 1)
    }
}

/// A match found at or after `from` lies wholly inside `text`.
pub proof fn lemma_find_from_bounds(text: Seq<char>, pattern: Seq<char>, from: int)
    ensures
        find_from(text, pattern, from) matches Some(i) ==> from <= i && i + pattern.len()
            <= text.len() && text.subrange(i, i + pattern.len()) == pattern,
    decreases text.len() + 1 - from,
{
    if !(from < 0 || from + pattern.len() > text.len()) && text.subrange(
        from,
        from + pattern.len(),
    ) != pattern {
        lemma_find_from_bounds(text, pattern, from + 1);
    }
}

/// Whether `pattern` occurs in `text` at `at`.
/// Text with a character encodes to at least one byte.
pub proof fn lemma_encode_nonempty(chars: Seq<char>)
    requires
        chars.len() > 0,
    ensures
        vstd::utf8::encode_utf8(chars).len() > 0,
{
    assert(vstd::utf8::encode_scalar(chars[0] as u32).len() > 0);
}

/// Whether a string slice holds exactly the given text.
pub fn same_text(value: &str, word: &str) -> (r: bool)
    ensures
        r == (value@ == word@),
{
    let a = chars_of(value);
    let b = chars_of(word);
    same_chars(a.as_slice(), b.as_slice())
}

pub fn occurs_at(text: &[char], pattern: &[char], at: usize) -> (r: bool)
    requires
        at + pattern@.len() <= text@.len(),
    ensures
        r == (text@.subrange(at as int, at + pattern@.len()) == pattern@),
{
    let n = text.len();
    let mut i: usize = 0;
    while i < pattern.len()
        invariant
            i <= pattern@.len(),
            n == text@.len(),
            at + pattern@.len() <= text@.len(),
            forall|j: int| 0 <= j < i ==> text@[at + j] == pattern@[j],
        decreases pattern@.len() - i,
    {
        if text[at + i] != pattern[i] {
            assert(text@.subrange(at as int, at + pattern@.len())[i as int] != pattern@[i as int]);
            return false;
        }
        i = i + 1;
    }
    assert(text@.subrange(at as int, at + pattern@.len()) =~= pattern@);
    true
}

/// The first occurrence of `pattern` at or after `from`.
pub fn find_chars(text: &[char], pattern: &[char], from: usize) -> (r: Option<usize>)
    ensures
        match r {
            Some(i) => find_from(text@, pattern@, from as int) == Some(i as int),
            None => find_from(text@, pattern@, from as int) is None,
        },
{
    let n = text.len();
    let mut i: usize = from;
    while i <= n && pattern.len() <= n - i
        invariant
            from <= i,
            n == text@.len(),
            find_from(text@, pattern@, from as int) == find_from(text@, pattern@, i as int),
        decreases text@.len() + 1 - i,
    {
        if occurs_at(text, pattern, i) {
            return Some(i);
        }
        if i == n {
            assert(find_from(text@, pattern@, i + 1) is None);
            return None;
        }
        i = i + 1;
    }
    None
}

} // verus!

verus! {

pub open spec fn is_digit_char(c: char) -> bool {
    '0' <= c && c <= '9'
}

/// The value of a run of decimal digits.
pub open spec fn decimal_value(digits: Seq<char>) -> nat
    decreases digits.len(),
{
    if digits.len() == 0 {
        0
    } else {
        decimal_value(digits.drop_last()) * 10 + (digits.last() as nat - 48) as nat
    }
}

/// The digits of an unsigned number, after an optional leading `+`.
pub open spec fn unsigned_digits(text: Seq<char>) -> Seq<char> {
    if text.len() > 0 && text[0] == '+' {
        text.skip(1)
    } else {
        text
    }
}

/// What parsing an unsigned integer no larger than `max` gives, as Rust's
/// `FromStr` for unsigned integers does: an optional `+` and at least one
/// ASCII digit, with the value in range.
pub open spec fn parse_unsigned(text: Seq<char>, max: nat) -> Option<nat> {
    let digits = unsigned_digits(text);
    if digits.len() > 0 && (forall|i: int| 0 <= i < digits.len() ==> is_digit_char(#[trigger] digits[i]))
        && decimal_value(digits) <= max {
        Some(decimal_value(digits))
    } else {
        None
    }
}

/// A longer run of digits is worth at least as much as its prefix.
proof fn lemma_decimal_value_prefix(digits: Seq<char>, i: int)
    requires
        0 <= i <= digits.len(),
        forall|j: int| 0 <= j < digits.len() ==> is_digit_char(#[trigger] digits[j]),
    ensures
        decimal_value(digits.take(i)) <= decimal_value(digits),
    decreases digits.len(),
{
    if i < digits.len() {
        assert(digits.drop_last().take(i) =~= digits.take(i));
        lemma_decimal_value_prefix(digits.drop_last(), i);
    } else {
        assert(digits.take(i) =~= digits);
    }
}

/// Parses an unsigned decimal integer no larger than `max`.
pub fn parse_unsigned_chars(text: &[char], max: u64) -> (r: Option<u64>)
    ensures
        match r {
            Some(value) => parse_unsigned(text@, max as nat) == Some(value as nat),
            None => parse_unsigned(text@, max as nat) is None,
        },
{
    let n = text.len();
    let start: usize = if n > 0 && text[0] == '+' {
        1
    } else {
        0
    };
    let ghost digits = unsigned_digits(text@);
    assert(digits =~= text@.skip(start as int));
    if start == n {
        return None;
    }
    let mut value: u64 = 0;
    let mut i: usize = start;
    while i < n
        invariant
            start <= i <= n,
            n == text@.len(),
            digits == text@.skip(start as int),
            digits == unsigned_digits(text@),
            value as nat == decimal_value(digits.take(i - start)),
            value <= max,
            forall|j: int| 0 <= j < i - start ==> is_digit_char(#[trigger] digits[j]),
        decreases n - i,
    {
        let c = text[i];
        if !('0' <= c && c <= '9') {
            assert(!is_digit_char(digits[i - start]));
            return None;
        }
        let digit = (c as u32 - 48) as u64;
        assert(digits.take(i - start + 1).drop_last() =~= digits.take(i - start));
        if (value as u128) * 10 + (digit as u128) > max as u128 {
            proof {
                assert(decimal_value(digits.take(i - start + 1)) == value * 10 + digit);
                if forall|j: int| 0 <= j < digits.len() ==> is_digit_char(#[trigger] digits[j]) {
                    lemma_decimal_value_prefix(digits, i - start + 1);
                }
            }
            return None;
        }
        value = value * 10 + digit;
        i = i + 1;
    }
    assert(digits.take(i - start) =~= digits);
    Some(value)
}

} // verus!

verus! {

/// The pieces of `text` between occurrences of `separator`, as
/// `str::split` yields them.
pub open spec fn split_at(text: Seq<char>, separator: char) -> Seq<Seq<char>>
    decreases text.len(),
{
    if text.len() == 0 {
        seq![Seq::<char>::empty()]
    } else {
        let pieces = split_at(text.drop_last(), separator);
        if text.last() == separator {
            pieces.push(Seq::<char>::empty())
        } else {
            pieces.update(pieces.len() - 1, pieces.last().push(text.last()))
        }
    }
}

pub proof fn lemma_split_at_nonempty(text: Seq<char>, separator: char)
    ensures
        split_at(text, separator).len() >= 1,
    decreases text.len(),
{
    if text.len() > 0 {
        lemma_split_at_nonempty(text.drop_last(), separator);
    }
}

/// Splits the characters at each separator.
pub fn split_chars(text: &[char], separator: char) -> (pieces: Vec<Vec<char>>)
    ensures
        pieces@.map_values(|piece: Vec<char>| piece@) == split_at(text@, separator),
{
    let mut pieces: Vec<Vec<char>> = Vec::new();
    let mut current: Vec<char> = Vec::new();
    let mut i: usize = 0;
    while i < text.len()
        invariant
            i <= text@.len(),
            pieces@.map_values(|piece: Vec<char>| piece@).push(current@) == split_at(
                text@.take(i as int),
                separator,
            ),
        decreases text@.len() - i,
    {
        proof {
            assert(text@.take(i + 1).drop_last() =~= text@.take(i as int));
            lemma_split_at_nonempty(text@.take(i as int), separator);
        }
        if text[i] == separator {
            let finished = current;
            current = Vec::new();
            pieces.push(finished);
            assert(pieces@.map_values(|piece: Vec<char>| piece@).push(current@) =~= split_at(
                text@.take(i + 1),
                separator,
            ));
        } else {
            current.push(text[i]);
            assert(pieces@.map_values(|piece: Vec<char>| piece@).push(current@) =~= split_at(
                text@.take(i + 1),
                separator,
            ));
        }
        i = i + 1;
    }
    assert(text@.take(i as int) =~= text@);
    pieces.push(current);
    pieces
}

} // verus!
