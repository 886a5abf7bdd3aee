//! The `hoplite.host` service: the native capabilities that HAL code may
//! call (hashing, hex and base64url codecs, signature checks, secure random
//! bytes and the clock), each with bounded inputs and exact failures.

use vstd::prelude::*;
use base64::engine::general_purpose::URL_SAFE_NO_PAD;
use base64::Engine;
use ed25519_dalek::Verifier;
use vstd::slice::slice_to_vec;
use vstd::utf8::encode_utf8;
use crate::hal::HalValue;
use crate::hex::{
    hex_char, is_lower_hex_digit, lower_hex, lower_hex_chars, lower_hex_digit_value,
    lower_hex_value, push_lower_hex,
};
use crate::sha::{sha256, sha256_of};
use crate::text::{
    debug_quoted, debug_text, decimal_chars, owned, push_decimal, push_str, same_text,
};

verus! {

/// What a host operation hands back, in the terms its contracts use.
pub enum Answer {
    Bytes(Seq<u8>),
    Text(Seq<char>),
    Flag(bool),
    Integer(i64),
    Other,
}

pub open spec fn answer(value: HalValue) -> Answer {
    match value {
        HalValue::Bytes(b) => Answer::Bytes(b@),
        HalValue::String(s) => Answer::Text(s@),
        HalValue::Bool(b) => Answer::Flag(b),
        HalValue::Number(n) => Answer::Integer(n),
        _ => Answer::Other,
    }
}

/// A host result with its failure message as text.
pub open spec fn outcome(r: Result<HalValue, String>) -> Result<Answer, Seq<char>> {
    match r {
        Ok(value) => Ok(answer(value)),
        Err(message) => Err(message@),
    }
}

pub open spec fn arg(args: Seq<HalValue>, index: int) -> Option<HalValue> {
    if 0 <= index < args.len() {
        Some(args[index])
    } else {
        None
    }
}

/// An integer argument.
pub open spec fn number_arg_spec(args: Seq<HalValue>, index: int, label: Seq<char>) -> Result<
    i64,
    Seq<char>,
> {
    match arg(args, index) {
        Some(HalValue::Number(n)) => Ok(n),
        _ => Err(label + " must be an integer"@),
    }
}

/// A string argument.
pub open spec fn text_arg_spec(args: Seq<HalValue>, index: int, label: Seq<char>) -> Result<
    Seq<char>,
    Seq<char>,
> {
    match arg(args, index) {
        Some(HalValue::String(s)) => Ok(s@),
        _ => Err(label + " must be a string"@),
    }
}

/// A byte-string argument.
pub open spec fn bytes_arg_spec(args: Seq<HalValue>, index: int, label: Seq<char>) -> Result<
    Seq<u8>,
    Seq<char>,
> {
    match arg(args, index) {
        Some(HalValue::Bytes(b)) => Ok(b@),
        _ => Err(label + " must be bytes"@),
    }
}

/// Data to digest or verify: bytes, a byte buffer's contents, or a
/// string's UTF-8 encoding.
pub open spec fn data_arg_spec(args: Seq<HalValue>, index: int, label: Seq<char>) -> Result<
    Seq<u8>,
    Seq<char>,
> {
    match arg(args, index) {
        Some(HalValue::Bytes(b)) => Ok(b@),
        Some(HalValue::ByteBuffer(b)) => Ok(b@),
        Some(HalValue::String(s)) => Ok(encode_utf8(s@)),
        _ => Err(label + " must be bytes or a string"@),
    }
}

pub open spec fn plain<T>(r: Result<T, String>) -> Result<T, Seq<char>> {
    match r {
        Ok(v) => Ok(v),
        Err(message) => Err(message@),
    }
}

pub open spec fn text_result(r: Result<&str, String>) -> Result<Seq<char>, Seq<char>> {
    match r {
        Ok(t) => Ok(t@),
        Err(message) => Err(message@),
    }
}

pub open spec fn bytes_result(r: Result<&[u8], String>) -> Result<Seq<u8>, Seq<char>> {
    match r {
        Ok(b) => Ok(b@),
        Err(message) => Err(message@),
    }
}

pub open spec fn data_result(r: Result<Vec<u8>, String>) -> Result<Seq<u8>, Seq<char>> {
    match r {
        Ok(b) => Ok(b@),
        Err(message) => Err(message@),
    }
}

fn message(first: &str, second: &str) -> (m: String)
    ensures
        m@ == first@ + second@,
{
    let mut m = owned(first);
    push_str(&mut m, second);
    m
}

fn number_arg(args: &[HalValue], index: usize, label: &str) -> (r: Result<i64, String>)
    ensures
        plain(r) == number_arg_spec(args@, index as int, label@),
{
    if index < args.len() {
        if let HalValue::Number(n) = &args[index] {
            return Ok(*n);
        }
    }
    Err(message(label, " must be an integer"))
}

fn text_arg<'a>(args: &'a [HalValue], index: usize, label: &str) -> (r: Result<&'a str, String>)
    ensures
        text_result(r) == text_arg_spec(args@, index as int, label@),
{
    if index < args.len() {
        if let HalValue::String(s) = &args[index] {
            return Ok(s.as_str());
        }
    }
    Err(message(label, " must be a string"))
}

fn bytes_arg<'a>(args: &'a [HalValue], index: usize, label: &str) -> (r: Result<&'a [u8], String>)
    ensures
        bytes_result(r) == bytes_arg_spec(args@, index as int, label@),
{
    if index < args.len() {
        if let HalValue::Bytes(b) = &args[index] {
            return Ok(b.as_slice());
        }
    }
    Err(message(label, " must be bytes"))
}

fn data_arg(args: &[HalValue], index: usize, label: &str) -> (r: Result<Vec<u8>, String>)
    ensures
        data_result(r) == data_arg_spec(args@, index as int, label@),
{
    if index < args.len() {
        match &args[index] {
            HalValue::Bytes(b) => return Ok(slice_to_vec(b.as_slice())),
            HalValue::ByteBuffer(b) => return Ok(slice_to_vec(b.as_slice())),
            HalValue::String(s) => return Ok(slice_to_vec(s.as_str().as_bytes())),
            _ => {},
        }
    }
    Err(message(label, " must be bytes or a string"))
}

// ---------------------------------------------------------------------------
// Hexadecimal
// ---------------------------------------------------------------------------

/// The bytes that consecutive pairs of lowercase hex digits stand for.
pub open spec fn hex_pairs(digits: Seq<u8>) -> Seq<u8> {
    Seq::new(
        (digits.len() / 2) as nat,
        |i: int| (lower_hex_value(digits[2 * i]) * 16 + lower_hex_value(digits[2 * i + 1])) as u8,
    )
}

pub open spec fn all_lower_hex(digits: Seq<u8>) -> bool {
    forall|i: int| 0 <= i < digits.len() ==> is_lower_hex_digit(#[trigger] digits[i])
}

/// `hex-decode`: one string of canonical lowercase hex, an even number of
/// digits, at most 1 MiB decoded.
pub open spec fn hex_decode_spec(args: Seq<HalValue>) -> Result<Answer, Seq<char>> {
    if args.len() != 1 {
        Err("hex-decode requires one lowercase string"@)
    } else {
        match text_arg_spec(args, 0, "hex value"@) {
            Err(m) => Err(m),
            Ok(text) => {
                let digits = encode_utf8(text);
                if digits.len() == 0 || digits.len() > 2_097_152 || digits.len() % 2 != 0 {
                    Err("hex value must be non-empty, even-length, and at most 1 MiB decoded"@)
                } else if !all_lower_hex(digits) {
                    Err("hex value must use canonical lowercase hexadecimal"@)
                } else {
                    Ok(Answer::Bytes(hex_pairs(digits)))
                }
            },
        }
    }
}

pub fn hex_decode(args: &[HalValue]) -> (r: Result<HalValue, String>)
    ensures
        outcome(r) == hex_decode_spec(args@),
{
    if args.len() != 1 {
        return Err(owned("hex-decode requires one lowercase string"));
    }
    let input = match text_arg(args, 0, "hex value") {
        Ok(text) => text,
        Err(m) => return Err(m),
    };
    let digits = input.as_bytes();
    if digits.len() == 0 || digits.len() > 2_097_152 || digits.len() % 2 != 0 {
        return Err(owned("hex value must be non-empty, even-length, and at most 1 MiB decoded"));
    }
    let ghost text = input@;
    let mut i: usize = 0;
    while i < digits.len()
        invariant
            i <= digits@.len(),
            args@.len() == 1,
            text_arg_spec(args@, 0, "hex value"@) == Ok::<Seq<char>, Seq<char>>(text),
            digits@ == encode_utf8(text),
            0 < digits@.len() <= 2_097_152,
            digits@.len() % 2 == 0,
            forall|j: int| 0 <= j < i ==> is_lower_hex_digit(#[trigger] digits@[j]),
        decreases digits@.len() - i,
    {
        if lower_hex_digit_value(digits[i]).is_none() {
            assert(!is_lower_hex_digit(digits@[i as int]));
            return Err(owned("hex value must use canonical lowercase hexadecimal"));
        }
        i = i + 1;
    }
    let ghost expected = hex_pairs(digits@);
    let half = digits.len() / 2;
    let mut out: Vec<u8> = Vec::new();
    let mut k: usize = 0;
    while k < half
        invariant
            half == digits@.len() / 2,
            digits@.len() <= 2_097_152,
            k <= half,
            all_lower_hex(digits@),
            expected == hex_pairs(digits@),
            out@ == expected.take(k as int),
        decreases half - k,
    {
        assert(2 * k + 1 < digits@.len());
        let high = digits[2 * k];
        let low = digits[2 * k + 1];
        assert(is_lower_hex_digit(digits@[2 * k as int]));
        assert(is_lower_hex_digit(digits@[2 * k + 1]));
        let h = if high <= 57 { high - 48 } else { high - 87 };
        let l = if low <= 57 { low - 48 } else { low - 87 };
        out.push(h * 16 + l);
        k = k + 1;
        assert(out@ =~= expected.take(k as int));
    }
    assert(out@ =~= expected);
    Ok(HalValue::Bytes(out))
}

/// `hex-encode`: one byte string of 1 byte to 1 MiB, as lowercase hex.
pub open spec fn hex_encode_spec(args: Seq<HalValue>) -> Result<Answer, Seq<char>> {
    if args.len() != 1 {
        Err("hex-encode requires one byte value"@)
    } else {
        match bytes_arg_spec(args, 0, "hex value"@) {
            Err(m) => Err(m),
            Ok(bytes) => if bytes.len() == 0 || bytes.len() > 1_048_576 {
                Err("hex value must contain between 1 byte and 1 MiB"@)
            } else {
                Ok(Answer::Text(lower_hex_chars(bytes)))
            },
        }
    }
}

pub fn hex_encode(args: &[HalValue]) -> (r: Result<HalValue, String>)
    ensures
        outcome(r) == hex_encode_spec(args@),
{
    if args.len() != 1 {
        return Err(owned("hex-encode requires one byte value"));
    }
    let input = match bytes_arg(args, 0, "hex value") {
        Ok(bytes) => bytes,
        Err(m) => return Err(m),
    };
    if input.len() == 0 || input.len() > 1_048_576 {
        return Err(owned("hex value must contain between 1 byte and 1 MiB"));
    }
    Ok(HalValue::String(lower_hex(input)))
}

// ---------------------------------------------------------------------------
// Digests
// ---------------------------------------------------------------------------

/// `hash`: the algorithm name (only `sha256`) and the data.
pub open spec fn hash_spec(args: Seq<HalValue>) -> Result<Answer, Seq<char>> {
    if args.len() != 2 {
        Err("hash currently supports only sha256"@)
    } else {
        match text_arg_spec(args, 0, "hash algorithm"@) {
            Err(m) => Err(m),
            Ok(algorithm) => if algorithm != "sha256"@ {
                Err("hash currently supports only sha256"@)
            } else {
                match data_arg_spec(args, 1, "hash value"@) {
                    Err(m) => Err(m),
                    Ok(data) => Ok(Answer::Bytes(sha256_of(data))),
                }
            },
        }
    }
}

pub fn hash(args: &[HalValue]) -> (r: Result<HalValue, String>)
    ensures
        outcome(r) == hash_spec(args@),
{
    if args.len() != 2 {
        return Err(owned("hash currently supports only sha256"));
    }
    match text_arg(args, 0, "hash algorithm") {
        Err(m) => return Err(m),
        Ok(algorithm) => {
            if !same_text(algorithm, "sha256") {
                return Err(owned("hash currently supports only sha256"));
            }
        },
    }
    let input = match data_arg(args, 1, "hash value") {
        Ok(data) => data,
        Err(m) => return Err(m),
    };
    let digest = sha256(input.as_slice());
    Ok(HalValue::Bytes(slice_to_vec(digest.as_slice())))
}

/// The `sha256:` digest text of a canonical frame.
pub open spec fn digest_text(frame: Seq<u8>) -> Seq<char> {
    "sha256:"@ + lower_hex_chars(sha256_of(frame))
}

/// `canonical-value-digest`, given what encoding the single argument as a
/// canonical HTA frame gave: the encoder's failure, a frame over 8 MiB, or
/// the frame's `sha256:` digest text.
pub open spec fn canonical_digest_spec(encoded: Result<Seq<u8>, Seq<char>>) -> Result<
    Answer,
    Seq<char>,
> {
    match encoded {
        Err(error) => Err("cannot encode canonical HTA value: "@ + error),
        Ok(frame) => if frame.len() > 8 * 1024 * 1024 {
            Err("canonical HTA value exceeds the 8 MiB limit"@)
        } else {
            Ok(Answer::Text(digest_text(frame)))
        },
    }
}

pub fn canonical_value_digest(encoded: Result<Vec<u8>, String>) -> (r: Result<HalValue, String>)
    ensures
        outcome(r) == canonical_digest_spec(data_result(encoded)),
{
    let frame = match encoded {
        Err(error) => return Err(message("cannot encode canonical HTA value: ", error.as_str())),
        Ok(frame) => frame,
    };
    if frame.len() > 8 * 1024 * 1024 {
        return Err(owned("canonical HTA value exceeds the 8 MiB limit"));
    }
    let digest = sha256(frame.as_slice());
    let mut text = owned("sha256:");
    push_lower_hex(&mut text, digest.as_slice());
    Ok(HalValue::String(text))
}

// ---------------------------------------------------------------------------
// Clock
// ---------------------------------------------------------------------------

/// `now`, given the whole seconds since the Unix epoch that the system
/// clock reported (`None` when the clock is before the epoch).
pub open spec fn clock_spec(seconds: Option<u64>) -> Result<Answer, Seq<char>> {
    match seconds {
        None => Err("system clock is before the Unix epoch"@),
        Some(s) => if s > i64::MAX {
            Err("system clock is out of range"@)
        } else {
            Ok(Answer::Integer(s as i64))
        },
    }
}

pub fn clock_answer(seconds: Option<u64>) -> (r: Result<HalValue, String>)
    ensures
        outcome(r) == clock_spec(seconds),
{
    match seconds {
        None => Err(owned("system clock is before the Unix epoch")),
        Some(s) => if s > 9_223_372_036_854_775_807 {
            Err(owned("system clock is out of range"))
        } else {
            Ok(HalValue::Number(s as i64))
        },
    }
}

// ---------------------------------------------------------------------------
// Base64url
// ---------------------------------------------------------------------------

#[verifier::external_type_specification]
#[verifier::external_body]
pub struct ExDecodeError(base64::DecodeError);

/// The six bits a byte stands for in the URL-safe alphabet
/// `A-Z a-z 0-9 - _`, if it is in the alphabet.
pub open spec fn base64url_sextet(byte: u8) -> Option<int> {
    if 65 <= byte <= 90 {
        Some(byte - 65)
    } else if 97 <= byte <= 122 {
        Some(byte - 71)
    } else if 48 <= byte <= 57 {
        Some(byte + 4)
    } else if byte == 45 {
        Some(62)
    } else if byte == 95 {
        Some(63)
    } else {
        None
    }
}

/// The bytes that groups of sextets carry: four sextets give three bytes,
/// a final three give two and a final two give one, provided the bits left
/// over in the last sextet are zero; a single final sextet carries nothing
/// whole and is refused.
pub open spec fn base64url_groups(sextets: Seq<int>) -> Option<Seq<u8>>
    decreases sextets.len(),
{
    let n = sextets.len();
    if n == 0 {
        Some(Seq::empty())
    } else if n == 1 {
        None
    } else if n == 2 {
        if sextets[1] % 16 != 0 {
            None
        } else {
            Some(seq![(sextets[0] * 4 + sextets[1] / 16) as u8])
        }
    } else if n == 3 {
        if sextets[2] % 4 != 0 {
            None
        } else {
            Some(seq![(sextets[0] * 4 + sextets[1] / 16) as u8, ((sextets[1] % 16) * 16 + sextets[2] / 4) as u8])
        }
    } else {
        match base64url_groups(sextets.skip(4)) {
            None => None,
            Some(rest) => Some(
                seq![
                    (sextets[0] * 4 + sextets[1] / 16) as u8,
                    ((sextets[1] % 16) * 16 + sextets[2] / 4) as u8,
                    ((sextets[2] % 4) * 64 + sextets[3]) as u8,
                ] + rest,
            ),
        }
    }
}

/// URL-safe, unpadded base64 decoding: every byte must be in the alphabet
/// (so a padding character is refused), the length may not leave a single
/// sextet over, and the bits left over after the last whole byte must be
/// zero.
pub open spec fn base64url_decoding(encoded: Seq<u8>) -> Option<Seq<u8>> {
    if forall|i: int| 0 <= i < encoded.len() ==> (#[trigger] base64url_sextet(encoded[i])) is Some {
        base64url_groups(encoded.map_values(|b: u8| base64url_sextet(b).unwrap()))
    } else {
        None
    }
}

/// `URL_SAFE_NO_PAD.decode` of the `base64` crate: the engine with the
/// URL-safe alphabet, no padding allowed and no trailing bits allowed
/// decodes exactly as `base64url_decoding` says, and refuses where it gives
/// `None`.
#[verifier::external_body]
fn decode_base64url(encoded: &[u8]) -> (r: Result<Vec<u8>, base64::DecodeError>)
    ensures
        match r {
            Ok(bytes) => base64url_decoding(encoded@) == Some(bytes@),
            Err(_) => base64url_decoding(encoded@) is None,
        },
{
    URL_SAFE_NO_PAD.decode(encoded)
}

fn base64url_bytes(encoded: &[u8]) -> (r: Option<Vec<u8>>)
    ensures
        match r {
            Some(bytes) => base64url_decoding(encoded@) == Some(bytes@),
            None => base64url_decoding(encoded@) is None,
        },
{
    match decode_base64url(encoded) {
        Ok(bytes) => Some(bytes),
        Err(_) => None,
    }
}

pub open spec fn optional_bytes(r: Option<Vec<u8>>) -> Option<Seq<u8>> {
    match r {
        Some(bytes) => Some(bytes@),
        None => None,
    }
}

/// What a base64url decoding answers: the refusal, the 1 MiB limit on the
/// decoded bytes, or the bytes.
pub open spec fn base64url_answer_spec(decoded: Option<Seq<u8>>) -> Result<Answer, Seq<char>> {
    match decoded {
        None => Err("base64url value is invalid"@),
        Some(bytes) => if bytes.len() > 1_048_576 {
            Err("base64url value exceeds the 1 MiB decoded limit"@)
        } else {
            Ok(Answer::Bytes(bytes))
        },
    }
}

pub fn base64url_answer(decoded: Option<Vec<u8>>) -> (r: Result<HalValue, String>)
    ensures
        outcome(r) == base64url_answer_spec(optional_bytes(decoded)),
{
    match decoded {
        None => Err(owned("base64url value is invalid")),
        Some(bytes) => if bytes.len() > 1_048_576 {
            Err(owned("base64url value exceeds the 1 MiB decoded limit"))
        } else {
            Ok(HalValue::Bytes(bytes))
        },
    }
}

/// `base64url-decode`: one non-empty, unpadded string of at most 1398102
/// bytes, decoded by the `base64` crate and bounded to 1 MiB.
pub open spec fn base64url_decode_spec(args: Seq<HalValue>) -> Result<Answer, Seq<char>> {
    if args.len() != 1 {
        Err("base64url-decode requires one string"@)
    } else {
        match text_arg_spec(args, 0, "base64url value"@) {
            Err(m) => Err(m),
            Ok(text) => {
                let bytes = encode_utf8(text);
                if bytes.len() == 0 || bytes.len() > 1_398_102 || text.contains('=') {
                    Err(
                        "base64url value must be non-empty, unpadded, and at most 1 MiB decoded"@,
                    )
                } else {
                    base64url_answer_spec(base64url_decoding(bytes))
                }
            },
        }
    }
}

fn contains_char(text: &str, wanted: char) -> (r: bool)
    ensures
        r == text@.contains(wanted),
{
    let chars = crate::text::chars_of(text);
    let mut i: usize = 0;
    while i < chars.len()
        invariant
            i <= chars@.len(),
            chars@ == text@,
            forall|j: int| 0 <= j < i ==> chars@[j] != wanted,
        decreases chars@.len() - i,
    {
        if chars[i] == wanted {
            return true;
        }
        i = i + 1;
    }
    false
}

pub fn base64url_decode(args: &[HalValue]) -> (r: Result<HalValue, String>)
    ensures
        outcome(r) == base64url_decode_spec(args@),
{
    if args.len() != 1 {
        return Err(owned("base64url-decode requires one string"));
    }
    let input = match text_arg(args, 0, "base64url value") {
        Ok(text) => text,
        Err(m) => return Err(m),
    };
    let bytes = input.as_bytes();
    if bytes.len() == 0 || bytes.len() > 1_398_102 || contains_char(input, '=') {
        return Err(owned("base64url value must be non-empty, unpadded, and at most 1 MiB decoded"));
    }
    base64url_answer(base64url_bytes(bytes))
}

// ---------------------------------------------------------------------------
// Secure randomness
// ---------------------------------------------------------------------------

/// `getrandom::getrandom` on the buffer's bytes, with a failure given as
/// its `Display` text. The contract states only that the buffer keeps its
/// length: the bytes written come from the operating system's secure
/// generator, and nothing is promised of a failure's text.
#[verifier::external_body]
fn fill_random(buffer: &mut Vec<u8>) -> (r: Result<(), String>)
    ensures
        final(buffer)@.len() == old(buffer)@.len(),
{
    getrandom::getrandom(buffer.as_mut_slice()).map_err(|error| format!("{error}"))
}

pub open spec fn has_prefix(text: Seq<char>, prefix: Seq<char>) -> bool {
    prefix.len() <= text.len() && text.subrange(0, prefix.len() as int) == prefix
}

/// What `random-bytes` answers, whatever the generator gives: the size
/// failures exactly; otherwise exactly `size` bytes, or the generator's
/// failure after a fixed prefix.
pub open spec fn random_bytes_holds(args: Seq<HalValue>, r: Result<Answer, Seq<char>>) -> bool {
    match number_arg_spec(args, 0, "random-bytes size"@) {
        Err(m) => r == Err::<Answer, Seq<char>>(m),
        Ok(size) => if args.len() != 1 || !(1 <= size <= 4096) {
            r == Err::<Answer, Seq<char>>("random-bytes size must be between 1 and 4096"@)
        } else {
            match r {
                Ok(Answer::Bytes(bytes)) => bytes.len() == size,
                Err(m) => has_prefix(m, "secure randomness unavailable: "@),
                _ => false,
            }
        },
    }
}

pub fn random_bytes(args: &[HalValue]) -> (r: Result<HalValue, String>)
    ensures
        random_bytes_holds(args@, outcome(r)),
{
    let size = match number_arg(args, 0, "random-bytes size") {
        Ok(n) => n,
        Err(m) => return Err(m),
    };
    if args.len() != 1 || !(1 <= size && size <= 4096) {
        return Err(owned("random-bytes size must be between 1 and 4096"));
    }
    let mut output: Vec<u8> = Vec::new();
    let mut i: i64 = 0;
    while i < size
        invariant
            0 <= i <= size,
            output@.len() == i,
        decreases size - i,
    {
        output.push(0);
        i = i + 1;
    }
    match fill_random(&mut output) {
        Ok(()) => Ok(HalValue::Bytes(output)),
        Err(detail) => {
            let m = message("secure randomness unavailable: ", detail.as_str());
            assert(m@.subrange(0, "secure randomness unavailable: "@.len() as int)
                =~= "secure randomness unavailable: "@);
            Err(m)
        },
    }
}

// ---------------------------------------------------------------------------
// Signatures
// ---------------------------------------------------------------------------

/// Whether `ed25519-dalek`'s `VerifyingKey::from_bytes` accepts the 32
/// bytes: whether they decompress to a point of the curve.
pub uninterp spec fn ed25519_key_decodes(public_key: Seq<u8>) -> bool;

/// Whether `ed25519-dalek`'s `Verifier::verify` accepts the 64-byte
/// signature of the message under the public key (a key that decodes).
pub uninterp spec fn ed25519_signature_holds(
    public_key: Seq<u8>,
    message: Seq<u8>,
    signature: Seq<u8>,
) -> bool;

/// Ed25519 verification with `ed25519-dalek`: `VerifyingKey::from_bytes`
/// of the public key (`None` where it fails), then `Verifier::verify` of
/// the message against `Signature::from_bytes` of the signature. The
/// contract names both results; the curve arithmetic is not restated.
#[verifier::external_body]
fn ed25519_check(public_key: &[u8; 32], message: &[u8], signature: &[u8; 64]) -> (r: Option<bool>)
    ensures
        r is Some <==> ed25519_key_decodes(public_key@),
        r matches Some(valid) ==> valid == ed25519_signature_holds(
            public_key@,
            message@,
            signature@,
        ),
{
    match ed25519_dalek::VerifyingKey::from_bytes(public_key) {
        Ok(key) => Some(key.verify(message, &ed25519_dalek::Signature::from_bytes(signature)).is_ok()),
        Err(_) => None,
    }
}

/// Why a P-256 check refused its inputs before verifying.
#[derive(Clone, Copy, Debug, PartialEq, Eq, Structural)]
pub enum P256Refusal {
    PublicKey,
    Signature,
}

/// Whether `p256`'s `VerifyingKey::from_sec1_bytes` accepts the bytes as an
/// encoded point of the curve.
pub uninterp spec fn p256_sec1_point(public_key: Seq<u8>) -> bool;

/// Whether `p256`'s `Signature::from_slice` accepts the 64 bytes: both
/// scalars nonzero and below the group order.
pub uninterp spec fn p256_signature_scalars(signature: Seq<u8>) -> bool;

/// Whether `p256`'s `Verifier::verify` (ECDSA over SHA-256) accepts the
/// signature of the message under the public key.
pub uninterp spec fn p256_signature_holds(
    public_key: Seq<u8>,
    message: Seq<u8>,
    signature: Seq<u8>,
) -> bool;

/// `VerifyingKey::from_sec1_bytes` of the `p256` crate, asked only whether
/// it accepts the bytes.
#[verifier::external_body]
fn p256_point_decodes(public_key: &[u8]) -> (r: bool)
    ensures
        r == p256_sec1_point(public_key@),
{
    p256::ecdsa::VerifyingKey::from_sec1_bytes(public_key).is_ok()
}

/// ECDSA P-256 verification with the `p256` crate: the key from
/// `VerifyingKey::from_sec1_bytes`, the signature from
/// `Signature::from_slice`, then `Verifier::verify` of the message. The
/// contract names each result.
#[verifier::external_body]
fn p256_check(key: &[u8; 65], message: &[u8], signature: &[u8; 64]) -> (r: Result<bool, P256Refusal>)
    ensures
        (r matches Err(P256Refusal::PublicKey)) <==> !p256_sec1_point(key@),
        (r matches Err(P256Refusal::Signature)) <==> (p256_sec1_point(key@)
            && !p256_signature_scalars(signature@)),
        r matches Ok(valid) ==> valid == p256_signature_holds(key@, message@, signature@),
{
    let key = match p256::ecdsa::VerifyingKey::from_sec1_bytes(key) {
        Ok(key) => key,
        Err(_) => return Err(P256Refusal::PublicKey),
    };
    let signature = match p256::ecdsa::Signature::from_slice(signature) {
        Ok(signature) => signature,
        Err(_) => return Err(P256Refusal::Signature),
    };
    Ok(p256::ecdsa::signature::Verifier::verify(&key, message, &signature).is_ok())
}

/// A byte-string argument of exactly `n` bytes.
pub open spec fn fixed_bytes_spec(args: Seq<HalValue>, index: int, label: Seq<char>, n: nat) -> Result<
    Seq<u8>,
    Seq<char>,
> {
    match bytes_arg_spec(args, index, label) {
        Err(m) => Err(m),
        Ok(bytes) => if bytes.len() != n {
            Err(label + " must contain "@ + decimal_chars(n) + " bytes"@)
        } else {
            Ok(bytes)
        },
    }
}

pub open spec fn array_result<const N: usize>(r: Result<[u8; N], String>) -> Result<
    Seq<u8>,
    Seq<char>,
> {
    match r {
        Ok(a) => Ok(a@),
        Err(m) => Err(m@),
    }
}

fn fixed_bytes<const N: usize>(args: &[HalValue], index: usize, label: &str) -> (r: Result<[u8; N], String>)
    ensures
        array_result(r) == fixed_bytes_spec(args@, index as int, label@, N as nat),
{
    let bytes = match bytes_arg(args, index, label) {
        Ok(bytes) => bytes,
        Err(m) => return Err(m),
    };
    if bytes.len() != N {
        let mut m = message(label, " must contain ");
        push_decimal(&mut m, N as u64);
        push_str(&mut m, " bytes");
        return Err(m);
    }
    let mut out: [u8; N] = [0u8; N];
    let mut i: usize = 0;
    while i < N
        invariant
            i <= N,
            bytes@.len() == N,
            forall|j: int| 0 <= j < i ==> out@[j] == bytes@[j],
        decreases N - i,
    {
        out[i] = bytes[i];
        i = i + 1;
    }
    assert(out@ =~= bytes@);
    Ok(out)
}

/// `verify-signature`: algorithm, public key, message and signature, for
/// `ed25519` (32-byte key, 64-byte signature) and `p256-sha256` (65-byte
/// SEC1 key, 64-byte P1363 signature). A well-formed check answers whether
/// the signature holds.
pub open spec fn verify_signature_spec(args: Seq<HalValue>) -> Result<Answer, Seq<char>> {
    if args.len() != 4 {
        Err("verify-signature requires algorithm, public key, message, and signature"@)
    } else {
        match text_arg_spec(args, 0, "signature algorithm"@) {
            Err(m) => Err(m),
            Ok(algorithm) => match data_arg_spec(args, 2, "signed message"@) {
                Err(m) => Err(m),
                Ok(message) => if algorithm == "ed25519"@ {
                    match fixed_bytes_spec(args, 1, "Ed25519 public key"@, 32) {
                        Err(m) => Err(m),
                        Ok(key) => match fixed_bytes_spec(args, 3, "Ed25519 signature"@, 64) {
                            Err(m) => Err(m),
                            Ok(signature) => if !ed25519_key_decodes(key) {
                                Err("Ed25519 public key is invalid"@)
                            } else {
                                Ok(Answer::Flag(ed25519_signature_holds(key, message, signature)))
                            },
                        },
                    }
                } else if algorithm == "p256-sha256"@ {
                    match fixed_bytes_spec(args, 1, "P-256 SEC1 public key"@, 65) {
                        Err(m) => Err(m),
                        Ok(key) => match fixed_bytes_spec(args, 3, "P-256 P1363 signature"@, 64) {
                            Err(m) => Err(m),
                            Ok(signature) => if !p256_sec1_point(key) {
                                Err("P-256 SEC1 public key is invalid"@)
                            } else if !p256_signature_scalars(signature) {
                                Err("P-256 P1363 signature is invalid"@)
                            } else {
                                Ok(Answer::Flag(p256_signature_holds(key, message, signature)))
                            },
                        },
                    }
                } else {
                    Err("verify-signature supports only ed25519 and p256-sha256"@)
                },
            },
        }
    }
}

pub fn verify_signature(args: &[HalValue]) -> (r: Result<HalValue, String>)
    ensures
        outcome(r) == verify_signature_spec(args@),
{
    if args.len() != 4 {
        return Err(owned("verify-signature requires algorithm, public key, message, and signature"));
    }
    let algorithm = match text_arg(args, 0, "signature algorithm") {
        Ok(text) => text,
        Err(m) => return Err(m),
    };
    let message = match data_arg(args, 2, "signed message") {
        Ok(data) => data,
        Err(m) => return Err(m),
    };
    if same_text(algorithm, "ed25519") {
        let public_key = match fixed_bytes::<32>(args, 1, "Ed25519 public key") {
            Ok(key) => key,
            Err(m) => return Err(m),
        };
        let signature = match fixed_bytes::<64>(args, 3, "Ed25519 signature") {
            Ok(signature) => signature,
            Err(m) => return Err(m),
        };
        match ed25519_check(&public_key, message.as_slice(), &signature) {
            None => Err(owned("Ed25519 public key is invalid")),
            Some(valid) => Ok(HalValue::Bool(valid)),
        }
    } else if same_text(algorithm, "p256-sha256") {
        let public_key = match fixed_bytes::<65>(args, 1, "P-256 SEC1 public key") {
            Ok(key) => key,
            Err(m) => return Err(m),
        };
        let signature = match fixed_bytes::<64>(args, 3, "P-256 P1363 signature") {
            Ok(signature) => signature,
            Err(m) => return Err(m),
        };
        match p256_check(&public_key, message.as_slice(), &signature) {
            Err(P256Refusal::PublicKey) => Err(owned("P-256 SEC1 public key is invalid")),
            Err(P256Refusal::Signature) => Err(owned("P-256 P1363 signature is invalid")),
            Ok(valid) => Ok(HalValue::Bool(valid)),
        }
    } else {
        Err(owned("verify-signature supports only ed25519 and p256-sha256"))
    }
}


// ---------------------------------------------------------------------------
// P-256 public JWKs
// ---------------------------------------------------------------------------

/// A JSON document as the `serde_json` crate reads it.
#[derive(Debug)]
pub enum Json {
    Null,
    Bool(bool),
    /// A number, kept as its decimal text.
    Number(String),
    Text(String),
    Array(Vec<Json>),
    /// An object's members, in the order of the parser's map (by key).
    Object(Vec<(String, Json)>),
}

#[verifier::external_type_specification]
#[verifier::external_body]
pub struct ExJsonValue(serde_json::Value);

/// The document that `serde_json::from_str` reads from the text, or `None`
/// where the text is not one JSON value.
pub uninterp spec fn json_document(text: Seq<char>) -> Option<Json>;

/// Turns a `serde_json` value into the library's `Json`, variant for
/// variant and member for member (a number as its `Display` text).
#[verifier::external_body]
fn json_from(value: serde_json::Value) -> Json {
    match value {
        serde_json::Value::Null => Json::Null,
        serde_json::Value::Bool(flag) => Json::Bool(flag),
        serde_json::Value::Number(number) => Json::Number(number.to_string()),
        serde_json::Value::String(text) => Json::Text(text),
        serde_json::Value::Array(items) => Json::Array(items.into_iter().map(json_from).collect()),
        serde_json::Value::Object(members) => Json::Object(
            members.into_iter().map(|(key, member)| (key, json_from(member))).collect(),
        ),
    }
}

/// `serde_json::from_str::<serde_json::Value>`, converted to `Json`. The
/// contract names the result: it is `json_document` of the text.
#[verifier::external_body]
fn parse_json(text: &str) -> (r: Option<Json>)
    ensures
        r == json_document(text@),
{
    match serde_json::from_str::<serde_json::Value>(text) {
        Ok(value) => Some(json_from(value)),
        Err(_) => None,
    }
}

/// The index of the first member named `name`, at or after `from`.
pub open spec fn member_index(members: Seq<(String, Json)>, name: Seq<char>, from: int) -> Option<
    int,
>
    decreases members.len() - from,
{
    if from < 0 || from >= members.len() {
        None
    } else if members[from].0@ == name {
        Some(from)
    } else {
        member_index(members, name, from + 1)
    }
}

/// The value of the member named `name`.
pub open spec fn member(members: Seq<(String, Json)>, name: Seq<char>) -> Option<Json> {
    match member_index(members, name, 0) {
        Some(i) => Some(members[i].1),
        None => None,
    }
}

pub open spec fn json_text(value: Option<Json>) -> Option<Seq<char>> {
    match value {
        Some(Json::Text(text)) => Some(text@),
        _ => None,
    }
}

pub open spec fn json_flag(value: Option<Json>) -> Option<bool> {
    match value {
        Some(Json::Bool(flag)) => Some(flag),
        _ => None,
    }
}

/// Whether a member is exactly the array `["verify"]`.
pub open spec fn verify_only(value: Option<Json>) -> bool {
    match value {
        Some(Json::Array(items)) => items@.len() == 1 && json_text(Some(items@[0])) == Some(
            "verify"@,
        ),
        _ => false,
    }
}

pub open spec fn jwk_member_name(name: Seq<char>) -> bool {
    name == "crv"@ || name == "ext"@ || name == "key_ops"@ || name == "kty"@ || name == "x"@
        || name == "y"@
}

/// A public P-256 JWK document: an object with exactly the members `crv`,
/// `ext`, `key_ops`, `kty`, `x` and `y`, where `kty` is `EC`, `crv` is
/// `P-256`, `ext` is `true` and `key_ops` is `["verify"]`.
pub open spec fn jwk_members_spec(document: Option<Json>) -> Result<Seq<(String, Json)>, Seq<char>> {
    match document {
        None => Err("P-256 public JWK is invalid JSON"@),
        Some(Json::Object(members)) => {
            let m = members@;
            if m.len() != 6 || !(forall|i: int| 0 <= i < m.len() ==> jwk_member_name(#[trigger] m[i].0@)) {
                Err("P-256 public JWK fields are invalid"@)
            } else if json_text(member(m, "kty"@)) != Some("EC"@) || json_text(member(m, "crv"@))
                != Some("P-256"@) || json_flag(member(m, "ext"@)) != Some(true) || !verify_only(
                member(m, "key_ops"@),
            ) {
                Err("P-256 public JWK parameters are invalid"@)
            } else {
                Ok(m)
            }
        },
        Some(_) => Err("P-256 public JWK must be an object"@),
    }
}

pub open spec fn members_result(r: Result<&Vec<(String, Json)>, String>) -> Result<Seq<(String, Json)>, Seq<char>> {
    match r {
        Ok(members) => Ok(members@),
        Err(m) => Err(m@),
    }
}

fn find_member<'a>(members: &'a Vec<(String, Json)>, name: &str) -> (r: Option<&'a Json>)
    ensures
        match r {
            Some(value) => member(members@, name@) == Some(*value),
            None => member(members@, name@) is None,
        },
{
    let mut i: usize = 0;
    while i < members.len()
        invariant
            i <= members@.len(),
            member(members@, name@) == match member_index(members@, name@, i as int) {
                Some(j) => Some(members@[j].1),
                None => None::<Json>,
            },
        decreases members@.len() - i,
    {
        if same_text(members[i].0.as_str(), name) {
            return Some(&members[i].1);
        }
        i = i + 1;
    }
    None
}

fn member_text<'a>(members: &'a Vec<(String, Json)>, name: &str) -> (r: Option<&'a str>)
    ensures
        match r {
            Some(text) => json_text(member(members@, name@)) == Some(text@),
            None => json_text(member(members@, name@)) is None,
        },
{
    match find_member(members, name) {
        Some(Json::Text(text)) => Some(text.as_str()),
        _ => None,
    }
}

/// Checks that a parsed document is a public P-256 JWK and hands back its
/// members.
pub fn jwk_members(document: &Option<Json>) -> (r: Result<&Vec<(String, Json)>, String>)
    ensures
        members_result(r) == jwk_members_spec(*document),
{
    let members = match document {
        None => return Err(owned("P-256 public JWK is invalid JSON")),
        Some(Json::Object(members)) => members,
        Some(_) => return Err(owned("P-256 public JWK must be an object")),
    };
    if members.len() != 6 {
        return Err(owned("P-256 public JWK fields are invalid"));
    }
    let mut i: usize = 0;
    while i < members.len()
        invariant
            i <= members@.len(),
            members@.len() == 6,
            *document == Some(Json::Object(*members)),
            forall|j: int| 0 <= j < i ==> jwk_member_name(#[trigger] members@[j].0@),
        decreases members@.len() - i,
    {
        let name = members[i].0.as_str();
        if !(same_text(name, "crv") || same_text(name, "ext") || same_text(name, "key_ops")
            || same_text(name, "kty") || same_text(name, "x") || same_text(name, "y")) {
            assert(!jwk_member_name(members@[i as int].0@));
            return Err(owned("P-256 public JWK fields are invalid"));
        }
        i = i + 1;
    }
    let kty_ok = match member_text(members, "kty") {
        Some(text) => same_text(text, "EC"),
        None => false,
    };
    let crv_ok = match member_text(members, "crv") {
        Some(text) => same_text(text, "P-256"),
        None => false,
    };
    let ext_ok = match find_member(members, "ext") {
        Some(Json::Bool(flag)) => *flag,
        _ => false,
    };
    let ops_ok = match find_member(members, "key_ops") {
        Some(Json::Array(items)) => items.len() == 1 && match &items[0] {
            Json::Text(text) => same_text(text.as_str(), "verify"),
            _ => false,
        },
        _ => false,
    };
    if !kty_ok || !crv_ok || !ext_ok || !ops_ok {
        return Err(owned("P-256 public JWK parameters are invalid"));
    }
    Ok(members)
}

/// One coordinate of the key: the member's text, base64url-decoded, of
/// exactly 32 bytes.
pub open spec fn coordinate_spec(members: Seq<(String, Json)>, name: Seq<char>) -> Result<Seq<u8>, Seq<char>> {
    match json_text(member(members, name)) {
        None => Err("P-256 public JWK "@ + name + " coordinate is missing"@),
        Some(text) => match base64url_decoding(encode_utf8(text)) {
            None => Err("P-256 public JWK "@ + name + " coordinate is invalid"@),
            Some(bytes) => if bytes.len() != 32 {
                Err("P-256 public JWK "@ + name + " coordinate must contain 32 bytes"@)
            } else {
                Ok(bytes)
            },
        },
    }
}

fn jwk_message(name: &str, tail: &str) -> (m: String)
    ensures
        m@ == "P-256 public JWK "@ + name@ + tail@,
{
    let mut m = owned("P-256 public JWK ");
    push_str(&mut m, name);
    push_str(&mut m, tail);
    m
}

fn coordinate(members: &Vec<(String, Json)>, name: &str) -> (r: Result<Vec<u8>, String>)
    ensures
        data_result(r) == coordinate_spec(members@, name@),
{
    let encoded = match member_text(members, name) {
        Some(text) => text,
        None => return Err(jwk_message(name, " coordinate is missing")),
    };
    match base64url_bytes(encoded.as_bytes()) {
        None => Err(jwk_message(name, " coordinate is invalid")),
        Some(bytes) => if bytes.len() != 32 {
            Err(jwk_message(name, " coordinate must contain 32 bytes"))
        } else {
            Ok(bytes)
        },
    }
}

/// `p256-jwk-sec1`: one JSON string of at most 2048 bytes holding a public
/// P-256 JWK, answered with the uncompressed SEC1 point `04 || x || y`
/// once the `p256` crate accepts it.
pub open spec fn p256_jwk_sec1_spec(args: Seq<HalValue>) -> Result<Answer, Seq<char>> {
    if args.len() != 1 {
        Err("p256-jwk-sec1 requires one JSON string"@)
    } else {
        match text_arg_spec(args, 0, "P-256 public JWK"@) {
            Err(m) => Err(m),
            Ok(text) => if encode_utf8(text).len() > 2048 {
                Err("P-256 public JWK exceeds 2048 bytes"@)
            } else {
                match jwk_members_spec(json_document(text)) {
                    Err(m) => Err(m),
                    Ok(members) => match coordinate_spec(members, "x"@) {
                        Err(m) => Err(m),
                        Ok(x) => match coordinate_spec(members, "y"@) {
                            Err(m) => Err(m),
                            Ok(y) => {
                                let point = seq![4u8] + x + y;
                                if !p256_sec1_point(point) {
                                    Err("P-256 public JWK point is invalid"@)
                                } else {
                                    Ok(Answer::Bytes(point))
                                }
                            },
                        },
                    },
                }
            },
        }
    }
}

pub fn p256_jwk_sec1(args: &[HalValue]) -> (r: Result<HalValue, String>)
    ensures
        outcome(r) == p256_jwk_sec1_spec(args@),
{
    if args.len() != 1 {
        return Err(owned("p256-jwk-sec1 requires one JSON string"));
    }
    let input = match text_arg(args, 0, "P-256 public JWK") {
        Ok(text) => text,
        Err(m) => return Err(m),
    };
    if input.as_bytes().len() > 2048 {
        return Err(owned("P-256 public JWK exceeds 2048 bytes"));
    }
    let document = parse_json(input);
    let members = match jwk_members(&document) {
        Ok(members) => members,
        Err(m) => return Err(m),
    };
    let x = match coordinate(members, "x") {
        Ok(bytes) => bytes,
        Err(m) => return Err(m),
    };
    let y = match coordinate(members, "y") {
        Ok(bytes) => bytes,
        Err(m) => return Err(m),
    };
    let mut point: Vec<u8> = Vec::new();
    point.push(4);
    crate::text::append_bytes(&mut point, x.as_slice());
    crate::text::append_bytes(&mut point, y.as_slice());
    assert(point@ =~= seq![4u8] + x@ + y@);
    if !p256_point_decodes(point.as_slice()) {
        return Err(owned("P-256 public JWK point is invalid"));
    }
    Ok(HalValue::Bytes(point))
}

// ---------------------------------------------------------------------------
// The service
// ---------------------------------------------------------------------------

/// What the host service does with a call.
#[derive(Debug)]
pub enum Dispatch {
    /// The call is answered.
    Answered(Result<HalValue, String>),
    /// `canonical-value-digest` of its single argument: the caller encodes
    /// the argument as a canonical HTA frame and passes what the encoder
    /// gave to `canonical_value_digest`.
    EncodeCanonical,
    /// `now`: the caller reads the system clock and passes the whole seconds
    /// since the Unix epoch to `clock_answer`.
    ReadClock,
}

pub open spec fn answered(d: Dispatch) -> Option<Result<Answer, Seq<char>>> {
    match d {
        Dispatch::Answered(r) => Some(outcome(r)),
        _ => None,
    }
}

/// What a call of `method` on `hoplite.host` with `args` comes to.
pub open spec fn host_call_holds(method: Seq<char>, args: Seq<HalValue>, d: Dispatch) -> bool {
    if method == "random-bytes"@ {
        d matches Dispatch::Answered(r) && random_bytes_holds(args, outcome(r))
    } else if method == "hash"@ {
        answered(d) == Some(hash_spec(args))
    } else if method == "canonical-value-digest"@ {
        if args.len() == 1 {
            d is EncodeCanonical
        } else {
            answered(d) == Some(
                Err::<Answer, Seq<char>>("canonical-value-digest requires one portable value"@),
            )
        }
    } else if method == "base64url-decode"@ {
        answered(d) == Some(base64url_decode_spec(args))
    } else if method == "hex-decode"@ {
        answered(d) == Some(hex_decode_spec(args))
    } else if method == "hex-encode"@ {
        answered(d) == Some(hex_encode_spec(args))
    } else if method == "p256-jwk-sec1"@ {
        answered(d) == Some(p256_jwk_sec1_spec(args))
    } else if method == "verify-signature"@ {
        answered(d) == Some(verify_signature_spec(args))
    } else if method == "now"@ && args.len() == 0 {
        d is ReadClock
    } else if method == "secret"@ {
        answered(d) == Some(
            Err::<Answer, Seq<char>>("hoplite.host/secret requires an installed secret provider"@),
        )
    } else {
        answered(d) == Some(
            Err::<Answer, Seq<char>>("unknown hoplite.host operation "@ + debug_text(method)),
        )
    }
}

/// Routes a call of the `hoplite.host` service to its operation.
pub fn dispatch(service: &str, method: &str, args: &[HalValue]) -> (d: Dispatch)
    ensures
        service@ != "hoplite.host"@ ==> answered(d) == Some(
            Err::<Answer, Seq<char>>("unknown Hoplite host service "@ + debug_text(service@)),
        ),
        service@ == "hoplite.host"@ ==> host_call_holds(method@, args@, d),
{
    if !same_text(service, "hoplite.host") {
        return Dispatch::Answered(Err(message("unknown Hoplite host service ", debug_quoted(service).as_str())));
    }
    if same_text(method, "random-bytes") {
        Dispatch::Answered(random_bytes(args))
    } else if same_text(method, "hash") {
        Dispatch::Answered(hash(args))
    } else if same_text(method, "canonical-value-digest") {
        if args.len() == 1 {
            Dispatch::EncodeCanonical
        } else {
            Dispatch::Answered(Err(owned("canonical-value-digest requires one portable value")))
        }
    } else if same_text(method, "base64url-decode") {
        Dispatch::Answered(base64url_decode(args))
    } else if same_text(method, "hex-decode") {
        Dispatch::Answered(hex_decode(args))
    } else if same_text(method, "hex-encode") {
        Dispatch::Answered(hex_encode(args))
    } else if same_text(method, "p256-jwk-sec1") {
        Dispatch::Answered(p256_jwk_sec1(args))
    } else if same_text(method, "verify-signature") {
        Dispatch::Answered(verify_signature(args))
    } else if same_text(method, "now") && args.len() == 0 {
        Dispatch::ReadClock
    } else if same_text(method, "secret") {
        Dispatch::Answered(Err(owned("hoplite.host/secret requires an installed secret provider")))
    } else {
        Dispatch::Answered(Err(message("unknown hoplite.host operation ", debug_quoted(method).as_str())))
    }
}

// ---------------------------------------------------------------------------
// Laws
// ---------------------------------------------------------------------------

proof fn lemma_hex_text_bytes(bytes: Seq<u8>)
    ensures
        vstd::utf8::is_ascii_chars(lower_hex_chars(bytes)),
        encode_utf8(lower_hex_chars(bytes)).len() == 2 * bytes.len(),
        forall|i: int|
            0 <= i < 2 * bytes.len() ==> #[trigger] encode_utf8(lower_hex_chars(bytes))[i] == (
            lower_hex_chars(bytes)[i] as u8),
{
    let text = lower_hex_chars(bytes);
    assert forall|i: int| 0 <= i < text.len() implies '\0' <= #[trigger] text[i] <= '\u{7f}' by {
        let nibble: int = if i % 2 == 0 {
            (bytes[i / 2] / 16) as int
        } else {
            (bytes[i / 2] % 16) as int
        };
        assert(0 <= nibble < 16);
    }
    vstd::utf8::is_ascii_chars_encode_utf8(text);
}

/// Hex decoding gives back what hex encoding rendered: whenever
/// `hex-encode` answers a text for its byte argument, `hex-decode` of that
/// text answers the same bytes.
pub proof fn law_hex_decode_inverts_encode(encode_args: Seq<HalValue>, text: String)
    requires
        hex_encode_spec(encode_args) == Ok::<Answer, Seq<char>>(Answer::Text(text@)),
    ensures
        encode_args[0] matches HalValue::Bytes(bytes) && hex_decode_spec(seq![HalValue::String(text)])
            == Ok::<Answer, Seq<char>>(Answer::Bytes(bytes@)),
{
    let bytes = bytes_arg_spec(encode_args, 0, "hex value"@)->Ok_0;
    lemma_hex_text_bytes(bytes);
    let args = seq![HalValue::String(text)];
    assert(text_arg_spec(args, 0, "hex value"@) == Ok::<Seq<char>, Seq<char>>(text@));
    let digits = encode_utf8(text@);
    assert forall|i: int| 0 <= i < digits.len() implies is_lower_hex_digit(#[trigger] digits[i]) by {
        let nibble: int = if i % 2 == 0 {
            (bytes[i / 2] / 16) as int
        } else {
            (bytes[i / 2] % 16) as int
        };
        assert(0 <= nibble < 16);
        assert(digits[i] == (hex_char(nibble) as u8));
    }
    assert forall|k: int| 0 <= k < bytes.len() implies #[trigger] hex_pairs(digits)[k] == bytes[k] by {
        let high = (bytes[k] / 16) as int;
        let low = (bytes[k] % 16) as int;
        assert(digits[2 * k] == (hex_char(high) as u8));
        assert(digits[2 * k + 1] == (hex_char(low) as u8));
        assert(lower_hex_value(digits[2 * k]) == high);
        assert(lower_hex_value(digits[2 * k + 1]) == low);
    }
    assert(hex_pairs(digits) =~= bytes);
}

} // verus!
