//! The named-command console protocol: resource limits, client bundle
//! framing, grants, and the name rules that every command, identifier and
//! namespace obeys.

use vstd::prelude::*;
use vstd::string::*;
use vstd::utf8::{decode_utf8, encode_utf8, valid_utf8};
use crate::text_set::{sorted_texts, TextSet};
use crate::hal::{map_entries, HalValue};
use crate::sha::{sha256, sha256_of};
use crate::text::{
    append_bytes, ascii_alnum, debug_quoted, debug_text, decimal_chars, is_ascii_alnum, owned,
    push_decimal, push_str, same_bytes, same_text, utf8_str,
};

verus! {

pub const CLIENT_BUNDLE_MAGIC: [u8; 4] = [72u8, 67u8, 66u8, 48u8];
pub const CLIENT_BUNDLE_FORMAT: &'static str = "hoplite.console-client/0-alpha";
pub const GRANT_PROTOCOL: &'static str = "hoplite.console-grant/0-alpha";
pub const REQUEST_PROTOCOL: &'static str = "tahto.console-request/0-alpha";
pub const BROKER_SERVICE: &'static str = "hoplite.console";
pub const MAX_CLIENT_BUNDLE_BYTES: usize = 1024 * 1024;

#[derive(Clone, Copy, Debug, PartialEq, Eq)]
pub struct ConsoleLimits {
    pub source_bytes: usize,
    pub result_bytes: usize,
    pub evaluation_millis: u64,
    pub memory_bytes: u64,
}

impl Default for ConsoleLimits {
    fn default() -> (limits: Self)
        ensures
            limits == (ConsoleLimits {
                source_bytes: 65536,
                result_bytes: 1048576,
                evaluation_millis: 5000,
                memory_bytes: 134217728,
            }),
    {
        Self {
            source_bytes: 64 * 1024,
            result_bytes: 1024 * 1024,
            evaluation_millis: 5_000,
            memory_bytes: 128 * 1024 * 1024,
        }
    }
}

/// The first limit that is out of range, as its error message.
pub open spec fn console_limits_error(limits: ConsoleLimits) -> Option<&'static str> {
    if limits.source_bytes == 0 || limits.source_bytes > 16 * 1024 * 1024 {
        Some("console source limit must be between 1 byte and 16 MiB")
    } else if limits.result_bytes == 0 || limits.result_bytes > 64 * 1024 * 1024 {
        Some("console result limit must be between 1 byte and 64 MiB")
    } else if limits.evaluation_millis == 0 || limits.evaluation_millis > 300_000 {
        Some("console evaluation limit must be between 1 ms and 300 s")
    } else if limits.memory_bytes < 16 * 1024 * 1024 || limits.memory_bytes > 16 * 1024 * 1024
        * 1024 {
        Some("console memory limit must be between 16 MiB and 16 GiB")
    } else {
        None
    }
}

impl ConsoleLimits {
    pub fn validate(self) -> (r: Result<Self, String>)
        ensures
            match r {
                Ok(limits) => limits == self && console_limits_error(self) is None,
                Err(message) => console_limits_error(self) matches Some(expected) && message@
                    == expected@,
            },
    {
        if self.source_bytes == 0 || self.source_bytes > 16 * 1024 * 1024 {
            return Err(owned("console source limit must be between 1 byte and 16 MiB"));
        }
        if self.result_bytes == 0 || self.result_bytes > 64 * 1024 * 1024 {
            return Err(owned("console result limit must be between 1 byte and 64 MiB"));
        }
        if self.evaluation_millis == 0 || self.evaluation_millis > 300_000 {
            return Err(owned("console evaluation limit must be between 1 ms and 300 s"));
        }
        if self.memory_bytes < 16 * 1024 * 1024 || self.memory_bytes > 16 * 1024 * 1024 * 1024 {
            return Err(owned("console memory limit must be between 16 MiB and 16 GiB"));
        }
        Ok(self)
    }
}

#[derive(Clone, Copy, Debug, PartialEq, Eq, Structural)]
pub enum CommandEffect {
    Read,
    Write,
}

/// Command names: 1 to 128 bytes of ASCII letters, digits and `. - _ /`.
pub open spec fn is_command_name(bytes: Seq<u8>) -> bool {
    &&& 0 < bytes.len() <= 128
    &&& forall|i: int|
        0 <= i < bytes.len() ==> is_ascii_alnum(#[trigger] bytes[i]) || bytes[i] == 46u8
            || bytes[i] == 45u8 || bytes[i] == 95u8 || bytes[i] == 47u8
}

/// Identifiers: 1 to 128 bytes of ASCII letters, digits and `. - _ : /`.
pub open spec fn is_identifier(bytes: Seq<u8>) -> bool {
    &&& 0 < bytes.len() <= 128
    &&& forall|i: int|
        0 <= i < bytes.len() ==> is_ascii_alnum(#[trigger] bytes[i]) || bytes[i] == 46u8
            || bytes[i] == 45u8 || bytes[i] == 95u8 || bytes[i] == 58u8 || bytes[i] == 47u8
}

/// A byte allowed inside one dot-separated namespace part.
pub open spec fn is_namespace_part_byte(byte: u8) -> bool {
    is_ascii_alnum(byte) || byte == 45u8 || byte == 95u8
}

/// Namespaces: 1 to 255 bytes of dot-separated, non-empty parts made of
/// ASCII letters, digits, `-` and `_`.
pub open spec fn is_namespace_name(bytes: Seq<u8>) -> bool {
    &&& 0 < bytes.len() <= 255
    &&& forall|i: int|
        0 <= i < bytes.len() ==> is_namespace_part_byte(#[trigger] bytes[i]) || bytes[i] == 46u8
    &&& bytes[0] != 46u8
    &&& bytes.last() != 46u8
    &&& forall|i: int| 0 <= i < bytes.len() - 1 ==> !(#[trigger] bytes[i] == 46u8 && bytes[i + 1] == 46u8)
}

/// Timestamps: 20 to 35 bytes, `-` at offsets 4 and 7, `T` at offset 10,
/// ending in `Z`.
pub open spec fn is_timestamp(bytes: Seq<u8>) -> bool {
    &&& 20 <= bytes.len() <= 35
    &&& bytes[4] == 45u8
    &&& bytes[7] == 45u8
    &&& bytes[10] == 84u8
    &&& bytes.last() == 90u8
}

pub fn command_name(value: &str) -> (r: bool)
    ensures
        r == is_command_name(value.spec_bytes()),
{
    let bytes = value.as_bytes();
    if bytes.len() == 0 || bytes.len() > 128 {
        return false;
    }
    let mut i: usize = 0;
    while i < bytes.len()
        invariant
            i <= bytes@.len(),
            bytes@ == value.spec_bytes(),
            forall|j: int|
                0 <= j < i ==> is_ascii_alnum(#[trigger] bytes@[j]) || bytes@[j] == 46u8
                    || bytes@[j] == 45u8 || bytes@[j] == 95u8 || bytes@[j] == 47u8,
        decreases bytes@.len() - i,
    {
        let byte = bytes[i];
        if !(ascii_alnum(byte) || byte == 46u8 || byte == 45u8 || byte == 95u8 || byte == 47u8) {
            return false;
        }
        i = i + 1;
    }
    true
}

pub fn identifier(value: &str) -> (r: bool)
    ensures
        r == is_identifier(value.spec_bytes()),
{
    let bytes = value.as_bytes();
    if bytes.len() == 0 || bytes.len() > 128 {
        return false;
    }
    let mut i: usize = 0;
    while i < bytes.len()
        invariant
            i <= bytes@.len(),
            bytes@ == value.spec_bytes(),
            forall|j: int|
                0 <= j < i ==> is_ascii_alnum(#[trigger] bytes@[j]) || bytes@[j] == 46u8
                    || bytes@[j] == 45u8 || bytes@[j] == 95u8 || bytes@[j] == 58u8 || bytes@[j]
                    == 47u8,
        decreases bytes@.len() - i,
    {
        let byte = bytes[i];
        if !(ascii_alnum(byte) || byte == 46u8 || byte == 45u8 || byte == 95u8 || byte == 58u8
            || byte == 47u8) {
            return false;
        }
        i = i + 1;
    }
    true
}

pub fn namespace_name(value: &str) -> (r: bool)
    ensures
        r == is_namespace_name(value.spec_bytes()),
{
    let bytes = value.as_bytes();
    if bytes.len() == 0 || bytes.len() > 255 {
        return false;
    }
    if bytes[0] == 46u8 || bytes[bytes.len() - 1] == 46u8 {
        return false;
    }
    let mut i: usize = 0;
    while i < bytes.len()
        invariant
            0 < bytes@.len() <= 255,
            bytes@ == value.spec_bytes(),
            i <= bytes@.len(),
            forall|j: int|
                0 <= j < i ==> is_namespace_part_byte(#[trigger] bytes@[j]) || bytes@[j] == 46u8,
            forall|j: int| 0 <= j < i && j < bytes@.len() - 1 ==> !(#[trigger] bytes@[j] == 46u8 && bytes@[j + 1] == 46u8),
        decreases bytes@.len() - i,
    {
        let byte = bytes[i];
        if !(ascii_alnum(byte) || byte == 45u8 || byte == 95u8 || byte == 46u8) {
            return false;
        }
        if byte == 46u8 && i + 1 < bytes.len() && bytes[i + 1] == 46u8 {
            assert(bytes@[i as int] == 46u8 && bytes@[i + 1] == 46u8);
            return false;
        }
        i = i + 1;
    }
    true
}

pub fn timestamp(value: &str) -> (r: bool)
    ensures
        r == is_timestamp(value.spec_bytes()),
{
    let bytes = value.as_bytes();
    20 <= bytes.len() && bytes.len() <= 35 && bytes[4] == 45u8 && bytes[7] == 45u8 && bytes[10]
        == 84u8 && bytes[bytes.len() - 1] == 90u8
}


#[derive(Clone, Debug, PartialEq, Eq)]
pub struct ConsoleGrant {
    pub console: String,
    pub commands: TextSet,
    pub write: bool,
}

impl ConsoleGrant {
    /// The same grant for another console identifier.
    pub fn with_console(&self, console: String) -> (r: Result<Self, String>)
        ensures
            match r {
                Ok(grant) => is_identifier(encode_utf8(console@)) && grant.console@ == console@
                    && grant.commands@ == self.commands@ && grant.write == self.write,
                Err(message) => !is_identifier(encode_utf8(console@)) && message@
                    == "generated console identifier is invalid"@,
            },
    {
        if !identifier(console.as_str()) {
            return Err(owned("generated console identifier is invalid"));
        }
        Ok(Self { console, commands: self.commands.duplicate(), write: self.write })
    }
}


pub open spec fn hcb0_magic() -> Seq<u8> {
    seq![72u8, 67u8, 66u8, 48u8]
}

/// Why a namespace and source cannot form a client bundle, if they cannot.
pub open spec fn client_bundle_error(namespace: Seq<char>, source: Seq<char>) -> Option<&'static str> {
    if !is_namespace_name(encode_utf8(namespace)) {
        Some("console client namespace is invalid")
    } else if source.len() == 0 || encode_utf8(source).len() > MAX_CLIENT_BUNDLE_BYTES {
        Some("console client source must be between 1 byte and 1 MiB")
    } else {
        None
    }
}

/// Two big-endian bytes.
pub open spec fn be_u16_bytes(value: int) -> Seq<u8> {
    seq![(value / 256 % 256) as u8, (value % 256) as u8]
}

/// Four big-endian bytes.
pub open spec fn be_u32_bytes(value: int) -> Seq<u8> {
    seq![
        (value / 16777216 % 256) as u8,
        (value / 65536 % 256) as u8,
        (value / 256 % 256) as u8,
        (value % 256) as u8,
    ]
}

/// The digest binding a client bundle's format, namespace and source.
pub open spec fn client_bundle_digest(namespace: Seq<u8>, source: Seq<u8>) -> Seq<u8> {
    sha256_of(CLIENT_BUNDLE_FORMAT.spec_bytes() + seq![0u8] + namespace + seq![0u8] + source)
}

/// The `HCB0` encoding of a client bundle.
pub open spec fn client_bundle_bytes(namespace: Seq<u8>, source: Seq<u8>) -> Seq<u8> {
    hcb0_magic() + be_u16_bytes(namespace.len() as int) + be_u32_bytes(source.len() as int)
        + client_bundle_digest(namespace, source) + namespace + source
}

/// What decoding `HCB0` bytes yields: the namespace and source, or the
/// first failed check.
pub open spec fn client_bundle_decode(bytes: Seq<u8>) -> Result<(Seq<char>, Seq<char>), &'static str> {
    if bytes.len() < 42 || bytes.take(4) != hcb0_magic() {
        Err("console client bundle has invalid HCB0 magic")
    } else {
        let namespace_len = bytes[4] * 256 + bytes[5];
        let source_len = bytes[6] * 16777216 + bytes[7] * 65536 + bytes[8] * 256 + bytes[9];
        let namespace = bytes.subrange(42, 42 + namespace_len);
        let source = bytes.subrange(42 + namespace_len, bytes.len() as int);
        if source_len == 0 || source_len > MAX_CLIENT_BUNDLE_BYTES {
            Err("console client bundle source length is invalid")
        } else if bytes.len() != 42 + namespace_len + source_len {
            Err("console client bundle length does not match its header")
        } else if !valid_utf8(namespace) {
            Err("console client namespace is not UTF-8")
        } else if !valid_utf8(source) {
            Err("console client source is not UTF-8")
        } else if bytes.subrange(10, 42) != client_bundle_digest(namespace, source) {
            Err("console client bundle digest mismatch")
        } else if let Some(error) = client_bundle_error(decode_utf8(namespace), decode_utf8(source)) {
            Err(error)
        } else {
            Ok((decode_utf8(namespace), decode_utf8(source)))
        }
    }
}

#[derive(Clone, Debug, PartialEq, Eq)]
pub struct ClientBundle {
    pub namespace: String,
    pub source: String,
}

fn bundle_digest(namespace: &[u8], source: &[u8]) -> (digest: [u8; 32])
    ensures
        digest@ == client_bundle_digest(namespace@, source@),
{
    let mut framed: Vec<u8> = Vec::new();
    append_bytes(&mut framed, CLIENT_BUNDLE_FORMAT.as_bytes());
    framed.push(0u8);
    append_bytes(&mut framed, namespace);
    framed.push(0u8);
    append_bytes(&mut framed, source);
    assert(framed@ =~= CLIENT_BUNDLE_FORMAT.spec_bytes() + seq![0u8] + namespace@ + seq![0u8]
        + source@);
    sha256(framed.as_slice())
}

impl ClientBundle {
    pub fn new(namespace: String, source: String) -> (r: Result<Self, String>)
        ensures
            match r {
                Ok(bundle) => client_bundle_error(namespace@, source@) is None && bundle.namespace@
                    == namespace@ && bundle.source@ == source@,
                Err(message) => client_bundle_error(namespace@, source@) matches Some(expected)
                    && message@ == expected@,
            },
    {
        if !namespace_name(namespace.as_str()) {
            return Err(owned("console client namespace is invalid"));
        }
        let source_text = source.as_str();
        let empty = source_text.is_empty();
        let length = source_text.as_bytes().len();
        assert(source_text.spec_bytes() == encode_utf8(source@));
        if empty || length > MAX_CLIENT_BUNDLE_BYTES {
            return Err(owned("console client source must be between 1 byte and 1 MiB"));
        }
        assert(source@.len() != 0);
        assert(encode_utf8(source@).len() <= MAX_CLIENT_BUNDLE_BYTES);
        Ok(Self { namespace, source })
    }

    /// Frames the bundle as `HCB0`, big-endian lengths, digest, namespace and
    /// source.
    pub fn encode(&self) -> (r: Result<Vec<u8>, String>)
        ensures
            match r {
                Ok(bytes) => encode_utf8(self.namespace@).len() <= 0xffff && encode_utf8(
                    self.source@,
                ).len() <= 0xffff_ffff && bytes@ == client_bundle_bytes(
                    encode_utf8(self.namespace@),
                    encode_utf8(self.source@),
                ) && (client_bundle_error(self.namespace@, self.source@) is None
                    ==> client_bundle_decode(bytes@) == Ok::<(Seq<char>, Seq<char>), &'static str>(
                    (self.namespace@, self.source@),
                )),
                Err(message) => (encode_utf8(self.namespace@).len() > 0xffff && message@
                    == "console client namespace is too long"@) || (encode_utf8(self.namespace@).len()
                    <= 0xffff && encode_utf8(self.source@).len() > 0xffff_ffff && message@
                    == "console client source is too long"@),
            },
    {
        let namespace = self.namespace.as_str().as_bytes();
        let source = self.source.as_str().as_bytes();
        if namespace.len() > 0xffff {
            return Err(owned("console client namespace is too long"));
        }
        if source.len() as u64 > 0xffff_ffffu64 {
            return Err(owned("console client source is too long"));
        }
        let namespace_len = namespace.len();
        let source_len = source.len();
        let digest = bundle_digest(namespace, source);
        let mut output: Vec<u8> = Vec::with_capacity(42);
        append_bytes(&mut output, CLIENT_BUNDLE_MAGIC.as_slice());
        output.push((namespace_len / 256 % 256) as u8);
        output.push((namespace_len % 256) as u8);
        output.push((source_len / 16777216 % 256) as u8);
        output.push((source_len / 65536 % 256) as u8);
        output.push((source_len / 256 % 256) as u8);
        output.push((source_len % 256) as u8);
        append_bytes(&mut output, digest.as_slice());
        append_bytes(&mut output, namespace);
        append_bytes(&mut output, source);
        assert(CLIENT_BUNDLE_MAGIC@ =~= hcb0_magic());
        assert(output@ =~= client_bundle_bytes(namespace@, source@));
        proof {
            if client_bundle_error(self.namespace@, self.source@) is None {
                law_client_bundle_round_trip(self.namespace@, self.source@);
            }
        }
        Ok(output)
    }

    pub fn decode(bytes: &[u8]) -> (r: Result<Self, String>)
        ensures
            match r {
                Ok(bundle) => client_bundle_decode(bytes@) == Ok::<(Seq<char>, Seq<char>), &'static str>(
                    (bundle.namespace@, bundle.source@),
                ),
                Err(message) => client_bundle_decode(bytes@) matches Err(expected) && message@
                    == expected@,
            },
    {
        if bytes.len() < 42 || !same_bytes(&bytes[0..4], CLIENT_BUNDLE_MAGIC.as_slice()) {
            proof {
                assert(CLIENT_BUNDLE_MAGIC@ =~= hcb0_magic());
                if bytes@.len() >= 42 {
                    assert(bytes@.subrange(0, 4) =~= bytes@.take(4));
                }
            }
            return Err(owned("console client bundle has invalid HCB0 magic"));
        }
        proof {
            assert(CLIENT_BUNDLE_MAGIC@ =~= hcb0_magic());
            assert(bytes@.subrange(0, 4) =~= bytes@.take(4));
        }
        let namespace_len = bytes[4] as usize * 256 + bytes[5] as usize;
        let source_len = bytes[6] as usize * 16777216 + bytes[7] as usize * 65536 + bytes[8] as usize
            * 256 + bytes[9] as usize;
        if source_len == 0 || source_len > MAX_CLIENT_BUNDLE_BYTES {
            return Err(owned("console client bundle source length is invalid"));
        }
        let expected = 42 + namespace_len + source_len;
        if bytes.len() != expected {
            return Err(owned("console client bundle length does not match its header"));
        }
        let namespace_bytes = &bytes[42..42 + namespace_len];
        let source_bytes = &bytes[42 + namespace_len..bytes.len()];
        let namespace = match utf8_str(namespace_bytes) {
            Some(text) => text,
            None => return Err(owned("console client namespace is not UTF-8")),
        };
        let source = match utf8_str(source_bytes) {
            Some(text) => text,
            None => return Err(owned("console client source is not UTF-8")),
        };
        let digest = bundle_digest(namespace_bytes, source_bytes);
        if !same_bytes(&bytes[10..42], digest.as_slice()) {
            return Err(owned("console client bundle digest mismatch"));
        }
        Self::new(owned(namespace), owned(source))
    }
}


/// A valid client bundle decodes from its own encoding to exactly its
/// namespace and source (SHA-256 digests being 32 bytes long).
pub proof fn law_client_bundle_round_trip(namespace: Seq<char>, source: Seq<char>)
    requires
        client_bundle_error(namespace, source) is None,
        client_bundle_digest(encode_utf8(namespace), encode_utf8(source)).len() == 32,
    ensures
        client_bundle_decode(client_bundle_bytes(encode_utf8(namespace), encode_utf8(source)))
            == Ok::<(Seq<char>, Seq<char>), &'static str>((namespace, source)),
{
    let ns = encode_utf8(namespace);
    let src = encode_utf8(source);
    let bytes = client_bundle_bytes(ns, src);
    vstd::utf8::encode_utf8_valid_utf8(namespace);
    vstd::utf8::encode_utf8_valid_utf8(source);
    vstd::utf8::encode_utf8_decode_utf8(namespace);
    vstd::utf8::encode_utf8_decode_utf8(source);
    let n = ns.len() as u32;
    let m = src.len() as u32;
    assert((n / 256 % 256) * 256 + n % 256 == n) by (bit_vector)
        requires
            n < 65536,
    ;
    assert((m / 16777216 % 256) * 16777216 + (m / 65536 % 256) * 65536 + (m / 256 % 256) * 256 + m
        % 256 == m) by (bit_vector)
        requires
            m <= 1048576,
    ;
    assert(bytes.take(4) =~= hcb0_magic());
    assert(bytes.subrange(10, 42) =~= client_bundle_digest(ns, src));
    assert(bytes.subrange(42, 42 + ns.len() as int) =~= ns);
    assert(bytes.subrange(42 + ns.len() as int, bytes.len() as int) =~= src);
}


/// `frame exceeds configured limit of <maximum> bytes`.
pub open spec fn frame_limit_message(maximum: usize) -> Seq<char> {
    "frame exceeds configured limit of "@ + decimal_chars(maximum as nat) + " bytes"@
}

/// The big-endian value of a four-byte frame header.
pub open spec fn be_u32_value(header: Seq<u8>) -> int {
    header[0] * 16777216 + header[1] * 65536 + header[2] * 256 + header[3]
}

fn frame_limit_error(maximum: usize) -> (message: String)
    ensures
        message@ == frame_limit_message(maximum),
{
    let mut message = String::new();
    push_str(&mut message, "frame exceeds configured limit of ");
    push_decimal(&mut message, maximum as u64);
    push_str(&mut message, " bytes");
    message
}

/// The four-byte big-endian header that precedes a frame of `length`
/// bytes, refusing frames over `maximum` bytes or over `u32::MAX`.
pub fn frame_header(length: usize, maximum: usize) -> (r: Result<[u8; 4], String>)
    ensures
        match r {
            Ok(header) => length <= maximum && length <= 0xffff_ffff && header@ == be_u32_bytes(
                length as int,
            ),
            Err(message) => (length > maximum && message@ == frame_limit_message(maximum)) || (
            length <= maximum && length > 0xffff_ffff && message@ == "frame is too large"@),
        },
{
    if length > maximum {
        return Err(frame_limit_error(maximum));
    }
    if length as u64 > 0xffff_ffffu64 {
        return Err(owned("frame is too large"));
    }
    let header: [u8; 4] = [
        (length / 16777216 % 256) as u8,
        (length / 65536 % 256) as u8,
        (length / 256 % 256) as u8,
        (length % 256) as u8,
    ];
    assert(header@ =~= be_u32_bytes(length as int));
    Ok(header)
}

/// The payload length that a frame header announces, refusing lengths over
/// `maximum`.
pub fn frame_payload_length(header: [u8; 4], maximum: usize) -> (r: Result<usize, String>)
    ensures
        match r {
            Ok(length) => length == be_u32_value(header@) && length <= maximum,
            Err(message) => be_u32_value(header@) > maximum && message@ == frame_limit_message(
                maximum,
            ),
        },
{
    let length: u64 = header[0] as u64 * 16777216 + header[1] as u64 * 65536 + header[2] as u64 * 256
        + header[3] as u64;
    if length > maximum as u64 {
        return Err(frame_limit_error(maximum));
    }
    Ok(length as usize)
}

/// A frame header written for a frame is read back as the frame's length.
pub proof fn law_frame_header_round_trip(length: usize, maximum: usize)
    requires
        length <= maximum,
        length <= 0xffff_ffff,
    ensures
        be_u32_value(be_u32_bytes(length as int)) == length,
{
    let n = length as u32;
    assert((n / 16777216 % 256) * 16777216 + (n / 65536 % 256) * 65536 + (n / 256 % 256) * 256 + n
        % 256 == n) by (bit_vector);
}

// ---------------------------------------------------------------------------
// Reading console values
// ---------------------------------------------------------------------------

/// The text of a keyword or a string.
pub open spec fn key_text(value: HalValue) -> Option<Seq<char>> {
    match value {
        HalValue::Keyword(k) => Some(k@),
        HalValue::String(s) => Some(s@),
        _ => None,
    }
}

/// The index of the first entry, at or after `from`, whose key is the
/// keyword or string `name`.
pub open spec fn text_entry_index(entries: Seq<(HalValue, HalValue)>, name: Seq<char>, from: int) -> Option<int>
    decreases entries.len() - from,
{
    if from < 0 || from >= entries.len() {
        None
    } else if key_text(entries[from].0) == Some(name) {
        Some(from)
    } else {
        text_entry_index(entries, name, from + 1)
    }
}

/// The value under a keyword or string key of a map.
pub open spec fn map_get_spec(value: HalValue, name: Seq<char>) -> Option<HalValue> {
    match map_entries(value) {
        Some(entries) => match text_entry_index(entries, name, 0) {
            Some(i) => Some(entries[i].1),
            None => None,
        },
        None => None,
    }
}

pub fn map_get<'a>(value: &'a HalValue, name: &str) -> (r: Option<&'a HalValue>)
    ensures
        match r {
            Some(found) => map_get_spec(*value, name@) == Some(*found),
            None => map_get_spec(*value, name@) is None,
        },
{
    let entries = match value {
        HalValue::Mapping(entries) => entries,
        _ => return None,
    };
    let mut i: usize = 0;
    while i < entries.len()
        invariant
            i <= entries@.len(),
            *value == HalValue::Mapping(*entries),
            text_entry_index(entries@, name@, 0) == text_entry_index(entries@, name@, i as int),
        decreases entries@.len() - i,
    {
        let matched = match &entries[i].0 {
            HalValue::Keyword(k) => crate::text::same_text(k.as_str(), name),
            HalValue::String(t) => crate::text::same_text(t.as_str(), name),
            _ => false,
        };
        if matched {
            return Some(&entries[i].1);
        }
        i = i + 1;
    }
    None
}

pub open spec fn string_value_spec(value: HalValue) -> Result<Seq<char>, Seq<char>> {
    match key_text(value) {
        Some(text) => Ok(text),
        None => Err("expected text value"@),
    }
}

pub open spec fn text_result(r: Result<String, String>) -> Result<Seq<char>, Seq<char>> {
    match r {
        Ok(text) => Ok(text@),
        Err(m) => Err(m@),
    }
}

/// The text of a string or keyword value.
pub fn string_value(value: &HalValue) -> (r: Result<String, String>)
    ensures
        text_result(r) == string_value_spec(*value),
{
    match value {
        HalValue::String(text) => Ok(text.clone()),
        HalValue::Keyword(text) => Ok(text.clone()),
        _ => Err(owned("expected text value")),
    }
}

/// The text of a keyword or string value, if it is one.
pub fn keyword_text(value: &HalValue) -> (r: Option<String>)
    ensures
        match r {
            Some(text) => key_text(*value) == Some(text@),
            None => key_text(*value) is None,
        },
{
    match value {
        HalValue::Keyword(text) => Some(text.clone()),
        HalValue::String(text) => Some(text.clone()),
        _ => None,
    }
}

/// The members of a vector, list, tuple or set.
pub open spec fn collection_items(value: HalValue) -> Option<Seq<HalValue>> {
    match value {
        HalValue::Vector(items) => Some(items@),
        HalValue::List(items) => Some(items@),
        HalValue::Tuple(items) => Some(items@),
        HalValue::Members(items) => Some(items@),
        _ => None,
    }
}

pub fn value_sequence(value: &HalValue) -> (r: Option<&Vec<HalValue>>)
    ensures
        match r {
            Some(items) => collection_items(*value) == Some(items@),
            None => collection_items(*value) is None,
        },
{
    match value {
        HalValue::Vector(items) => Some(items),
        HalValue::List(items) => Some(items),
        HalValue::Tuple(items) => Some(items),
        HalValue::Members(items) => Some(items),
        _ => None,
    }
}

pub open spec fn text_or_empty(value: HalValue) -> Seq<char> {
    match key_text(value) {
        Some(text) => text,
        None => Seq::empty(),
    }
}

/// A collection of texts, as the set of its members' texts.
pub open spec fn text_set_spec(value: HalValue) -> Result<Set<Seq<char>>, Seq<char>> {
    match collection_items(value) {
        None => Err("expected a collection of text values"@),
        Some(items) => if forall|i: int| 0 <= i < items.len() ==> (#[trigger] key_text(items[i])) is Some {
            Ok(items.map_values(|v: HalValue| text_or_empty(v)).to_set())
        } else {
            Err("expected text value"@)
        },
    }
}

pub open spec fn text_set_result(r: Result<TextSet, String>) -> Result<Set<Seq<char>>, Seq<char>> {
    match r {
        Ok(set) => Ok(set@.to_set()),
        Err(m) => Err(m@),
    }
}

pub fn text_set(value: &HalValue) -> (r: Result<TextSet, String>)
    ensures
        text_set_result(r) == text_set_spec(*value),
        r matches Ok(set) ==> sorted_texts(set@),
{
    let items = match value_sequence(value) {
        Some(items) => items,
        None => return Err(owned("expected a collection of text values")),
    };
    let ghost texts = items@.map_values(|v: HalValue| text_or_empty(v));
    let mut set = TextSet::new();
    let mut i: usize = 0;
    while i < items.len()
        invariant
            i <= items@.len(),
            collection_items(*value) == Some(items@),
            texts == items@.map_values(|v: HalValue| text_or_empty(v)),
            forall|j: int| 0 <= j < i ==> (#[trigger] key_text(items@[j])) is Some,
            set@.to_set() == texts.take(i as int).to_set(),
            sorted_texts(set@),
        decreases items@.len() - i,
    {
        let text = match string_value(&items[i]) {
            Ok(text) => text,
            Err(m) => return Err(m),
        };
        set.insert(text);
        proof {
            assert(texts.take(i + 1) =~= texts.take(i as int).push(texts[i as int]));
            texts.take(i as int).lemma_push_to_set_commute(texts[i as int]);
        }
        i = i + 1;
    }
    assert(texts.take(i as int) =~= texts);
    Ok(set)
}

// ---------------------------------------------------------------------------
// Grants
// ---------------------------------------------------------------------------

/// A grant as its contracts see it: the console, the set of commands, and
/// whether writes are granted.
pub struct GrantModel {
    pub console: Seq<char>,
    pub commands: Set<Seq<char>>,
    pub write: bool,
}

pub open spec fn grant_model(grant: ConsoleGrant) -> GrantModel {
    GrantModel { console: grant.console@, commands: grant.commands@.to_set(), write: grant.write }
}

pub open spec fn grant_result(r: Result<ConsoleGrant, String>) -> Result<GrantModel, Seq<char>> {
    match r {
        Ok(grant) => Ok(grant_model(grant)),
        Err(m) => Err(m@),
    }
}

pub open spec fn grant_field(name: Seq<char>) -> bool {
    name == "protocol"@ || name == "console"@ || name == "commands"@ || name == "write"@
}

/// The refusal of the first key, from `from` on, that is not text or not a
/// grant field.
pub open spec fn grant_key_error(entries: Seq<(HalValue, HalValue)>, from: int) -> Option<Seq<char>>
    decreases entries.len() - from,
{
    if from < 0 || from >= entries.len() {
        None
    } else {
        match key_text(entries[from].0) {
            None => Some("console grant keys must be text"@),
            Some(key) => if !grant_field(key) {
                Some("console grant contains unsupported field "@ + crate::text::debug_text(key))
            } else {
                grant_key_error(entries, from + 1)
            },
        }
    }
}

/// What `ConsoleGrant::parse` makes of a value: the protocol, the console
/// identifier, the command names, the write flag, and no other field.
pub open spec fn grant_spec(value: HalValue) -> Result<GrantModel, Seq<char>> {
    match map_get_spec(value, "protocol"@) {
        None => Err("console grant requires :protocol"@),
        Some(protocol) => match string_value_spec(protocol) {
            Err(m) => Err(m),
            Ok(protocol) => if protocol != GRANT_PROTOCOL@ {
                Err("console grant protocol is unsupported"@)
            } else {
                match map_get_spec(value, "console"@) {
                    None => Err("console grant requires :console"@),
                    Some(console) => match string_value_spec(console) {
                        Err(m) => Err(m),
                        Ok(console) => if !is_identifier(encode_utf8(console)) {
                            Err("console grant :console is invalid"@)
                        } else {
                            grant_commands_spec(value, console)
                        },
                    },
                }
            },
        },
    }
}

pub open spec fn grant_commands_spec(value: HalValue, console: Seq<char>) -> Result<GrantModel, Seq<char>> {
    match map_get_spec(value, "commands"@) {
        None => Err("console grant requires :commands"@),
        Some(commands) => match text_set_spec(commands) {
            Err(m) => Err(m),
            Ok(commands) => if exists|c: Seq<char>| commands.contains(c) && !is_command_name(encode_utf8(c)) {
                Err("console grant contains an invalid command name"@)
            } else {
                match map_get_spec(value, "write"@) {
                    Some(HalValue::Bool(write)) => match map_entries(value) {
                        None => Err("console grant must be a map"@),
                        Some(entries) => match grant_key_error(entries, 0) {
                            Some(m) => Err(m),
                            None => Ok(GrantModel { console, commands, write }),
                        },
                    },
                    _ => Err("console grant :write must be boolean"@),
                }
            },
        },
    }
}

fn grant_keys(entries: &Vec<(HalValue, HalValue)>) -> (r: Result<(), String>)
    ensures
        match r {
            Ok(()) => grant_key_error(entries@, 0) is None,
            Err(m) => grant_key_error(entries@, 0) == Some(m@),
        },
{
    let mut i: usize = 0;
    while i < entries.len()
        invariant
            i <= entries@.len(),
            grant_key_error(entries@, 0) == grant_key_error(entries@, i as int),
        decreases entries@.len() - i,
    {
        let key = match keyword_text(&entries[i].0) {
            Some(key) => key,
            None => return Err(owned("console grant keys must be text")),
        };
        let k = key.as_str();
        if !(crate::text::same_text(k, "protocol") || crate::text::same_text(k, "console")
            || crate::text::same_text(k, "commands") || crate::text::same_text(k, "write")) {
            let mut m = owned("console grant contains unsupported field ");
            push_str(&mut m, crate::text::debug_quoted(k).as_str());
            return Err(m);
        }
        i = i + 1;
    }
    Ok(())
}

/// Whether every text of the set is a command name.
fn all_command_names(set: &TextSet) -> (r: bool)
    ensures
        r == !(exists|c: Seq<char>| set@.to_set().contains(c) && !is_command_name(encode_utf8(c))),
{
    let items = set.items();
    let mut i: usize = 0;
    while i < items.len()
        invariant
            i <= items@.len(),
            items@.map_values(|s: String| s@) == set@,
            forall|j: int| 0 <= j < i ==> is_command_name(encode_utf8(#[trigger] set@[j])),
        decreases items@.len() - i,
    {
        if !command_name(items[i].as_str()) {
            assert(set@.to_set().contains(set@[i as int]));
            return false;
        }
        i = i + 1;
    }
    proof {
        assert forall|c: Seq<char>| set@.to_set().contains(c) implies is_command_name(encode_utf8(c)) by {
            let j = choose|j: int| 0 <= j < set@.len() && set@[j] == c;
        }
    }
    true
}

impl ConsoleGrant {
    /// Reads a grant from its HAL form.
    pub fn parse(value: &HalValue) -> (r: Result<Self, String>)
        ensures
            grant_result(r) == grant_spec(*value),
            r matches Ok(grant) ==> sorted_texts(grant.commands@),
    {
        let protocol = match map_get(value, "protocol") {
            Some(protocol) => protocol,
            None => return Err(owned("console grant requires :protocol")),
        };
        let protocol = match string_value(protocol) {
            Ok(text) => text,
            Err(m) => return Err(m),
        };
        if !crate::text::same_text(protocol.as_str(), GRANT_PROTOCOL) {
            return Err(owned("console grant protocol is unsupported"));
        }
        let console = match map_get(value, "console") {
            Some(console) => console,
            None => return Err(owned("console grant requires :console")),
        };
        let console = match string_value(console) {
            Ok(text) => text,
            Err(m) => return Err(m),
        };
        if !identifier(console.as_str()) {
            return Err(owned("console grant :console is invalid"));
        }
        let commands = match map_get(value, "commands") {
            Some(commands) => commands,
            None => return Err(owned("console grant requires :commands")),
        };
        let commands = match text_set(commands) {
            Ok(set) => set,
            Err(m) => return Err(m),
        };
        if !all_command_names(&commands) {
            return Err(owned("console grant contains an invalid command name"));
        }
        let write = match map_get(value, "write") {
            Some(HalValue::Bool(flag)) => *flag,
            _ => return Err(owned("console grant :write must be boolean")),
        };
        let entries = match value {
            HalValue::Mapping(entries) => entries,
            _ => return Err(owned("console grant must be a map")),
        };
        match grant_keys(entries) {
            Ok(()) => {},
            Err(m) => return Err(m),
        }
        Ok(ConsoleGrant { console, commands, write })
    }
}

// ---------------------------------------------------------------------------
// Console values
// ---------------------------------------------------------------------------

pub open spec fn keyword_entry(entry: (HalValue, HalValue), name: Seq<char>) -> bool {
    match entry.0 {
        HalValue::Keyword(k) => k@ == name,
        _ => false,
    }
}

pub open spec fn text_value_is(value: HalValue, text: Seq<char>) -> bool {
    match value {
        HalValue::String(s) => s@ == text,
        _ => false,
    }
}

/// A set value whose members are the given strings, in order.
pub open spec fn text_members(value: HalValue, texts: Seq<Seq<char>>) -> bool {
    match value {
        HalValue::Members(items) => items@.len() == texts.len() && forall|i: int|
            0 <= i < texts.len() ==> text_value_is(#[trigger] items@[i], texts[i]),
        _ => false,
    }
}

/// The HAL form of a grant: `{:protocol .. :console .. :commands #{..} :write ..}`.
pub open spec fn grant_value_holds(value: HalValue, console: Seq<char>, commands: Seq<Seq<char>>, write: bool) -> bool {
    match value {
        HalValue::Mapping(entries) => {
            let e = entries@;
            &&& e.len() == 4
            &&& keyword_entry(e[0], "protocol"@) && text_value_is(e[0].1, GRANT_PROTOCOL@)
            &&& keyword_entry(e[1], "console"@) && text_value_is(e[1].1, console)
            &&& keyword_entry(e[2], "commands"@) && text_members(e[2].1, commands)
            &&& keyword_entry(e[3], "write"@) && e[3].1 == HalValue::Bool(write)
        },
        _ => false,
    }
}

impl ConsoleGrant {
    /// The grant's HAL form, commands in increasing order.
    pub fn to_value(&self) -> (value: HalValue)
        ensures
            grant_value_holds(value, self.console@, self.commands@, self.write),
    {
        let items = self.commands.items();
        let mut members: Vec<HalValue> = Vec::new();
        let mut i: usize = 0;
        while i < items.len()
            invariant
                i <= items@.len(),
                items@.map_values(|s: String| s@) == self.commands@,
                members@.len() == i,
                forall|j: int| 0 <= j < i ==> text_value_is(#[trigger] members@[j], self.commands@[j]),
            decreases items@.len() - i,
        {
            members.push(HalValue::String(items[i].clone()));
            i = i + 1;
        }
        HalValue::Mapping(vec![
            (HalValue::Keyword(owned("protocol")), HalValue::String(owned(GRANT_PROTOCOL))),
            (HalValue::Keyword(owned("console")), HalValue::String(self.console.clone())),
            (HalValue::Keyword(owned("commands")), HalValue::Members(members)),
            (HalValue::Keyword(owned("write")), HalValue::Bool(self.write)),
        ])
    }
}

/// `{:ok true :value value}`.
pub open spec fn success_holds(reply: HalValue, value: HalValue) -> bool {
    match reply {
        HalValue::Mapping(entries) => {
            let e = entries@;
            &&& e.len() == 2
            &&& keyword_entry(e[0], "ok"@) && e[0].1 == HalValue::Bool(true)
            &&& keyword_entry(e[1], "value"@) && e[1].1 == value
        },
        _ => false,
    }
}

/// `{:ok false :error {:code code :message message}}`.
pub open spec fn failure_holds(reply: HalValue, code: Seq<char>, message: Seq<char>) -> bool {
    match reply {
        HalValue::Mapping(entries) => {
            let e = entries@;
            &&& e.len() == 2
            &&& keyword_entry(e[0], "ok"@) && e[0].1 == HalValue::Bool(false)
            &&& keyword_entry(e[1], "error"@)
            &&& match e[1].1 {
                HalValue::Mapping(inner) => {
                    let f = inner@;
                    &&& f.len() == 2
                    &&& keyword_entry(f[0], "code"@) && text_value_is(f[0].1, code)
                    &&& keyword_entry(f[1], "message"@) && text_value_is(f[1].1, message)
                },
                _ => false,
            }
        },
        _ => false,
    }
}

/// A successful console reply.
pub fn success(value: HalValue) -> (reply: HalValue)
    ensures
        success_holds(reply, value),
{
    HalValue::Mapping(vec![
        (HalValue::Keyword(owned("ok")), HalValue::Bool(true)),
        (HalValue::Keyword(owned("value")), value),
    ])
}

/// A failed console reply with its error code and message.
pub fn failure(code: &str, message: &str) -> (reply: HalValue)
    ensures
        failure_holds(reply, code@, message@),
{
    HalValue::Mapping(vec![
        (HalValue::Keyword(owned("ok")), HalValue::Bool(false)),
        (
            HalValue::Keyword(owned("error")),
            HalValue::Mapping(vec![
                (HalValue::Keyword(owned("code")), HalValue::String(owned(code))),
                (HalValue::Keyword(owned("message")), HalValue::String(owned(message))),
            ]),
        ),
    ])
}

/// Reading back a valid grant's HAL form gives the same grant: for a
/// grant whose console is an identifier and whose commands are command
/// names, `ConsoleGrant::parse` of what `to_value` gives answers that
/// console, those commands and that write flag.
pub proof fn law_grant_value_round_trip(grant: ConsoleGrant, value: HalValue)
    requires
        is_identifier(encode_utf8(grant.console@)),
        forall|i: int| 0 <= i < grant.commands@.len() ==> is_command_name(encode_utf8(#[trigger] grant.commands@[i])),
        grant_value_holds(value, grant.console@, grant.commands@, grant.write),
    ensures
        grant_spec(value) == Ok::<GrantModel, Seq<char>>(grant_model(grant)),
{
    reveal_strlit("protocol");
    reveal_strlit("console");
    reveal_strlit("commands");
    reveal_strlit("write");
    let entries = map_entries(value)->Some_0;
    assert("protocol"@[0] == 'p' && "console"@[0] == 'c' && "commands"@[0] == 'c' && "write"@[0] == 'w');
    assert("console"@.len() == 7 && "commands"@.len() == 8);
    assert("protocol"@ != "console"@ && "protocol"@ != "commands"@ && "protocol"@ != "write"@);
    assert("console"@ != "commands"@ && "console"@ != "write"@ && "commands"@ != "write"@);
    assert(text_entry_index(entries, "protocol"@, 0) == Some(0int));
    assert(text_entry_index(entries, "console"@, 0) == Some(1int)) by {
        reveal_with_fuel(text_entry_index, 2);
    }
    assert(text_entry_index(entries, "commands"@, 0) == Some(2int)) by {
        reveal_with_fuel(text_entry_index, 3);
    }
    assert(text_entry_index(entries, "write"@, 0) == Some(3int)) by {
        reveal_with_fuel(text_entry_index, 4);
    }
    let items = collection_items(entries[2].1)->Some_0;
    assert(items.map_values(|v: HalValue| text_or_empty(v)) =~= grant.commands@) by {
        assert forall|i: int| 0 <= i < items.len() implies text_value_is(#[trigger] items[i], grant.commands@[i]) by {
        }
    }
    assert forall|i: int| 0 <= i < items.len() implies (#[trigger] key_text(items[i])) is Some by {
        assert(text_value_is(items[i], grant.commands@[i]));
    }
    assert forall|c: Seq<char>| grant.commands@.to_set().contains(c) implies is_command_name(encode_utf8(c)) by {
        let j = choose|j: int| 0 <= j < grant.commands@.len() && grant.commands@[j] == c;
    }
    assert(grant_key_error(entries, 0) is None) by {
        reveal_with_fuel(grant_key_error, 5);
    }
}

// ---------------------------------------------------------------------------
// Input schemas
// ---------------------------------------------------------------------------

/// The type a command input field must have.
#[derive(Clone, Copy, Debug, PartialEq, Eq, Structural)]
pub enum FieldType {
    /// Any value that encodes as immutable HTA.
    Hta,
    Text,
    Timestamp,
    Integer,
    Boolean,
    Mapping,
    Vector,
    Members,
}

pub open spec fn field_type_spec(value: HalValue) -> Result<FieldType, Seq<char>> {
    match key_text(value) {
        Some(name) => if name == "hta"@ {
            Ok(FieldType::Hta)
        } else if name == "string"@ {
            Ok(FieldType::Text)
        } else if name == "timestamp"@ {
            Ok(FieldType::Timestamp)
        } else if name == "integer"@ {
            Ok(FieldType::Integer)
        } else if name == "boolean"@ {
            Ok(FieldType::Boolean)
        } else if name == "map"@ {
            Ok(FieldType::Mapping)
        } else if name == "vector"@ {
            Ok(FieldType::Vector)
        } else if name == "set"@ {
            Ok(FieldType::Members)
        } else {
            Err("console schema contains an unsupported field type"@)
        },
        None => Err("console schema contains an unsupported field type"@),
    }
}

/// Whether a field of the type accepts the value; `encodable` says whether
/// the value encodes as immutable HTA.
pub open spec fn accepts_spec(field_type: FieldType, value: HalValue, encodable: bool) -> bool {
    match field_type {
        FieldType::Hta => encodable,
        FieldType::Text => value is String,
        FieldType::Timestamp => match value {
            HalValue::String(text) => is_timestamp(encode_utf8(text@)),
            _ => false,
        },
        FieldType::Integer => value is Number,
        FieldType::Boolean => value is Bool,
        FieldType::Mapping => map_entries(value) is Some,
        FieldType::Vector => value is Vector,
        FieldType::Members => value is Members,
    }
}

impl FieldType {
    pub fn parse(value: &HalValue) -> (r: Result<FieldType, String>)
        ensures
            plain_result(r) == field_type_spec(*value),
    {
        let name = match keyword_text(value) {
            Some(name) => name,
            None => return Err(owned("console schema contains an unsupported field type")),
        };
        let n = name.as_str();
        if same_text(n, "hta") {
            Ok(FieldType::Hta)
        } else if same_text(n, "string") {
            Ok(FieldType::Text)
        } else if same_text(n, "timestamp") {
            Ok(FieldType::Timestamp)
        } else if same_text(n, "integer") {
            Ok(FieldType::Integer)
        } else if same_text(n, "boolean") {
            Ok(FieldType::Boolean)
        } else if same_text(n, "map") {
            Ok(FieldType::Mapping)
        } else if same_text(n, "vector") {
            Ok(FieldType::Vector)
        } else if same_text(n, "set") {
            Ok(FieldType::Members)
        } else {
            Err(owned("console schema contains an unsupported field type"))
        }
    }

    pub fn accepts(self, value: &HalValue, encodable: bool) -> (r: bool)
        ensures
            r == accepts_spec(self, *value, encodable),
    {
        match self {
            FieldType::Hta => encodable,
            FieldType::Text => matches!(value, HalValue::String(_)),
            FieldType::Timestamp => match value {
                HalValue::String(text) => timestamp(text.as_str()),
                _ => false,
            },
            FieldType::Integer => matches!(value, HalValue::Number(_)),
            FieldType::Boolean => matches!(value, HalValue::Bool(_)),
            FieldType::Mapping => matches!(value, HalValue::Mapping(_)),
            FieldType::Vector => matches!(value, HalValue::Vector(_)),
            FieldType::Members => matches!(value, HalValue::Members(_)),
        }
    }
}

pub open spec fn plain_result<T>(r: Result<T, String>) -> Result<T, Seq<char>> {
    match r {
        Ok(v) => Ok(v),
        Err(m) => Err(m@),
    }
}

/// The type declared for a field name, the first declaration winning.
pub open spec fn field_lookup(fields: Seq<(Seq<char>, FieldType)>, name: Seq<char>) -> Option<FieldType>
    decreases fields.len(),
{
    if fields.len() == 0 {
        None
    } else if fields[0].0 == name {
        Some(fields[0].1)
    } else {
        field_lookup(fields.drop_first(), name)
    }
}

/// Reads the declared field types, each of a declared field and at most
/// once, in the map's order.
pub open spec fn fields_spec(
    entries: Seq<(HalValue, HalValue)>,
    declared: Set<Seq<char>>,
    from: int,
    found: Seq<(Seq<char>, FieldType)>,
) -> Result<Seq<(Seq<char>, FieldType)>, Seq<char>>
    decreases entries.len() - from,
{
    if from < 0 || from >= entries.len() {
        Ok(found)
    } else {
        match key_text(entries[from].0) {
            None => Err("console command input :fields keys must be keywords or strings"@),
            Some(name) => if !declared.contains(name) {
                Err("console command input :fields contains undeclared field "@ + debug_text(name))
            } else {
                match field_type_spec(entries[from].1) {
                    Err(m) => Err(m),
                    Ok(field_type) => if field_lookup(found, name) is Some {
                        Err("console command input :fields contains a duplicate"@)
                    } else {
                        fields_spec(entries, declared, from + 1, found.push((name, field_type)))
                    },
                }
            },
        }
    }
}

/// An input schema as its contracts see it.
pub struct SchemaModel {
    pub required: Set<Seq<char>>,
    pub optional: Set<Seq<char>>,
    pub fields: Seq<(Seq<char>, FieldType)>,
}

/// What `InputSchema::parse` makes of a value: a `:map` type, the required
/// and optional field names (disjoint), and types for declared fields.
pub open spec fn schema_spec(value: HalValue) -> Result<SchemaModel, Seq<char>> {
    match map_get_spec(value, "type"@) {
        None => Err("console command input schema requires :type"@),
        Some(kind) => if key_text(kind) != Some("map"@) {
            Err("console command input schema :type must be :map"@)
        } else {
            match map_get_spec(value, "required"@) {
                None => Err("console command input schema requires :required"@),
                Some(required) => match text_set_spec(required) {
                    Err(m) => Err(m),
                    Ok(required) => match map_get_spec(value, "optional"@) {
                        None => Err("console command input schema requires :optional"@),
                        Some(optional) => match text_set_spec(optional) {
                            Err(m) => Err(m),
                            Ok(optional) => schema_fields_spec(value, required, optional),
                        },
                    },
                },
            }
        },
    }
}

pub open spec fn schema_fields_spec(value: HalValue, required: Set<Seq<char>>, optional: Set<Seq<char>>) -> Result<SchemaModel, Seq<char>> {
    if exists|f: Seq<char>| required.contains(f) && optional.contains(f) {
        Err("console command input schema fields cannot be both required and optional"@)
    } else {
        match map_get_spec(value, "fields"@) {
            None => Ok(SchemaModel { required, optional, fields: Seq::empty() }),
            Some(types) => match map_entries(types) {
                None => Err("console command input :fields must be a map"@),
                Some(entries) => match fields_spec(entries, required.union(optional), 0, Seq::empty()) {
                    Err(m) => Err(m),
                    Ok(fields) => Ok(SchemaModel { required, optional, fields }),
                },
            },
        }
    }
}

/// The exact shape of a command's input map.
#[derive(Clone, Debug, PartialEq, Eq)]
pub struct InputSchema {
    required: TextSet,
    optional: TextSet,
    fields: Vec<(String, FieldType)>,
}

/// An input schema's parts: required and optional names in increasing
/// order, and the declared field types.
pub struct SchemaView {
    pub required: Seq<Seq<char>>,
    pub optional: Seq<Seq<char>>,
    pub fields: Seq<(Seq<char>, FieldType)>,
}

impl View for InputSchema {
    type V = SchemaView;

    closed spec fn view(&self) -> SchemaView {
        SchemaView {
            required: self.required@,
            optional: self.optional@,
            fields: self.fields@.map_values(|f: (String, FieldType)| (f.0@, f.1)),
        }
    }
}

pub open spec fn schema_model(view: SchemaView) -> SchemaModel {
    SchemaModel { required: view.required.to_set(), optional: view.optional.to_set(), fields: view.fields }
}

pub open spec fn schema_result(r: Result<InputSchema, String>) -> Result<SchemaModel, Seq<char>> {
    match r {
        Ok(schema) => Ok(schema_model(schema@)),
        Err(m) => Err(m@),
    }
}

fn declared_type(fields: &Vec<(String, FieldType)>, name: &str) -> (r: Option<FieldType>)
    ensures
        r == field_lookup(fields@.map_values(|f: (String, FieldType)| (f.0@, f.1)), name@),
{
    let ghost all = fields@.map_values(|f: (String, FieldType)| (f.0@, f.1));
    assert(all.skip(0) =~= all);
    let mut i: usize = 0;
    while i < fields.len()
        invariant
            i <= fields@.len(),
            all == fields@.map_values(|f: (String, FieldType)| (f.0@, f.1)),
            field_lookup(all, name@) == field_lookup(all.skip(i as int), name@),
        decreases fields@.len() - i,
    {
        assert(all.skip(i as int).drop_first() =~= all.skip(i + 1));
        if same_text(fields[i].0.as_str(), name) {
            return Some(fields[i].1);
        }
        i = i + 1;
    }
    None
}

fn quoted_message(prefix: &str, name: &str) -> (m: String)
    ensures
        m@ == prefix@ + debug_text(name@),
{
    let mut m = owned(prefix);
    push_str(&mut m, debug_quoted(name).as_str());
    m
}

impl InputSchema {
    pub fn parse(value: &HalValue) -> (r: Result<InputSchema, String>)
        ensures
            schema_result(r) == schema_spec(*value),
    {
        let kind = match map_get(value, "type") {
            Some(kind) => kind,
            None => return Err(owned("console command input schema requires :type")),
        };
        let is_map = match keyword_text(kind) {
            Some(text) => same_text(text.as_str(), "map"),
            None => false,
        };
        if !is_map {
            return Err(owned("console command input schema :type must be :map"));
        }
        let required = match map_get(value, "required") {
            Some(required) => required,
            None => return Err(owned("console command input schema requires :required")),
        };
        let required = match text_set(required) {
            Ok(set) => set,
            Err(m) => return Err(m),
        };
        let optional = match map_get(value, "optional") {
            Some(optional) => optional,
            None => return Err(owned("console command input schema requires :optional")),
        };
        let optional = match text_set(optional) {
            Ok(set) => set,
            Err(m) => return Err(m),
        };
        let ghost expected = schema_spec(*value);
        assert(expected == schema_fields_spec(*value, required@.to_set(), optional@.to_set()));
        let names = required.items();
        let mut i: usize = 0;
        while i < names.len()
            invariant
                i <= names@.len(),
                names@.map_values(|s: String| s@) == required@,
                expected == schema_spec(*value),
                expected == schema_fields_spec(*value, required@.to_set(), optional@.to_set()),
                forall|j: int| 0 <= j < i ==> !optional@.contains(#[trigger] required@[j]),
            decreases names@.len() - i,
        {
            if optional.contains(names[i].as_str()) {
                assert(required@.to_set().contains(required@[i as int]));
                assert(optional@.to_set().contains(required@[i as int]));
                return Err(owned("console command input schema fields cannot be both required and optional"));
            }
            i = i + 1;
        }
        assert(!exists|f: Seq<char>| required@.to_set().contains(f) && optional@.to_set().contains(f)) by {
            assert forall|f: Seq<char>| required@.to_set().contains(f) implies !optional@.to_set().contains(f) by {
                let j = choose|j: int| 0 <= j < required@.len() && required@[j] == f;
            }
        }
        let mut fields: Vec<(String, FieldType)> = Vec::new();
        assert(fields@.map_values(|f: (String, FieldType)| (f.0@, f.1)) =~= Seq::<(Seq<char>, FieldType)>::empty());
        if let Some(types) = map_get(value, "fields") {
            let entries = match types {
                HalValue::Mapping(entries) => entries,
                _ => return Err(owned("console command input :fields must be a map")),
            };
            let ghost declared = required@.to_set().union(optional@.to_set());
            let mut k: usize = 0;
            while k < entries.len()
                invariant
                    k <= entries@.len(),
                    expected == schema_spec(*value),
                    expected == schema_fields_spec(*value, required@.to_set(), optional@.to_set()),
                    !exists|f: Seq<char>| required@.to_set().contains(f) && optional@.to_set().contains(f),
                    map_get_spec(*value, "fields"@) == Some(*types),
                    *types == HalValue::Mapping(*entries),
                    declared == required@.to_set().union(optional@.to_set()),
                    fields_spec(entries@, declared, 0, Seq::empty()) == fields_spec(
                        entries@,
                        declared,
                        k as int,
                        fields@.map_values(|f: (String, FieldType)| (f.0@, f.1)),
                    ),
                decreases entries@.len() - k,
            {
                let name = match keyword_text(&entries[k].0) {
                    Some(name) => name,
                    None => return Err(owned("console command input :fields keys must be keywords or strings")),
                };
                if !required.contains(name.as_str()) && !optional.contains(name.as_str()) {
                    return Err(quoted_message("console command input :fields contains undeclared field ", name.as_str()));
                }
                let field_type = match FieldType::parse(&entries[k].1) {
                    Ok(field_type) => field_type,
                    Err(m) => return Err(m),
                };
                if declared_type(&fields, name.as_str()).is_some() {
                    return Err(owned("console command input :fields contains a duplicate"));
                }
                let ghost before = fields@.map_values(|f: (String, FieldType)| (f.0@, f.1));
                fields.push((name, field_type));
                assert(fields@.map_values(|f: (String, FieldType)| (f.0@, f.1)) =~= before.push(
                    (name@, field_type),
                ));
                k = k + 1;
            }
        }
        let schema = InputSchema { required, optional, fields };
        assert(schema@.fields =~= fields@.map_values(|f: (String, FieldType)| (f.0@, f.1)));
        Ok(schema)
    }
}

pub open spec fn encodable_at(encodable: Seq<bool>, i: int) -> bool {
    0 <= i < encodable.len() && encodable[i]
}

/// Whether the declared type of a field rejects the value.
pub open spec fn field_rejects(schema: SchemaView, name: Seq<char>, value: HalValue, encodable: bool) -> bool {
    match field_lookup(schema.fields, name) {
        Some(field_type) => !accepts_spec(field_type, value, encodable),
        None => false,
    }
}

/// Checks the input entries from `from` on, `present` holding the names
/// seen before; answers the names seen.
pub open spec fn input_entries_spec(
    schema: SchemaView,
    entries: Seq<(HalValue, HalValue)>,
    encodable: Seq<bool>,
    from: int,
    present: Set<Seq<char>>,
) -> Result<Set<Seq<char>>, Seq<char>>
    decreases entries.len() - from,
{
    if from < 0 || from >= entries.len() {
        Ok(present)
    } else {
        match key_text(entries[from].0) {
            None => Err("hoplite.console/input-invalid: input keys must be keywords or strings"@),
            Some(name) => if !schema.required.contains(name) && !schema.optional.contains(name) {
                Err("hoplite.console/input-invalid: unsupported input field "@ + debug_text(name))
            } else if present.contains(name) {
                Err("hoplite.console/input-invalid: duplicate input field "@ + debug_text(name))
            } else if field_rejects(schema, name, entries[from].1, encodable_at(encodable, from)) {
                Err("hoplite.console/input-invalid: invalid value for field "@ + debug_text(name))
            } else {
                input_entries_spec(schema, entries, encodable, from + 1, present.insert(name))
            },
        }
    }
}

/// The first name of `names`, from `from` on, that is not present.
pub open spec fn first_missing(names: Seq<Seq<char>>, present: Set<Seq<char>>, from: int) -> Option<Seq<char>>
    decreases names.len() - from,
{
    if from < 0 || from >= names.len() {
        None
    } else if !present.contains(names[from]) {
        Some(names[from])
    } else {
        first_missing(names, present, from + 1)
    }
}

/// Whether an input map is exactly what the schema declares: only declared
/// fields, each once, of its declared type, every required field present
/// (the first missing one, in increasing order, is named).
pub open spec fn validate_spec(schema: SchemaView, input: HalValue, encodable: Seq<bool>) -> Result<(), Seq<char>> {
    match map_entries(input) {
        None => Err("hoplite.console/input-invalid: input must be a map"@),
        Some(entries) => match input_entries_spec(schema, entries, encodable, 0, Set::empty()) {
            Err(m) => Err(m),
            Ok(present) => match first_missing(schema.required, present, 0) {
                Some(name) => Err("hoplite.console/input-invalid: missing input field "@ + debug_text(name)),
                None => Ok(()),
            },
        },
    }
}

impl InputSchema {
    /// Checks a command input against the schema. `encodable[i]` says
    /// whether the value of the input's `i`-th entry encodes as immutable
    /// HTA (only fields of type `:hta` ask).
    pub fn validate(&self, input: &HalValue, encodable: &[bool]) -> (r: Result<(), String>)
        ensures
            plain_result(r) == validate_spec(self@, *input, encodable@),
    {
        let entries = match input {
            HalValue::Mapping(entries) => entries,
            _ => return Err(owned("hoplite.console/input-invalid: input must be a map")),
        };
        let ghost fields = self.fields@.map_values(|f: (String, FieldType)| (f.0@, f.1));
        let mut present = TextSet::new();
        assert(present@.to_set() =~= Set::<Seq<char>>::empty());
        let mut i: usize = 0;
        while i < entries.len()
            invariant
                i <= entries@.len(),
                *input == HalValue::Mapping(*entries),
                self@.fields == fields,
                fields == self.fields@.map_values(|f: (String, FieldType)| (f.0@, f.1)),
                input_entries_spec(self@, entries@, encodable@, 0, Set::empty()) == input_entries_spec(
                    self@,
                    entries@,
                    encodable@,
                    i as int,
                    present@.to_set(),
                ),
            decreases entries@.len() - i,
        {
            let name = match keyword_text(&entries[i].0) {
                Some(name) => name,
                None => return Err(owned("hoplite.console/input-invalid: input keys must be keywords or strings")),
            };
            if !self.required.contains(name.as_str()) && !self.optional.contains(name.as_str()) {
                return Err(quoted_message("hoplite.console/input-invalid: unsupported input field ", name.as_str()));
            }
            if present.contains(name.as_str()) {
                return Err(quoted_message("hoplite.console/input-invalid: duplicate input field ", name.as_str()));
            }
            let encodes = i < encodable.len() && encodable[i];
            let rejected = match declared_type(&self.fields, name.as_str()) {
                Some(field_type) => !field_type.accepts(&entries[i].1, encodes),
                None => false,
            };
            if rejected {
                return Err(quoted_message("hoplite.console/input-invalid: invalid value for field ", name.as_str()));
            }
            let ghost before = present@.to_set();
            let copy = name.clone();
            present.insert(copy);
            i = i + 1;
        }
        let required = self.required.items();
        let mut k: usize = 0;
        while k < required.len()
            invariant
                k <= required@.len(),
                required@.map_values(|s: String| s@) == self@.required,
                *input == HalValue::Mapping(*entries),
                input_entries_spec(self@, entries@, encodable@, 0, Set::empty()) == Ok::<
                    Set<Seq<char>>,
                    Seq<char>,
                >(present@.to_set()),
                first_missing(self@.required, present@.to_set(), 0) == first_missing(
                    self@.required,
                    present@.to_set(),
                    k as int,
                ),
            decreases required@.len() - k,
        {
            if !present.contains(required[k].as_str()) {
                return Err(quoted_message("hoplite.console/input-invalid: missing input field ", required[k].as_str()));
            }
            k = k + 1;
        }
        Ok(())
    }
}

// ---------------------------------------------------------------------------
// Command descriptors
// ---------------------------------------------------------------------------

/// One console command as its descriptor declares it, with the descriptor
/// value itself.
#[derive(Debug)]
pub struct CommandDescriptor {
    pub command: String,
    pub effect: CommandEffect,
    pub input: InputSchema,
    raw: HalValue,
}

pub struct DescriptorView {
    pub command: Seq<char>,
    pub effect: CommandEffect,
    pub input: SchemaView,
    pub raw: HalValue,
}

impl View for CommandDescriptor {
    type V = DescriptorView;

    closed spec fn view(&self) -> DescriptorView {
        DescriptorView { command: self.command@, effect: self.effect, input: self.input@, raw: self.raw }
    }
}

/// A descriptor as parsing describes it.
pub struct DescriptorModel {
    pub command: Seq<char>,
    pub effect: CommandEffect,
    pub input: SchemaModel,
    pub raw: HalValue,
}

pub open spec fn descriptor_model(view: DescriptorView) -> DescriptorModel {
    DescriptorModel { command: view.command, effect: view.effect, input: schema_model(view.input), raw: view.raw }
}

pub open spec fn descriptor_result(r: Result<CommandDescriptor, String>) -> Result<DescriptorModel, Seq<char>> {
    match r {
        Ok(d) => Ok(descriptor_model(d@)),
        Err(m) => Err(m@),
    }
}

pub open spec fn effect_spec(value: HalValue) -> Result<CommandEffect, Seq<char>> {
    if key_text(value) == Some("read"@) {
        Ok(CommandEffect::Read)
    } else if key_text(value) == Some("write"@) {
        Ok(CommandEffect::Write)
    } else {
        Err("console command descriptor :effect must be :read or :write"@)
    }
}

/// What `CommandDescriptor::parse` makes of a value, given whether the
/// value encodes as immutable HTA (`encoding`, the encoder's refusal).
pub open spec fn descriptor_spec(value: HalValue, encoding: Result<(), Seq<char>>) -> Result<DescriptorModel, Seq<char>> {
    match map_get_spec(value, "command"@) {
        None => Err("console command descriptor requires :command"@),
        Some(command) => match string_value_spec(command) {
            Err(m) => Err(m),
            Ok(command) => if !is_command_name(encode_utf8(command)) {
                Err("console command name is invalid"@)
            } else {
                match map_get_spec(value, "effect"@) {
                    None => Err("console command descriptor requires :effect"@),
                    Some(effect) => match effect_spec(effect) {
                        Err(m) => Err(m),
                        Ok(effect) => match map_get_spec(value, "input"@) {
                            None => Err("console command descriptor requires :input"@),
                            Some(input) => match schema_spec(input) {
                                Err(m) => Err(m),
                                Ok(input) => match encoding {
                                    Err(error) => Err(
                                        "console command descriptor is not immutable HTA: "@ + error,
                                    ),
                                    Ok(()) => Ok(DescriptorModel { command, effect, input, raw: value }),
                                },
                            },
                        },
                    },
                }
            },
        },
    }
}

impl CommandDescriptor {
    /// The descriptor value as it was declared.
    pub fn raw(&self) -> (raw: &HalValue)
        ensures
            *raw == self@.raw,
    {
        &self.raw
    }

    /// Reads a descriptor; `encoding` is what encoding the value as
    /// immutable HTA gave (the encoder's refusal, if any).
    pub fn parse(value: HalValue, encoding: Result<(), String>) -> (r: Result<CommandDescriptor, String>)
        ensures
            descriptor_result(r) == descriptor_spec(value, plain_result(encoding)),
    {
        let command = match map_get(&value, "command") {
            Some(command) => command,
            None => return Err(owned("console command descriptor requires :command")),
        };
        let command = match string_value(command) {
            Ok(text) => text,
            Err(m) => return Err(m),
        };
        if !command_name(command.as_str()) {
            return Err(owned("console command name is invalid"));
        }
        let effect = match map_get(&value, "effect") {
            Some(effect) => effect,
            None => return Err(owned("console command descriptor requires :effect")),
        };
        let effect = match keyword_text(effect) {
            Some(text) => if same_text(text.as_str(), "read") {
                CommandEffect::Read
            } else if same_text(text.as_str(), "write") {
                CommandEffect::Write
            } else {
                return Err(owned("console command descriptor :effect must be :read or :write"));
            },
            None => return Err(owned("console command descriptor :effect must be :read or :write")),
        };
        let input = match map_get(&value, "input") {
            Some(input) => input,
            None => return Err(owned("console command descriptor requires :input")),
        };
        let input = match InputSchema::parse(input) {
            Ok(schema) => schema,
            Err(m) => return Err(m),
        };
        match encoding {
            Err(error) => {
                let mut m = owned("console command descriptor is not immutable HTA: ");
                push_str(&mut m, error.as_str());
                return Err(m);
            },
            Ok(()) => {},
        }
        Ok(CommandDescriptor { command, effect, input, raw: value })
    }
}

// ---------------------------------------------------------------------------
// Command sets
// ---------------------------------------------------------------------------

/// The commands a console offers, by name.
#[derive(Debug)]
pub struct CommandSet {
    commands: Vec<CommandDescriptor>,
    names: TextSet,
}

/// A command set's parts: its command names in increasing order and its
/// descriptors in declaration order.
pub struct CommandSetView {
    pub names: Seq<Seq<char>>,
    pub descriptors: Seq<DescriptorView>,
}

impl View for CommandSet {
    type V = CommandSetView;

    closed spec fn view(&self) -> CommandSetView {
        CommandSetView {
            names: self.names@,
            descriptors: self.commands@.map_values(|d: CommandDescriptor| d@),
        }
    }
}

/// The first descriptor of the command, if any.
pub open spec fn find_descriptor(descriptors: Seq<DescriptorView>, command: Seq<char>) -> Option<DescriptorView>
    decreases descriptors.len(),
{
    if descriptors.len() == 0 {
        None
    } else if descriptors[0].command == command {
        Some(descriptors[0])
    } else {
        find_descriptor(descriptors.drop_first(), command)
    }
}

pub open spec fn declares(descriptors: Seq<DescriptorModel>, command: Seq<char>) -> bool {
    exists|i: int| 0 <= i < descriptors.len() && (#[trigger] descriptors[i]).command == command
}

pub open spec fn encoding_at(encodings: Seq<Result<(), Seq<char>>>, i: int) -> Result<(), Seq<char>> {
    if 0 <= i < encodings.len() {
        encodings[i]
    } else {
        Err(Seq::empty())
    }
}

/// Reads the descriptors from `from` on, `found` holding those before.
pub open spec fn descriptors_spec(
    items: Seq<HalValue>,
    encodings: Seq<Result<(), Seq<char>>>,
    from: int,
    found: Seq<DescriptorModel>,
) -> Result<Seq<DescriptorModel>, Seq<char>>
    decreases items.len() - from,
{
    if from < 0 || from >= items.len() {
        Ok(found)
    } else {
        match descriptor_spec(items[from], encoding_at(encodings, from)) {
            Err(m) => Err(m),
            Ok(descriptor) => if declares(found, descriptor.command) {
                Err("console descriptor bundle contains a duplicate command"@)
            } else {
                descriptors_spec(items, encodings, from + 1, found.push(descriptor))
            },
        }
    }
}

/// What `CommandSet::parse` makes of a descriptor bundle: 1 to 256
/// descriptors with distinct commands.
pub open spec fn command_set_spec(value: HalValue, encodings: Seq<Result<(), Seq<char>>>) -> Result<Seq<DescriptorModel>, Seq<char>> {
    match collection_items(value) {
        None => Err("console descriptor bundle must be a vector or sequence"@),
        Some(items) => if items.len() == 0 || items.len() > 256 {
            Err("console descriptor bundle must contain between 1 and 256 commands"@)
        } else {
            descriptors_spec(items, encodings, 0, Seq::empty())
        },
    }
}

pub open spec fn command_names(descriptors: Seq<DescriptorModel>) -> Set<Seq<char>> {
    Set::new(|c: Seq<char>| declares(descriptors, c))
}

pub open spec fn command_set_result(r: Result<CommandSet, String>) -> Result<Seq<DescriptorModel>, Seq<char>> {
    match r {
        Ok(set) => Ok(set@.descriptors.map_values(|d: DescriptorView| descriptor_model(d))),
        Err(m) => Err(m@),
    }
}

pub open spec fn plain_encodings(encodings: Seq<Result<(), String>>) -> Seq<Result<(), Seq<char>>> {
    encodings.map_values(|e: Result<(), String>| plain_result(e))
}

fn copy_encoding(encoding: &Result<(), String>) -> (r: Result<(), String>)
    ensures
        plain_result(r) == plain_result(*encoding),
{
    match encoding {
        Ok(()) => Ok(()),
        Err(error) => Err(error.clone()),
    }
}

impl CommandSet {
    /// Reads a descriptor bundle; `encodings[i]` is what encoding its
    /// `i`-th descriptor as immutable HTA gave.
    pub fn parse(value: HalValue, encodings: &[Result<(), String>]) -> (r: Result<CommandSet, String>)
        ensures
            command_set_result(r) == command_set_spec(value, plain_encodings(encodings@)),
            r matches Ok(set) ==> set@.names.to_set() == command_names(
                set@.descriptors.map_values(|d: DescriptorView| descriptor_model(d)),
            ),
    {
        let ghost original = value;
        let items = match value {
            HalValue::Vector(items) => items,
            HalValue::List(items) => items,
            HalValue::Tuple(items) => items,
            HalValue::Members(items) => items,
            _ => return Err(owned("console descriptor bundle must be a vector or sequence")),
        };
        if items.len() == 0 || items.len() > 256 {
            return Err(owned("console descriptor bundle must contain between 1 and 256 commands"));
        }
        let ghost all = items@;
        let ghost codes = plain_encodings(encodings@);
        let count = items.len();
        let mut rest = items;
        let mut commands: Vec<CommandDescriptor> = Vec::new();
        let mut names = TextSet::new();
        let mut i: usize = 0;
        assert(commands@.map_values(|d: CommandDescriptor| descriptor_model(d@)) =~= Seq::<DescriptorModel>::empty());
        assert(names@.to_set() =~= command_names(Seq::<DescriptorModel>::empty()));
        while i < count
            invariant
                count == all.len(),
                i <= all.len(),
                collection_items(original) == Some(all),
                command_set_spec(original, codes) == descriptors_spec(all, codes, 0, Seq::empty()),
                original == value,
                0 < all.len() <= 256,
                codes == plain_encodings(encodings@),
                rest@ == all.skip(i as int),
                descriptors_spec(all, codes, 0, Seq::empty()) == descriptors_spec(
                    all,
                    codes,
                    i as int,
                    commands@.map_values(|d: CommandDescriptor| descriptor_model(d@)),
                ),
                names@.to_set() == command_names(commands@.map_values(|d: CommandDescriptor| descriptor_model(d@))),
            decreases all.len() - i,
        {
            let item = rest.remove(0);
            assert(item == all[i as int]);
            let encoding = if i < encodings.len() {
                copy_encoding(&encodings[i])
            } else {
                Err(String::new())
            };
            assert(plain_result(encoding) == encoding_at(codes, i as int));
            let descriptor = match CommandDescriptor::parse(item, encoding) {
                Ok(descriptor) => descriptor,
                Err(m) => return Err(m),
            };
            let ghost found = commands@.map_values(|d: CommandDescriptor| descriptor_model(d@));
            let duplicate = names.contains(descriptor.command.as_str());
            proof {
                if duplicate {
                    assert(names@.to_set().contains(descriptor@.command));
                    assert(command_names(found).contains(descriptor@.command));
                } else {
                    if declares(found, descriptor@.command) {
                        assert(command_names(found).contains(descriptor@.command));
                        assert(names@.to_set().contains(descriptor@.command));
                    }
                }
            }
            if duplicate {
                return Err(owned("console descriptor bundle contains a duplicate command"));
            }
            let name = descriptor.command.clone();
            names.insert(name);
            commands.push(descriptor);
            proof {
                let now = commands@.map_values(|d: CommandDescriptor| descriptor_model(d@));
                assert(now =~= found.push(descriptor_model(descriptor@)));
                assert(names@.to_set() =~= command_names(now)) by {
                    assert forall|c: Seq<char>| declares(now, c) <==> (declares(found, c) || c == descriptor@.command) by {
                        if declares(now, c) {
                            let j = choose|j: int| 0 <= j < now.len() && (#[trigger] now[j]).command == c;
                            if j < found.len() {
                                assert(found[j] == now[j]);
                            }
                        }
                        if declares(found, c) {
                            let j = choose|j: int| 0 <= j < found.len() && (#[trigger] found[j]).command == c;
                            assert(now[j] == found[j]);
                        }
                        if c == descriptor@.command {
                            assert(now[found.len() as int].command == c);
                        }
                    }
                }
                assert(rest@ =~= all.skip(i + 1));
            }
            i = i + 1;
        }
        let set = CommandSet { commands, names };
        assert(set@.descriptors.map_values(|d: DescriptorView| descriptor_model(d)) =~= commands@.map_values(
            |d: CommandDescriptor| descriptor_model(d@),
        ));
        Ok(set)
    }
}

/// Whether a grant lets its console see and call a command.
pub open spec fn allows(commands: Set<Seq<char>>, write: bool, descriptor: DescriptorView) -> bool {
    commands.contains(descriptor.command) && (descriptor.effect == CommandEffect::Read || write)
}

/// The descriptor values of the first `k` command names, in name order,
/// that the grant allows.
pub open spec fn granted_prefix(set: CommandSetView, commands: Set<Seq<char>>, write: bool, k: int) -> Seq<HalValue>
    decreases k,
{
    if k <= 0 {
        Seq::empty()
    } else {
        let before = granted_prefix(set, commands, write, k - 1);
        match find_descriptor(set.descriptors, set.names[k - 1]) {
            Some(descriptor) => if allows(commands, write, descriptor) {
                before.push(descriptor.raw)
            } else {
                before
            },
            None => before,
        }
    }
}

/// What a console may be shown: the descriptors it is granted, by name.
pub open spec fn granted_spec(set: CommandSetView, commands: Set<Seq<char>>, write: bool) -> Seq<HalValue> {
    granted_prefix(set, commands, write, set.names.len() as int)
}

/// A grant names only listed commands; the first unlisted one, in
/// increasing order, is refused.
pub open spec fn grant_check_spec(set: CommandSetView, commands: Seq<Seq<char>>) -> Result<(), Seq<char>> {
    match first_missing(commands, set.names.to_set(), 0) {
        Some(command) => Err("hoplite.console/grant-invalid: unknown command "@ + debug_text(command)),
        None => Ok(()),
    }
}

/// Whether a call may go ahead: a valid grant, a listed command that the
/// grant names, a write command only under a write grant, an input that
/// the command's schema accepts, and an immutable input of at most
/// `maximum` encoded bytes (`encoded`: its encoded length, or the
/// encoder's refusal).
pub open spec fn call_spec(
    set: CommandSetView,
    commands: Seq<Seq<char>>,
    write: bool,
    command: Seq<char>,
    input: HalValue,
    maximum: usize,
    encodable: Seq<bool>,
    encoded: Result<usize, Seq<char>>,
) -> Result<(), Seq<char>> {
    match grant_check_spec(set, commands) {
        Err(m) => Err(m),
        Ok(()) => match find_descriptor(set.descriptors, command) {
            None => Err("hoplite.console/command-unlisted"@),
            Some(descriptor) => if !commands.contains(command) {
                Err("hoplite.console/command-not-granted"@)
            } else if descriptor.effect == CommandEffect::Write && !write {
                Err("hoplite.console/write-not-granted"@)
            } else {
                match validate_spec(descriptor.input, input, encodable) {
                    Err(m) => Err(m),
                    Ok(()) => match encoded {
                        Err(error) => Err("hoplite.console/input-not-immutable: "@ + error),
                        Ok(length) => if length > maximum {
                            Err("hoplite.console/input-too-large"@)
                        } else {
                            Ok(())
                        },
                    },
                }
            },
        },
    }
}

impl CommandSet {
    fn find_index(&self, command: &str) -> (r: Option<usize>)
        ensures
            match r {
                Some(i) => i < self.commands@.len() && find_descriptor(self@.descriptors, command@) == Some(
                    self.commands@[i as int]@,
                ),
                None => find_descriptor(self@.descriptors, command@) is None,
            },
    {
        let ghost all = self@.descriptors;
        assert(all.skip(0) =~= all);
        let mut i: usize = 0;
        while i < self.commands.len()
            invariant
                i <= self.commands@.len(),
                all == self@.descriptors,
                all == self.commands@.map_values(|d: CommandDescriptor| d@),
                find_descriptor(all, command@) == find_descriptor(all.skip(i as int), command@),
            decreases self.commands@.len() - i,
        {
            assert(all.skip(i as int).drop_first() =~= all.skip(i + 1));
            assert(all.skip(i as int)[0] == self.commands@[i as int]@);
            if same_text(self.commands[i].command.as_str(), command) {
                return Some(i);
            }
            i = i + 1;
        }
        None
    }

    /// The descriptor of a listed command.
    pub fn descriptor(&self, command: &str) -> (r: Option<&CommandDescriptor>)
        ensures
            match r {
                Some(descriptor) => find_descriptor(self@.descriptors, command@) == Some(descriptor@),
                None => find_descriptor(self@.descriptors, command@) is None,
            },
    {
        match self.find_index(command) {
            Some(i) => Some(&self.commands[i]),
            None => None,
        }
    }

    /// The descriptor values a grant allows, in command-name order.
    pub fn granted_value(&self, grant: &ConsoleGrant) -> (granted: Vec<&HalValue>)
        ensures
            granted@.len() == granted_spec(self@, grant.commands@.to_set(), grant.write).len(),
            forall|i: int|
                0 <= i < granted@.len() ==> *granted@[i] == granted_spec(self@, grant.commands@.to_set(), grant.write)[i],
    {
        let names = self.names.items();
        let ghost commands = grant.commands@.to_set();
        let mut granted: Vec<&HalValue> = Vec::new();
        let mut k: usize = 0;
        while k < names.len()
            invariant
                k <= names@.len(),
                names@.map_values(|s: String| s@) == self@.names,
                commands == grant.commands@.to_set(),
                granted@.len() == granted_prefix(self@, commands, grant.write, k as int).len(),
                forall|i: int|
                    0 <= i < granted@.len() ==> *granted@[i] == granted_prefix(self@, commands, grant.write, k as int)[i],
            decreases names@.len() - k,
        {
            let ghost before = granted_prefix(self@, commands, grant.write, k as int);
            match self.find_index(names[k].as_str()) {
                Some(i) => {
                    let descriptor = &self.commands[i];
                    let allowed = grant.commands.contains(descriptor.command.as_str()) && (
                    descriptor.effect == CommandEffect::Read || grant.write);
                    if allowed {
                        granted.push(&descriptor.raw);
                    }
                },
                None => {},
            }
            k = k + 1;
        }
        granted
    }

    /// Checks that a grant names only listed commands.
    pub fn validate_grant(&self, grant: &ConsoleGrant) -> (r: Result<(), String>)
        ensures
            plain_result(r) == grant_check_spec(self@, grant.commands@),
    {
        let commands = grant.commands.items();
        let mut k: usize = 0;
        while k < commands.len()
            invariant
                k <= commands@.len(),
                commands@.map_values(|s: String| s@) == grant.commands@,
                first_missing(grant.commands@, self@.names.to_set(), 0) == first_missing(
                    grant.commands@,
                    self@.names.to_set(),
                    k as int,
                ),
            decreases commands@.len() - k,
        {
            if !self.names.contains(commands[k].as_str()) {
                return Err(quoted_message("hoplite.console/grant-invalid: unknown command ", commands[k].as_str()));
            }
            k = k + 1;
        }
        Ok(())
    }

    /// Checks a call of `command` with `input` under a grant.
    /// `encodable[i]` says whether the value of the input's `i`-th entry
    /// encodes as immutable HTA, and `encoded` is the input's encoded
    /// length (or the encoder's refusal).
    pub fn validate_call(
        &self,
        grant: &ConsoleGrant,
        command: &str,
        input: &HalValue,
        maximum_input_bytes: usize,
        encodable: &[bool],
        encoded: Result<usize, String>,
    ) -> (r: Result<(), String>)
        ensures
            plain_result(r) == call_spec(
                self@,
                grant.commands@,
                grant.write,
                command@,
                *input,
                maximum_input_bytes,
                encodable@,
                plain_result(encoded),
            ),
    {
        match self.validate_grant(grant) {
            Err(m) => return Err(m),
            Ok(()) => {},
        }
        let descriptor = match self.descriptor(command) {
            Some(descriptor) => descriptor,
            None => return Err(owned("hoplite.console/command-unlisted")),
        };
        if !grant.commands.contains(command) {
            return Err(owned("hoplite.console/command-not-granted"));
        }
        if descriptor.effect == CommandEffect::Write && !grant.write {
            return Err(owned("hoplite.console/write-not-granted"));
        }
        match descriptor.input.validate(input, encodable) {
            Err(m) => return Err(m),
            Ok(()) => {},
        }
        match encoded {
            Err(error) => {
                let mut m = owned("hoplite.console/input-not-immutable: ");
                push_str(&mut m, error.as_str());
                Err(m)
            },
            Ok(length) => if length > maximum_input_bytes {
                Err(owned("hoplite.console/input-too-large"))
            } else {
                Ok(())
            },
        }
    }
}

/// A call that passes validation is for a listed command that the grant
/// names, a write command only under a write grant, with an input that the
/// command's schema accepts and that encodes within the limit.
pub proof fn law_accepted_calls_are_granted(
    set: CommandSetView,
    commands: Seq<Seq<char>>,
    write: bool,
    command: Seq<char>,
    input: HalValue,
    maximum: usize,
    encodable: Seq<bool>,
    encoded: Result<usize, Seq<char>>,
)
    requires
        call_spec(set, commands, write, command, input, maximum, encodable, encoded) is Ok,
    ensures
        find_descriptor(set.descriptors, command) matches Some(descriptor) && {
            &&& commands.contains(command)
            &&& (descriptor.effect == CommandEffect::Write ==> write)
            &&& validate_spec(descriptor.input, input, encodable) is Ok
        },
        encoded matches Ok(length) && length <= maximum,
        forall|i: int| 0 <= i < commands.len() ==> set.names.contains(#[trigger] commands[i]),
{
    assert forall|i: int| 0 <= i < commands.len() implies set.names.contains(#[trigger] commands[i]) by {
        lemma_first_missing_none(commands, set.names.to_set(), 0, i);
    }
}

proof fn lemma_first_missing_none(names: Seq<Seq<char>>, present: Set<Seq<char>>, from: int, i: int)
    requires
        0 <= from <= i < names.len(),
        first_missing(names, present, from) is None,
    ensures
        present.contains(names[i]),
    decreases i - from,
{
    if from < i {
        lemma_first_missing_none(names, present, from + 1, i);
    }
}

/// Everything a console is shown is the descriptor of a listed command
/// that its grant allows: the grant names it, and it is a read command or
/// the grant allows writes.
pub proof fn law_granted_values_are_allowed(set: CommandSetView, commands: Set<Seq<char>>, write: bool, i: int)
    requires
        0 <= i < granted_spec(set, commands, write).len(),
    ensures
        exists|k: int|
            0 <= k < set.names.len() && (find_descriptor(set.descriptors, #[trigger] set.names[k]) matches Some(
                descriptor,
            ) && allows(commands, write, descriptor) && descriptor.raw == granted_spec(set, commands, write)[i]),
{
    lemma_granted_prefix_allowed(set, commands, write, set.names.len() as int, i);
}

proof fn lemma_granted_prefix_allowed(set: CommandSetView, commands: Set<Seq<char>>, write: bool, n: int, i: int)
    requires
        0 <= n <= set.names.len(),
        0 <= i < granted_prefix(set, commands, write, n).len(),
    ensures
        exists|k: int|
            0 <= k < n && (find_descriptor(set.descriptors, #[trigger] set.names[k]) matches Some(descriptor)
                && allows(commands, write, descriptor) && descriptor.raw == granted_prefix(
                set,
                commands,
                write,
                n,
            )[i]),
    decreases n,
{
    let before = granted_prefix(set, commands, write, n - 1);
    if i < before.len() {
        lemma_granted_prefix_allowed(set, commands, write, n - 1, i);
        let k = choose|k: int|
            0 <= k < n - 1 && (find_descriptor(set.descriptors, #[trigger] set.names[k]) matches Some(descriptor)
                && allows(commands, write, descriptor) && descriptor.raw == before[i]);
        assert(granted_prefix(set, commands, write, n)[i] == before[i]);
        assert(0 <= k < n);
    } else {
        let k = n - 1;
        assert(find_descriptor(set.descriptors, set.names[k]) is Some);
    }
}


/// Each value-kind field type accepts exactly the values of its kind:
/// `:boolean` booleans, `:integer` numbers, `:text` strings, `:vector`
/// vectors, `:set` sets and `:map` maps, whatever the value encodes to.
pub proof fn law_field_types_accept_their_kind(value: HalValue, encodable: bool)
    ensures
        accepts_spec(FieldType::Boolean, value, encodable) <==> value is Bool,
        accepts_spec(FieldType::Integer, value, encodable) <==> value is Number,
        accepts_spec(FieldType::Text, value, encodable) <==> value is String,
        accepts_spec(FieldType::Vector, value, encodable) <==> value is Vector,
        accepts_spec(FieldType::Members, value, encodable) <==> value is Members,
        accepts_spec(FieldType::Mapping, value, encodable) <==> value is Mapping,
        accepts_spec(FieldType::Hta, value, encodable) <==> encodable,
{
}

} // verus!
