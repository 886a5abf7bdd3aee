//! The `HAB0` application bundle envelope: a magic marker, a SHA-256
//! checksum of the payload, and a payload binding the runtime ABI, the
//! manifest digest and the embedded `HBX0` bytecode.

use vstd::prelude::*;
use crate::sha::{sha256, sha256_of};
use crate::text::{append_bytes, decimal_chars, owned, push_decimal, push_str, same_bytes};

verus! {

/// Portable document identity for the current pre-release envelope.
pub const FORMAT: &'static str = "hoplite.application-bundle/0-alpha";
/// Four-byte marker for the Hoplite-owned alpha envelope.
pub const MAGIC: [u8; 4] = [72u8, 65u8, 66u8, 48u8];
/// Hara-owned alpha bundle marker required inside the envelope.
pub const HARA_BUNDLE_MAGIC: [u8; 4] = [72u8, 66u8, 88u8, 48u8];
/// Numeric embedding ABI compatibility, independent of format maturity.
pub const RUNTIME_ABI_VERSION: u32 = 5;
pub const MAX_MANIFEST_BYTES: usize = 8 * 1024 * 1024;
pub const MAX_BYTECODE_BYTES: usize = 64 * 1024 * 1024;

const CHECKSUM_BYTES: usize = 32;
const PREFIX_BYTES: usize = 36;
const FIXED_PAYLOAD_BYTES: usize = 40;
pub const MAX_BUNDLE_BYTES: usize = 36 + 40 + 64 * 1024 * 1024;


#[derive(Clone, Debug, PartialEq, Eq)]
pub enum Error {
    EmptyManifest,
    ManifestTooLarge { actual: usize },
    EmptyBytecode,
    BytecodeTooLarge { actual: usize },
    BundleTooSmall { actual: usize },
    BundleTooLarge { actual: usize },
    InvalidMagic,
    ChecksumMismatch,
    RuntimeAbiMismatch { actual: u32 },
    ManifestDigestMismatch,
    InvalidBytecodeMagic,
    Truncated,
    TrailingBytes { actual: usize },
    LengthOverflow,
}

/// The text of a bundle error: its code, and the sizes it concerns.
pub open spec fn error_text(error: Error) -> Seq<char> {
    match error {
        Error::EmptyManifest => "hoplite/application-manifest-empty"@,
        Error::ManifestTooLarge { actual } => "hoplite/application-manifest-too-large: "@ + decimal_chars(
            actual as nat,
        ) + " bytes exceeds "@ + decimal_chars(MAX_MANIFEST_BYTES as nat),
        Error::EmptyBytecode => "hoplite/application-bytecode-empty"@,
        Error::BytecodeTooLarge { actual } => "hoplite/application-bytecode-too-large: "@ + decimal_chars(
            actual as nat,
        ) + " bytes exceeds "@ + decimal_chars(MAX_BYTECODE_BYTES as nat),
        Error::BundleTooSmall { actual } => "hoplite/application-bundle-truncated: "@ + decimal_chars(actual as nat)
            + " bytes"@,
        Error::BundleTooLarge { actual } => "hoplite/application-bundle-too-large: "@ + decimal_chars(
            actual as nat,
        ) + " bytes exceeds "@ + decimal_chars(MAX_BUNDLE_BYTES as nat),
        Error::InvalidMagic => "hoplite/application-bundle-invalid: expected HAB0"@,
        Error::ChecksumMismatch => "hoplite/application-bundle-checksum-mismatch"@,
        Error::RuntimeAbiMismatch { actual } => "hoplite/application-bundle-incompatible: runtime ABI "@
            + decimal_chars(actual as nat) + ", expected "@ + decimal_chars(RUNTIME_ABI_VERSION as nat),
        Error::ManifestDigestMismatch => "hoplite/application-manifest-mismatch"@,
        Error::InvalidBytecodeMagic => "hoplite/application-bytecode-invalid: expected embedded HBX0 bundle"@,
        Error::Truncated => "hoplite/application-bundle-truncated"@,
        Error::TrailingBytes { actual } => "hoplite/application-bundle-trailing-bytes: "@ + decimal_chars(
            actual as nat,
        ),
        Error::LengthOverflow => "hoplite/application-bundle-length-overflow"@,
    }
}

impl Error {
    /// The error's text, as it is shown.
    pub fn message(&self) -> (text: String)
        ensures
            text@ == error_text(*self),
    {
        let mut text = String::new();
        match self {
            Error::EmptyManifest => push_str(&mut text, "hoplite/application-manifest-empty"),
            Error::ManifestTooLarge { actual } => {
                push_str(&mut text, "hoplite/application-manifest-too-large: ");
                push_decimal(&mut text, *actual as u64);
                push_str(&mut text, " bytes exceeds ");
                push_decimal(&mut text, MAX_MANIFEST_BYTES as u64);
            },
            Error::EmptyBytecode => push_str(&mut text, "hoplite/application-bytecode-empty"),
            Error::BytecodeTooLarge { actual } => {
                push_str(&mut text, "hoplite/application-bytecode-too-large: ");
                push_decimal(&mut text, *actual as u64);
                push_str(&mut text, " bytes exceeds ");
                push_decimal(&mut text, MAX_BYTECODE_BYTES as u64);
            },
            Error::BundleTooSmall { actual } => {
                push_str(&mut text, "hoplite/application-bundle-truncated: ");
                push_decimal(&mut text, *actual as u64);
                push_str(&mut text, " bytes");
            },
            Error::BundleTooLarge { actual } => {
                push_str(&mut text, "hoplite/application-bundle-too-large: ");
                push_decimal(&mut text, *actual as u64);
                push_str(&mut text, " bytes exceeds ");
                push_decimal(&mut text, MAX_BUNDLE_BYTES as u64);
            },
            Error::InvalidMagic => push_str(&mut text, "hoplite/application-bundle-invalid: expected HAB0"),
            Error::ChecksumMismatch => push_str(&mut text, "hoplite/application-bundle-checksum-mismatch"),
            Error::RuntimeAbiMismatch { actual } => {
                push_str(&mut text, "hoplite/application-bundle-incompatible: runtime ABI ");
                push_decimal(&mut text, *actual as u64);
                push_str(&mut text, ", expected ");
                push_decimal(&mut text, RUNTIME_ABI_VERSION as u64);
            },
            Error::ManifestDigestMismatch => push_str(&mut text, "hoplite/application-manifest-mismatch"),
            Error::InvalidBytecodeMagic => push_str(
                &mut text,
                "hoplite/application-bytecode-invalid: expected embedded HBX0 bundle",
            ),
            Error::Truncated => push_str(&mut text, "hoplite/application-bundle-truncated"),
            Error::TrailingBytes { actual } => {
                push_str(&mut text, "hoplite/application-bundle-trailing-bytes: ");
                push_decimal(&mut text, *actual as u64);
            },
            Error::LengthOverflow => push_str(&mut text, "hoplite/application-bundle-length-overflow"),
        }
        assert(text@ =~= error_text(*self));
        text
    }
}

/// The four little-endian bytes of a `u32`.
pub open spec fn le_u32_bytes(value: u32) -> Seq<u8> {
    seq![
        (value % 256) as u8,
        (value / 256 % 256) as u8,
        (value / 65536 % 256) as u8,
        (value / 16777216) as u8,
    ]
}

/// The `u32` that four little-endian bytes denote.
pub open spec fn le_u32_value(bytes: Seq<u8>) -> u32 {
    (bytes[0] + 256 * bytes[1] + 65536 * bytes[2] + 16777216 * bytes[3]) as u32
}

pub open spec fn hab0_magic() -> Seq<u8> {
    seq![72u8, 65u8, 66u8, 48u8]
}

pub open spec fn hbx0_magic() -> Seq<u8> {
    seq![72u8, 66u8, 88u8, 48u8]
}

/// Whether a manifest may be bound into a bundle.
pub open spec fn manifest_check(manifest: Seq<u8>) -> Result<(), Error> {
    if manifest.len() == 0 {
        Err(Error::EmptyManifest)
    } else if manifest.len() > MAX_MANIFEST_BYTES {
        Err(Error::ManifestTooLarge { actual: manifest.len() as usize })
    } else {
        Ok(())
    }
}

/// Whether bytecode may be embedded: non-empty, bounded, and an `HBX0`
/// Hara bundle.
pub open spec fn bytecode_check(bytecode: Seq<u8>) -> Result<(), Error> {
    if bytecode.len() == 0 {
        Err(Error::EmptyBytecode)
    } else if bytecode.len() > MAX_BYTECODE_BYTES {
        Err(Error::BytecodeTooLarge { actual: bytecode.len() as usize })
    } else if bytecode.len() < 4 || bytecode.take(4) != hbx0_magic() {
        Err(Error::InvalidBytecodeMagic)
    } else {
        Ok(())
    }
}

/// The payload: runtime ABI, manifest digest, bytecode length and bytecode.
pub open spec fn payload_of(manifest: Seq<u8>, bytecode: Seq<u8>) -> Seq<u8> {
    le_u32_bytes(RUNTIME_ABI_VERSION) + sha256_of(manifest) + le_u32_bytes(bytecode.len() as u32)
        + bytecode
}

/// The bundle: magic, payload checksum, payload.
pub open spec fn bundle_of(manifest: Seq<u8>, bytecode: Seq<u8>) -> Seq<u8> {
    hab0_magic() + sha256_of(payload_of(manifest, bytecode)) + payload_of(manifest, bytecode)
}

/// What encoding yields.
pub open spec fn encode_result(manifest: Seq<u8>, bytecode: Seq<u8>) -> Result<Seq<u8>, Error> {
    if let Err(error) = manifest_check(manifest) {
        Err(error)
    } else if let Err(error) = bytecode_check(bytecode) {
        Err(error)
    } else {
        Ok(bundle_of(manifest, bytecode))
    }
}

/// What decoding a bundle against a manifest yields: the embedded bytecode
/// and the manifest digest, after every check of the envelope in order.
pub open spec fn decode_result(bundle: Seq<u8>, manifest: Seq<u8>) -> Result<(Seq<u8>, Seq<u8>), Error> {
    let payload = bundle.skip(36);
    let length = le_u32_value(payload.subrange(36, 40));
    if let Err(error) = manifest_check(manifest) {
        Err(error)
    } else if bundle.len() < 76 {
        Err(Error::BundleTooSmall { actual: bundle.len() as usize })
    } else if bundle.len() > MAX_BUNDLE_BYTES {
        Err(Error::BundleTooLarge { actual: bundle.len() as usize })
    } else if bundle.take(4) != hab0_magic() {
        Err(Error::InvalidMagic)
    } else if sha256_of(payload) != bundle.subrange(4, 36) {
        Err(Error::ChecksumMismatch)
    } else if le_u32_value(payload.take(4)) != RUNTIME_ABI_VERSION {
        Err(Error::RuntimeAbiMismatch { actual: le_u32_value(payload.take(4)) })
    } else if sha256_of(manifest) != payload.subrange(4, 36) {
        Err(Error::ManifestDigestMismatch)
    } else if length == 0 {
        Err(Error::EmptyBytecode)
    } else if length > MAX_BYTECODE_BYTES {
        Err(Error::BytecodeTooLarge { actual: length as usize })
    } else if payload.len() < 40 + length {
        Err(Error::Truncated)
    } else if payload.len() > 40 + length {
        Err(Error::TrailingBytes { actual: (payload.len() - 40 - length) as usize })
    } else if let Err(error) = bytecode_check(payload.skip(40)) {
        Err(error)
    } else {
        Ok((payload.skip(40), payload.subrange(4, 36)))
    }
}

fn validate_manifest(manifest: &[u8]) -> (r: Result<(), Error>)
    ensures
        r == manifest_check(manifest@),
{
    if manifest.len() == 0 {
        return Err(Error::EmptyManifest);
    }
    if manifest.len() > MAX_MANIFEST_BYTES {
        return Err(Error::ManifestTooLarge { actual: manifest.len() });
    }
    Ok(())
}

fn validate_bytecode(bytecode: &[u8]) -> (r: Result<(), Error>)
    ensures
        r == bytecode_check(bytecode@),
{
    if bytecode.len() == 0 {
        return Err(Error::EmptyBytecode);
    }
    if bytecode.len() > MAX_BYTECODE_BYTES {
        return Err(Error::BytecodeTooLarge { actual: bytecode.len() });
    }
    if bytecode.len() < 4 || bytecode[0] != 72u8 || bytecode[1] != 66u8 || bytecode[2] != 88u8
        || bytecode[3] != 48u8 {
        proof {
            if bytecode@.len() >= 4 {
                let prefix = bytecode@.take(4);
                assert(prefix[0] == bytecode@[0] && prefix[1] == bytecode@[1] && prefix[2]
                    == bytecode@[2] && prefix[3] == bytecode@[3]);
            }
        }
        return Err(Error::InvalidBytecodeMagic);
    }
    assert(bytecode@.take(4) =~= hbx0_magic());
    Ok(())
}

/// Four little-endian bytes of a `u32`.
fn push_le_u32(out: &mut Vec<u8>, value: u32)
    ensures
        final(out)@ == old(out)@ + le_u32_bytes(value),
{
    out.push((value % 256) as u8);
    out.push((value / 256 % 256) as u8);
    out.push((value / 65536 % 256) as u8);
    out.push((value / 16777216) as u8);
    assert(out@ =~= old(out)@ + le_u32_bytes(value));
}

/// The SHA-256 digest of bytes.
fn digest(bytes: &[u8]) -> (out: [u8; 32])
    ensures
        out@ == sha256_of(bytes@),
{
    sha256(bytes)
}

/// Wraps `HBX0` bytecode in the envelope bound to `manifest`.
pub fn encode(manifest: &[u8], bytecode: &[u8]) -> (r: Result<Vec<u8>, Error>)
    ensures
        match r {
            Ok(bundle) => encode_result(manifest@, bytecode@) == Ok::<Seq<u8>, Error>(bundle@)
                && decode_result(bundle@, manifest@) == Ok::<(Seq<u8>, Seq<u8>), Error>(
                (bytecode@, sha256_of(manifest@)),
            ),
            Err(error) => encode_result(manifest@, bytecode@) == Err::<Seq<u8>, Error>(error),
        },
{
    match validate_manifest(manifest) {
        Ok(()) => {},
        Err(error) => return Err(error),
    }
    match validate_bytecode(bytecode) {
        Ok(()) => {},
        Err(error) => return Err(error),
    }
    let length = bytecode.len() as u32;
    let manifest_digest = digest(manifest);
    let mut payload: Vec<u8> = Vec::with_capacity(FIXED_PAYLOAD_BYTES + bytecode.len());
    push_le_u32(&mut payload, RUNTIME_ABI_VERSION);
    append_bytes(&mut payload, manifest_digest.as_slice());
    push_le_u32(&mut payload, length);
    append_bytes(&mut payload, bytecode);
    assert(payload@ =~= payload_of(manifest@, bytecode@));
    let checksum = digest(payload.as_slice());
    let mut bundle: Vec<u8> = Vec::with_capacity(PREFIX_BYTES + payload.len());
    append_bytes(&mut bundle, MAGIC.as_slice());
    append_bytes(&mut bundle, checksum.as_slice());
    append_bytes(&mut bundle, payload.as_slice());
    assert(MAGIC@ =~= hab0_magic());
    assert(bundle@ =~= bundle_of(manifest@, bytecode@));
    proof {
        law_decode_inverts_encode(manifest@, bytecode@);
    }
    Ok(bundle)
}


/// The bytecode and manifest digest of a decoded bundle.
#[derive(Clone, Copy, Debug, PartialEq, Eq)]
pub struct Decoded<'a> {
    bytecode: &'a [u8],
    manifest_digest: [u8; 32],
}

impl<'a> Decoded<'a> {
    pub closed spec fn bytecode_view(self) -> Seq<u8> {
        self.bytecode@
    }

    pub closed spec fn manifest_digest_view(self) -> Seq<u8> {
        self.manifest_digest@
    }

    pub fn bytecode(self) -> (bytecode: &'a [u8])
        ensures
            bytecode@ == self.bytecode_view(),
    {
        self.bytecode
    }

    pub fn manifest_digest(self) -> (digest: [u8; 32])
        ensures
            digest@ == self.manifest_digest_view(),
    {
        self.manifest_digest
    }
}

/// Splits `length` bytes off the front of `input`.
fn take<'a>(input: &mut &'a [u8], length: usize) -> (r: Result<&'a [u8], Error>)
    ensures
        match r {
            Ok(value) => length <= old(input)@.len() && value@ == old(input)@.take(length as int)
                && final(input)@ == old(input)@.skip(length as int),
            Err(error) => length > old(input)@.len() && error == Error::Truncated && final(input)@
                == old(input)@,
        },
{
    if input.len() < length {
        return Err(Error::Truncated);
    }
    let (value, remaining) = input.split_at(length);
    *input = remaining;
    assert(remaining@ =~= old(input)@.skip(length as int));
    assert(value@ =~= old(input)@.take(length as int));
    Ok(value)
}

/// Reads a little-endian `u32` off the front of `input`.
fn take_u32(input: &mut &[u8]) -> (r: Result<u32, Error>)
    ensures
        match r {
            Ok(value) => 4 <= old(input)@.len() && value == le_u32_value(old(input)@.take(4))
                && final(input)@ == old(input)@.skip(4),
            Err(error) => 4 > old(input)@.len() && error == Error::Truncated,
        },
{
    let bytes = match take(input, 4) {
        Ok(bytes) => bytes,
        Err(error) => return Err(error),
    };
    let value = bytes[0] as u32 + 256 * (bytes[1] as u32) + 65536 * (bytes[2] as u32) + 16777216 * (
    bytes[3] as u32);
    Ok(value)
}

fn copy_digest(bytes: &[u8]) -> (out: [u8; 32])
    requires
        bytes@.len() == 32,
    ensures
        out@ == bytes@,
{
    broadcast use vstd::array::group_array_axioms;
    let mut out: [u8; 32] = [0u8; 32];
    let mut i: usize = 0;
    while i < 32
        invariant
            i <= 32,
            bytes@.len() == 32,
            out@.len() == 32,
            forall|j: int| 0 <= j < i ==> out@[j] == bytes@[j],
        decreases 32 - i,
    {
        out[i] = bytes[i];
        i = i + 1;
    }
    assert(out@ =~= bytes@);
    out
}

pub open spec fn decoded_model(r: Result<Decoded, Error>) -> Result<(Seq<u8>, Seq<u8>), Error> {
    match r {
        Ok(decoded) => Ok((decoded.bytecode_view(), decoded.manifest_digest_view())),
        Err(error) => Err(error),
    }
}

/// Opens a bundle bound to `manifest`, exposing the embedded bytecode only
/// after the checksum, runtime ABI, manifest digest and length checks pass.
pub fn decode<'a>(bundle: &'a [u8], manifest: &[u8]) -> (r: Result<Decoded<'a>, Error>)
    ensures
        decoded_model(r) == decode_result(bundle@, manifest@),
        r is Ok ==> bundle@ == bundle_of(manifest@, r.get_Ok_0().bytecode_view())
            && r.get_Ok_0().manifest_digest_view() == sha256_of(manifest@),
{
    match validate_manifest(manifest) {
        Ok(()) => {},
        Err(error) => return Err(error),
    }
    if bundle.len() < PREFIX_BYTES + FIXED_PAYLOAD_BYTES {
        return Err(Error::BundleTooSmall { actual: bundle.len() });
    }
    if bundle.len() > MAX_BUNDLE_BYTES {
        return Err(Error::BundleTooLarge { actual: bundle.len() });
    }
    let ghost whole = bundle@;
    let magic = &bundle[0..4];
    assert(magic@ =~= whole.take(4));
    if !same_bytes(magic, MAGIC.as_slice()) {
        assert(MAGIC@ =~= hab0_magic());
        return Err(Error::InvalidMagic);
    }
    assert(MAGIC@ =~= hab0_magic());
    let expected_checksum = &bundle[4..36];
    let payload = &bundle[36..bundle.len()];
    assert(payload@ =~= whole.skip(36));
    let checksum = digest(payload);
    if !same_bytes(checksum.as_slice(), expected_checksum) {
        return Err(Error::ChecksumMismatch);
    }
    let mut input = payload;
    let runtime_abi = match take_u32(&mut input) {
        Ok(value) => value,
        Err(error) => return Err(error),
    };
    assert(whole.skip(36).take(4) =~= payload@.take(4));
    if runtime_abi != RUNTIME_ABI_VERSION {
        return Err(Error::RuntimeAbiMismatch { actual: runtime_abi });
    }
    let digest_bytes = match take(&mut input, CHECKSUM_BYTES) {
        Ok(value) => value,
        Err(error) => return Err(error),
    };
    assert(digest_bytes@ =~= payload@.subrange(4, 36));
    let manifest_digest = copy_digest(digest_bytes);
    let actual_manifest_digest = digest(manifest);
    if !same_bytes(actual_manifest_digest.as_slice(), manifest_digest.as_slice()) {
        return Err(Error::ManifestDigestMismatch);
    }
    let length_word = match take_u32(&mut input) {
        Ok(value) => value,
        Err(error) => return Err(error),
    };
    assert(payload@.skip(4).skip(32).take(4) =~= payload@.subrange(36, 40));
    assert(input@ =~= payload@.skip(40));
    let bytecode_len = length_word as usize;
    if bytecode_len == 0 {
        return Err(Error::EmptyBytecode);
    }
    if bytecode_len > MAX_BYTECODE_BYTES {
        return Err(Error::BytecodeTooLarge { actual: bytecode_len });
    }
    let bytecode = match take(&mut input, bytecode_len) {
        Ok(value) => value,
        Err(error) => return Err(error),
    };
    if input.len() != 0 {
        return Err(Error::TrailingBytes { actual: input.len() });
    }
    assert(bytecode@ =~= payload@.skip(40));
    match validate_bytecode(bytecode) {
        Ok(()) => {},
        Err(error) => return Err(error),
    }
    let decoded = Decoded { bytecode, manifest_digest };
    proof {
        law_decode_accepts_only_encodings(bundle@, manifest@);
    }
    Ok(decoded)
}


/// Little-endian encoding of a `u32` is read back exactly.
pub proof fn lemma_le_u32_value_of_bytes(value: u32)
    ensures
        le_u32_value(le_u32_bytes(value)) == value,
{
    assert(value % 256 + 256 * (value / 256 % 256) + 65536 * (value / 65536 % 256) + 16777216 * (
    value / 16777216) == value) by (bit_vector);
}

/// Four bytes are the little-endian encoding of the value they denote.
pub proof fn lemma_le_u32_bytes_of_value(bytes: Seq<u8>)
    requires
        bytes.len() == 4,
    ensures
        le_u32_bytes(le_u32_value(bytes)) == bytes,
{
    let c0 = bytes[0] as u32;
    let c1 = bytes[1] as u32;
    let c2 = bytes[2] as u32;
    let c3 = bytes[3] as u32;
    let v = le_u32_value(bytes);
    assert(v == c0 + 256 * c1 + 65536 * c2 + 16777216 * c3);
    assert((c0 + 256 * c1 + 65536 * c2 + 16777216 * c3) % 256 == c0 && (c0 + 256 * c1 + 65536 * c2
        + 16777216 * c3) / 256 % 256 == c1 && (c0 + 256 * c1 + 65536 * c2 + 16777216 * c3) / 65536
        % 256 == c2 && (c0 + 256 * c1 + 65536 * c2 + 16777216 * c3) / 16777216 == c3)
        by (bit_vector)
        requires
            c0 < 256,
            c1 < 256,
            c2 < 256,
            c3 < 256,
    ;
    assert(le_u32_bytes(v) =~= bytes);
}


/// Decoding an encoded bundle against the same manifest gives back exactly
/// the encoded bytecode and the manifest's digest (SHA-256 digests being 32
/// bytes long).
#[verifier::spinoff_prover]
#[verifier::rlimit(40)]
pub proof fn law_decode_inverts_encode(manifest: Seq<u8>, bytecode: Seq<u8>)
    requires
        encode_result(manifest, bytecode) is Ok,
        sha256_of(manifest).len() == 32,
        sha256_of(payload_of(manifest, bytecode)).len() == 32,
    ensures
        decode_result(bundle_of(manifest, bytecode), manifest) == Ok::<(Seq<u8>, Seq<u8>), Error>(
            (bytecode, sha256_of(manifest)),
        ),
{
    let payload = payload_of(manifest, bytecode);
    let bundle = bundle_of(manifest, bytecode);
    lemma_le_u32_value_of_bytes(RUNTIME_ABI_VERSION);
    lemma_le_u32_value_of_bytes(bytecode.len() as u32);
    assert(bundle.skip(36) =~= payload);
    assert(bundle.take(4) =~= hab0_magic());
    assert(bundle.subrange(4, 36) =~= sha256_of(payload));
    assert(payload.take(4) =~= le_u32_bytes(RUNTIME_ABI_VERSION));
    assert(payload.subrange(4, 36) =~= sha256_of(manifest));
    assert(payload.subrange(36, 40) =~= le_u32_bytes(bytecode.len() as u32));
    assert(payload.skip(40) =~= bytecode);
}

/// A bundle that decodes against a manifest is exactly the encoding of the
/// bytecode it exposes under that manifest: nothing else is accepted.
pub proof fn law_decode_accepts_only_encodings(bundle: Seq<u8>, manifest: Seq<u8>)
    requires
        decode_result(bundle, manifest) is Ok,
    ensures
        ({
            let (bytecode, digest) = decode_result(bundle, manifest).get_Ok_0();
            &&& digest == sha256_of(manifest)
            &&& bundle == bundle_of(manifest, bytecode)
            &&& encode_result(manifest, bytecode) == Ok::<Seq<u8>, Error>(bundle)
        }),
{
    let payload = bundle.skip(36);
    let bytecode = payload.skip(40);
    lemma_le_u32_bytes_of_value(payload.take(4));
    lemma_le_u32_bytes_of_value(payload.subrange(36, 40));
    assert(payload =~= le_u32_bytes(RUNTIME_ABI_VERSION) + sha256_of(manifest) + le_u32_bytes(
        bytecode.len() as u32,
    ) + bytecode);
    assert(bundle =~= bundle.take(4) + bundle.subrange(4, 36) + payload);
}

// ---------------------------------------------------------------------------
// Bounded file reads
// ---------------------------------------------------------------------------

/// The kind of an I/O failure, as inspection reports name it.
#[derive(Clone, Copy, Debug, PartialEq, Eq, Structural)]
pub enum IoKind {
    NotFound,
    PermissionDenied,
    AlreadyExists,
    InvalidInput,
    InvalidData,
    TimedOut,
    Interrupted,
    UnexpectedEof,
    Other,
}

impl IoKind {
    /// The kind's name: `not-found`, `permission-denied` and so on, and
    /// `io-error` for any other.
    pub fn name(self) -> (name: &'static str)
        ensures
            name@ == io_kind_name(self),
    {
        match self {
            IoKind::NotFound => "not-found",
            IoKind::PermissionDenied => "permission-denied",
            IoKind::AlreadyExists => "already-exists",
            IoKind::InvalidInput => "invalid-input",
            IoKind::InvalidData => "invalid-data",
            IoKind::TimedOut => "timed-out",
            IoKind::Interrupted => "interrupted",
            IoKind::UnexpectedEof => "unexpected-eof",
            IoKind::Other => "io-error",
        }
    }
}

pub open spec fn io_kind_name(kind: IoKind) -> Seq<char> {
    match kind {
        IoKind::NotFound => "not-found"@,
        IoKind::PermissionDenied => "permission-denied"@,
        IoKind::AlreadyExists => "already-exists"@,
        IoKind::InvalidInput => "invalid-input"@,
        IoKind::InvalidData => "invalid-data"@,
        IoKind::TimedOut => "timed-out"@,
        IoKind::Interrupted => "interrupted"@,
        IoKind::UnexpectedEof => "unexpected-eof"@,
        IoKind::Other => "io-error"@,
    }
}

/// An I/O failure: its kind and its message.
#[derive(Debug)]
pub struct IoFailure {
    pub kind: IoKind,
    pub message: String,
}

/// Why a bounded file could not be read.
#[derive(Debug)]
pub enum FileError {
    Io { class: &'static str, operation: &'static str, path: String, source: IoFailure },
    NotRegular { class: &'static str, path: String },
    TooLarge { class: &'static str, path: String, actual: u64, maximum: usize },
    Changed { class: &'static str, path: String, expected: u64, actual: usize },
}

/// The message of a file error.
pub open spec fn file_error_text(error: FileError) -> Seq<char> {
    match error {
        FileError::Io { class, operation, path, source } => "hoplite/"@ + class@ + "-file-"@ + operation@ + ": "@
            + path@ + ": "@ + source.message@,
        FileError::NotRegular { class, path } => "hoplite/"@ + class@ + "-file-not-regular: "@ + path@,
        FileError::TooLarge { class, path, actual, maximum } => "hoplite/"@ + class@ + "-file-too-large: "@ + path@
            + " is "@ + decimal_chars(actual as nat) + " bytes; maximum is "@ + decimal_chars(maximum as nat),
        FileError::Changed { class, path, expected, actual } => "hoplite/"@ + class@ + "-file-changed: "@ + path@
            + " was "@ + decimal_chars(expected as nat) + " bytes and read as "@ + decimal_chars(actual as nat),
    }
}

/// The same error with its path and I/O message left out, as inspection
/// reports it.
pub open spec fn redacted_text(error: FileError) -> Seq<char> {
    match error {
        FileError::Io { class, operation, source, .. } => "hoplite/"@ + class@ + "-file-"@ + operation@ + ": "@
            + io_kind_name(source.kind),
        FileError::NotRegular { class, .. } => "hoplite/"@ + class@ + "-file-not-regular"@,
        FileError::TooLarge { class, actual, maximum, .. } => "hoplite/"@ + class@ + "-file-too-large: "@
            + decimal_chars(actual as nat) + " bytes exceeds "@ + decimal_chars(maximum as nat),
        FileError::Changed { class, expected, actual, .. } => "hoplite/"@ + class@ + "-file-changed: expected "@
            + decimal_chars(expected as nat) + " bytes, read "@ + decimal_chars(actual as nat),
    }
}

impl FileError {
    /// The error's message.
    pub fn message(&self) -> (text: String)
        ensures
            text@ == file_error_text(*self),
    {
        let mut text = owned("hoplite/");
        match self {
            FileError::Io { class, operation, path, source } => {
                push_str(&mut text, class);
                push_str(&mut text, "-file-");
                push_str(&mut text, operation);
                push_str(&mut text, ": ");
                push_str(&mut text, path.as_str());
                push_str(&mut text, ": ");
                push_str(&mut text, source.message.as_str());
            },
            FileError::NotRegular { class, path } => {
                push_str(&mut text, class);
                push_str(&mut text, "-file-not-regular: ");
                push_str(&mut text, path.as_str());
            },
            FileError::TooLarge { class, path, actual, maximum } => {
                push_str(&mut text, class);
                push_str(&mut text, "-file-too-large: ");
                push_str(&mut text, path.as_str());
                push_str(&mut text, " is ");
                push_decimal(&mut text, *actual);
                push_str(&mut text, " bytes; maximum is ");
                push_decimal(&mut text, *maximum as u64);
            },
            FileError::Changed { class, path, expected, actual } => {
                push_str(&mut text, class);
                push_str(&mut text, "-file-changed: ");
                push_str(&mut text, path.as_str());
                push_str(&mut text, " was ");
                push_decimal(&mut text, *expected);
                push_str(&mut text, " bytes and read as ");
                push_decimal(&mut text, *actual as u64);
            },
        }
        text
    }

    /// The error's message without its path or I/O message.
    pub fn redacted(&self) -> (text: String)
        ensures
            text@ == redacted_text(*self),
    {
        let mut text = owned("hoplite/");
        match self {
            FileError::Io { class, operation, source, .. } => {
                push_str(&mut text, class);
                push_str(&mut text, "-file-");
                push_str(&mut text, operation);
                push_str(&mut text, ": ");
                push_str(&mut text, source.kind.name());
            },
            FileError::NotRegular { class, .. } => {
                push_str(&mut text, class);
                push_str(&mut text, "-file-not-regular");
            },
            FileError::TooLarge { class, actual, maximum, .. } => {
                push_str(&mut text, class);
                push_str(&mut text, "-file-too-large: ");
                push_decimal(&mut text, *actual);
                push_str(&mut text, " bytes exceeds ");
                push_decimal(&mut text, *maximum as u64);
            },
            FileError::Changed { class, expected, actual, .. } => {
                push_str(&mut text, class);
                push_str(&mut text, "-file-changed: expected ");
                push_decimal(&mut text, *expected);
                push_str(&mut text, " bytes, read ");
                push_decimal(&mut text, *actual as u64);
            },
        }
        text
    }
}

/// The class of the application bundle file.
pub const BUNDLE_FILE_CLASS: &'static str = "application-bundle";

/// The class of the application manifest file.
pub const MANIFEST_FILE_CLASS: &'static str = "application-manifest";

/// What opening a file found: whether it is a regular file, and its length.
pub struct FileMetadata {
    pub is_file: bool,
    pub length: u64,
}

/// The first decision of a bounded read, once the file is open: refuse a
/// file that is not regular or is longer than `maximum`; else the length to
/// expect.
pub fn check_bounded_metadata(path: &str, class: &'static str, maximum: usize, metadata: Result<FileMetadata, IoFailure>) -> (r: Result<u64, FileError>)
    ensures
        match metadata {
            Err(failure) => r matches Err(FileError::Io { class: c, operation, path: p, source })
                && c == class && operation@ == "metadata"@ && p@ == path@ && source == failure,
            Ok(m) => if !m.is_file {
                r matches Err(FileError::NotRegular { class: c, path: p }) && c == class && p@ == path@
            } else if m.length > maximum {
                r matches Err(FileError::TooLarge { class: c, path: p, actual, maximum: most }) && c == class && p@
                    == path@ && actual == m.length && most == maximum
            } else {
                r == Ok::<u64, FileError>(m.length)
            },
        },
{
    match metadata {
        Err(failure) => Err(FileError::Io { class, operation: "metadata", path: owned(path), source: failure }),
        Ok(m) => {
            if !m.is_file {
                Err(FileError::NotRegular { class, path: owned(path) })
            } else if m.length > maximum as u64 {
                Err(FileError::TooLarge { class, path: owned(path), actual: m.length, maximum })
            } else {
                Ok(m.length)
            }
        },
    }
}

/// The last decision of a bounded read: refuse a read longer than
/// `maximum` or of another length than the file had; else the bytes.
pub fn check_bounded_read(path: &str, class: &'static str, maximum: usize, expected: u64, read: Result<Vec<u8>, IoFailure>) -> (r: Result<Vec<u8>, FileError>)
    ensures
        match read {
            Err(failure) => r matches Err(FileError::Io { class: c, operation, path: p, source })
                && c == class && operation@ == "read"@ && p@ == path@ && source == failure,
            Ok(bytes) => if bytes@.len() > maximum {
                r matches Err(FileError::TooLarge { class: c, path: p, actual, maximum: most }) && c == class && p@
                    == path@ && actual == bytes@.len() && most == maximum
            } else if bytes@.len() != expected {
                r matches Err(FileError::Changed { class: c, path: p, expected: e, actual }) && c == class && p@
                    == path@ && e == expected && actual == bytes@.len()
            } else {
                r matches Ok(b) && b@ == bytes@
            },
        },
{
    match read {
        Err(failure) => Err(FileError::Io { class, operation: "read", path: owned(path), source: failure }),
        Ok(bytes) => {
            if bytes.len() > maximum {
                Err(FileError::TooLarge { class, path: owned(path), actual: bytes.len() as u64, maximum })
            } else if bytes.len() as u64 != expected {
                Err(FileError::Changed { class, path: owned(path), expected, actual: bytes.len() })
            } else {
                Ok(bytes)
            }
        },
    }
}

/// An open failure, as a file error.
pub fn open_failure(path: &str, class: &'static str, failure: IoFailure) -> (error: FileError)
    ensures
        error matches FileError::Io { class: c, operation, path: p, source } && c == class && operation@ == "open"@
            && p@ == path@ && source == failure,
{
    FileError::Io { class, operation: "open", path: owned(path), source: failure }
}

} // verus!
