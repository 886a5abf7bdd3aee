//! Opaque canonical-value storage: bounded canonical byte spans, digest
//! verification, initialization, revision compare-and-swap, atomic
//! value-and-receipt publication and exact replay.

use vstd::prelude::*;
use vstd::string::*;
use crate::hex::{is_lower_hex_digit, lower_hex_chars, lower_hex_digit_value, lower_hex_value, push_lower_hex};
use crate::text::{decimal_chars, push_char, push_decimal, push_str, same_bytes};
use crate::sha::{sha256, sha256_of};

verus! {

pub const SERVICE: &'static str = "hara.store";
pub const REQUEST_PROTOCOL: &'static str = "hara.store-request/1";
pub const RESULT_PROTOCOL: &'static str = "hara.store-result/1";
/// Revisions are bounded by the signed 64-bit storage boundary.
pub const MAX_REVISION: u64 = 0x7fff_ffff_ffff_ffff;

/// A SHA-256 digest.
#[derive(Clone, Copy, Debug, PartialOrd, Ord, Hash)]
pub struct Digest([u8; 32]);

impl View for Digest {
    type V = Seq<u8>;

    closed spec fn view(&self) -> Seq<u8> {
        self.0@
    }
}

impl PartialEq for Digest {
    fn eq(&self, other: &Self) -> (r: bool) {
        broadcast use vstd::array::group_array_axioms;
        let mut i: usize = 0;
        while i < 32
            invariant
                i <= 32,
                self.0@.len() == 32,
                other.0@.len() == 32,
                forall|j: int| 0 <= j < i ==> self.0@[j] == other.0@[j],
            decreases 32 - i,
        {
            if self.0[i] != other.0[i] {
                return false;
            }
            i = i + 1;
        }
        assert(self.0@ =~= other.0@);
        true
    }
}

impl Eq for Digest {
}

impl vstd::std_specs::cmp::PartialEqSpecImpl for Digest {
    open spec fn obeys_eq_spec() -> bool {
        true
    }

    open spec fn eq_spec(&self, other: &Self) -> bool {
        self@ == other@
    }
}

/// Two digests are equal exactly when their bytes are.
pub proof fn lemma_digest_view_injective(a: Digest, b: Digest)
    ensures
        (a@ == b@) == (a == b),
{
    broadcast use vstd::array::group_array_axioms;
    if a@ == b@ {
        assert(a.0 =~= b.0);
    }
}

/// The bytes of `sha256:`.
pub open spec fn digest_prefix_bytes() -> Seq<u8> {
    seq![115u8, 104u8, 97u8, 50u8, 53u8, 54u8, 58u8]
}

/// The characters of `sha256:`.
pub open spec fn digest_prefix_chars() -> Seq<char> {
    seq!['s', 'h', 'a', '2', '5', '6', ':']
}

/// Canonical text of a digest: `sha256:` and 64 lowercase hexadecimal digits.
pub open spec fn digest_text(digest: Seq<u8>) -> Seq<char> {
    digest_prefix_chars() + lower_hex_chars(digest)
}

/// The digest that canonical digest text denotes, if the (UTF-8) text is
/// exactly `sha256:` followed by 64 lowercase hexadecimal digits.
pub open spec fn parse_digest_text(text: Seq<u8>) -> Option<Seq<u8>> {
    if text.len() == 71 && text.take(7) == digest_prefix_bytes() && (forall|i: int|
        7 <= i < 71 ==> is_lower_hex_digit(#[trigger] text[i])) {
        Some(
            Seq::new(
                32,
                |i: int| (lower_hex_value(text[7 + 2 * i]) * 16 + lower_hex_value(text[8 + 2 * i])) as u8,
            ),
        )
    } else {
        None
    }
}

impl Digest {
    pub fn from_bytes(bytes: [u8; 32]) -> (digest: Self)
        ensures
            digest@ == bytes@,
    {
        Digest(bytes)
    }

    pub fn bytes(&self) -> (bytes: &[u8; 32])
        ensures
            bytes@ == self@,
    {
        &self.0
    }

    /// Parses `sha256:<64 lowercase hex digits>`.
    pub fn parse(value: &str) -> (r: Result<Self, StoreError>)
        ensures
            match r {
                Ok(digest) => parse_digest_text(value.spec_bytes()) == Some(digest@),
                Err(error) => parse_digest_text(value.spec_bytes()) is None && error
                    == StoreError::InvalidDigest,
            },
    {
        broadcast use vstd::array::group_array_axioms;
        let text = value.as_bytes();
        if text.len() != 71 {
            return Err(StoreError::InvalidDigest);
        }
        let prefix: [u8; 7] = [115u8, 104u8, 97u8, 50u8, 53u8, 54u8, 58u8];
        let mut i: usize = 0;
        while i < 7
            invariant
                i <= 7,
                text@.len() == 71,
                text@ == value.spec_bytes(),
                prefix@ == digest_prefix_bytes(),
                forall|j: int| 0 <= j < i ==> text@[j] == prefix@[j],
            decreases 7 - i,
        {
            if text[i] != prefix[i] {
                assert(text@.take(7)[i as int] != digest_prefix_bytes()[i as int]);
                return Err(StoreError::InvalidDigest);
            }
            i = i + 1;
        }
        assert(text@.take(7) =~= digest_prefix_bytes());
        let mut bytes: [u8; 32] = [0u8; 32];
        let mut index: usize = 0;
        while index < 32
            invariant
                index <= 32,
                text@.len() == 71,
                text@ == value.spec_bytes(),
                text@.take(7) == digest_prefix_bytes(),
                bytes@.len() == 32,
                forall|j: int| 7 <= j < 7 + 2 * index ==> is_lower_hex_digit(#[trigger] text@[j]),
                forall|j: int|
                    0 <= j < index ==> bytes@[j] == (lower_hex_value(text@[7 + 2 * j]) * 16
                        + lower_hex_value(text@[8 + 2 * j])) as u8,
            decreases 32 - index,
        {
            let high = match lower_hex_digit_value(text[7 + index * 2]) {
                Some(v) => v,
                None => {
                    assert(!is_lower_hex_digit(text@[7 + 2 * index]));
                    return Err(StoreError::InvalidDigest);
                },
            };
            let low = match lower_hex_digit_value(text[8 + index * 2]) {
                Some(v) => v,
                None => {
                    assert(!is_lower_hex_digit(text@[8 + 2 * index]));
                    return Err(StoreError::InvalidDigest);
                },
            };
            bytes[index] = high * 16 + low;
            index = index + 1;
        }
        let digest = Digest(bytes);
        assert(digest@ =~= parse_digest_text(value.spec_bytes()).unwrap());
        Ok(digest)
    }

    /// Canonical text form `sha256:<64 lowercase hex digits>`.
    pub fn to_string(&self) -> (text: String)
        ensures
            text@ == digest_text(self@),
    {
        let mut text = String::new();
        push_char(&mut text, 's');
        push_char(&mut text, 'h');
        push_char(&mut text, 'a');
        push_char(&mut text, '2');
        push_char(&mut text, '5');
        push_char(&mut text, '6');
        push_char(&mut text, ':');
        assert(text@ =~= digest_prefix_chars());
        push_lower_hex(&mut text, self.0.as_slice());
        text
    }
}

impl core::str::FromStr for Digest {
    type Err = StoreError;

    fn from_str(value: &str) -> Result<Self, Self::Err> {
        Self::parse(value)
    }
}

/// A digest's canonical text is ASCII, 71 characters long.
proof fn lemma_digest_text_ascii(digest: Digest)
    ensures
        digest@.len() == 32,
        digest_text(digest@).len() == 71,
        vstd::utf8::is_ascii_chars(digest_text(digest@)),
{
    broadcast use vstd::array::group_array_axioms;
    let t = digest_text(digest@);
    assert forall|i: int| 0 <= i < t.len() implies '\0' <= #[trigger] t[i] <= '\u{7f}' by {
        if i >= 7 {
            let b = digest@[(i - 7) / 2];
            assert(b / 16 < 16 && b % 16 < 16);
        }
    }
}

/// Reading back the canonical text of a digest, as UTF-8, gives the digest
/// again: `Digest::parse(&d.to_string())` is `Ok(d)`.
pub proof fn law_digest_text_round_trip(digest: Digest)
    ensures
        digest_text(digest@).len() == 71,
        parse_digest_text(vstd::utf8::encode_utf8(digest_text(digest@))) == Some(digest@),
{
    lemma_digest_text_ascii(digest);
    let t = digest_text(digest@);
    let text = vstd::utf8::encode_utf8(t);
    vstd::utf8::is_ascii_chars_encode_utf8(t);
    assert(text.len() == 71);
    assert forall|i: int| 0 <= i < 7 implies text.take(7)[i] == digest_prefix_bytes()[i] by {
        assert(text[i] == t[i] as u8);
    }
    assert(text.take(7) =~= digest_prefix_bytes());
    assert forall|i: int| 7 <= i < 71 implies is_lower_hex_digit(#[trigger] text[i]) by {
        assert(text[i] == t[i] as u8);
        let b = digest@[(i - 7) / 2];
        assert(b / 16 < 16 && b % 16 < 16);
    }
    let parsed = Seq::new(
        32,
        |i: int| (lower_hex_value(text[7 + 2 * i]) * 16 + lower_hex_value(text[8 + 2 * i])) as u8,
    );
    assert forall|i: int| 0 <= i < 32 implies parsed[i] == digest@[i] by {
        assert(text[7 + 2 * i] == t[7 + 2 * i] as u8);
        assert(text[8 + 2 * i] == t[8 + 2 * i] as u8);
        let b = digest@[i];
        assert((7 + 2 * i - 7) / 2 == i);
        assert((8 + 2 * i - 7) / 2 == i);
        assert(lower_hex_value(text[7 + 2 * i]) == b / 16);
        assert(lower_hex_value(text[8 + 2 * i]) == b % 16);
    }
    assert(parsed =~= digest@);
}

/// The value of one lowercase hexadecimal digit of a digest.
fn decode_lower_hex(byte: u8) -> (r: Result<u8, StoreError>)
    ensures
        match r {
            Ok(v) => is_lower_hex_digit(byte) && v == lower_hex_value(byte),
            Err(error) => !is_lower_hex_digit(byte) && error == StoreError::InvalidDigest,
        },
{
    match lower_hex_digit_value(byte) {
        Some(v) => Ok(v),
        None => Err(StoreError::InvalidDigest),
    }
}

/// Computes the SHA-256 digest of canonical bytes. Implementations are
/// expected to compute SHA-256; the store does not assume it and checks
/// every outcome.
pub trait DigestVerifier {
    /// The digest this verifier computes over canonical bytes: SHA-256
    /// unless an implementation states otherwise.
    open spec fn spec_sha256(&self, canonical_bytes: Seq<u8>) -> Seq<u8> {
        sha256_of(canonical_bytes)
    }

    fn sha256(&self, canonical_bytes: &[u8]) -> (digest: [u8; 32])
        ensures
            digest@ == self.spec_sha256(canonical_bytes@),
    ;
}

/// The SHA-256 verifier backed by the `sha2` crate.
#[derive(Clone, Copy, Debug, Default)]
pub struct Sha256Verifier;

impl DigestVerifier for Sha256Verifier {
    open spec fn spec_sha256(&self, canonical_bytes: Seq<u8>) -> Seq<u8> {
        sha256_of(canonical_bytes)
    }

    fn sha256(&self, canonical_bytes: &[u8]) -> (digest: [u8; 32])
        ensures
            digest@ == sha256_of(canonical_bytes@),
    {
        sha256(canonical_bytes)
    }
}

#[derive(Clone, Copy, Debug, PartialEq, Eq)]
pub enum FaultPoint {
    BeforeCommit,
    AfterCommit,
}

#[derive(Clone, Copy, Debug, PartialEq, Eq)]
pub enum SpanKind {
    Value,
    Receipt,
}

#[derive(Clone, Debug, PartialEq, Eq)]
pub enum StoreError {
    InvalidLimits(&'static str),
    InvalidDigest,
    EmptySpan(SpanKind),
    SpanLimitExceeded { kind: SpanKind, limit: usize, actual: usize },
    DigestMismatch { claimed: Digest, actual: Digest },
    RevisionOutOfRange { revision: u64 },
    InvalidRevisionStep { expected: u64, revision: u64 },
    AlreadyInitialized { current_revision: u64 },
    Uninitialized,
    StaleRevision { expected: u64, actual: u64 },
    ReceiptCollision { receipt_key: Digest },
    FaultAlreadyPending { fault: FaultPoint },
    InjectedFault { fault: FaultPoint },
    Poisoned,
}


#[derive(Clone, Copy, Debug, PartialEq, Eq)]
pub struct StoreLimits {
    pub max_value_bytes: usize,
    pub max_receipt_bytes: usize,
}

/// Whether both limits are positive.
pub open spec fn limits_valid(limits: StoreLimits) -> bool {
    limits.max_value_bytes > 0 && limits.max_receipt_bytes > 0
}

/// The error that invalid limits produce.
pub open spec fn limits_error(limits: StoreLimits) -> StoreError {
    if limits.max_value_bytes == 0 {
        StoreError::InvalidLimits("max_value_bytes must be positive")
    } else {
        StoreError::InvalidLimits("max_receipt_bytes must be positive")
    }
}

impl StoreLimits {
    pub fn new(max_value_bytes: usize, max_receipt_bytes: usize) -> (limits: Self)
        ensures
            limits.max_value_bytes == max_value_bytes,
            limits.max_receipt_bytes == max_receipt_bytes,
    {
        Self { max_value_bytes, max_receipt_bytes }
    }

    /// Both limits must be positive.
    pub fn validate(self) -> (r: Result<Self, StoreError>)
        ensures
            limits_valid(self) ==> r == Ok::<Self, StoreError>(self),
            !limits_valid(self) ==> r == Err::<Self, StoreError>(limits_error(self)),
    {
        if self.max_value_bytes == 0 {
            return Err(StoreError::InvalidLimits("max_value_bytes must be positive"));
        }
        if self.max_receipt_bytes == 0 {
            return Err(StoreError::InvalidLimits("max_receipt_bytes must be positive"));
        }
        Ok(self)
    }
}

impl Default for StoreLimits {
    fn default() -> (limits: Self)
        ensures
            limits.max_value_bytes == 16 * 1024 * 1024,
            limits.max_receipt_bytes == 1024 * 1024,
    {
        Self::new(16 * 1024 * 1024, 1024 * 1024)
    }
}

/// The outcome of checking a canonical span against its limit.
pub open spec fn span_check(kind: SpanKind, bytes: Seq<u8>, limit: usize) -> Result<(), StoreError> {
    if bytes.len() == 0 {
        Err(StoreError::EmptySpan(kind))
    } else if bytes.len() > limit {
        Err(StoreError::SpanLimitExceeded { kind, limit, actual: bytes.len() as usize })
    } else {
        Ok(())
    }
}

fn validate_span(kind: SpanKind, bytes: &[u8], limit: usize) -> (r: Result<(), StoreError>)
    ensures
        r == span_check(kind, bytes@, limit),
{
    if bytes.len() == 0 {
        return Err(StoreError::EmptySpan(kind));
    }
    if bytes.len() > limit {
        return Err(StoreError::SpanLimitExceeded { kind, limit, actual: bytes.len() });
    }
    Ok(())
}

/// The outcome of checking a revision against the storage boundary.
pub open spec fn revision_check(revision: u64) -> Result<(), StoreError> {
    if revision > MAX_REVISION {
        Err(StoreError::RevisionOutOfRange { revision })
    } else {
        Ok(())
    }
}

fn validate_revision(revision: u64) -> (r: Result<(), StoreError>)
    ensures
        r == revision_check(revision),
{
    if revision > MAX_REVISION {
        return Err(StoreError::RevisionOutOfRange { revision });
    }
    Ok(())
}

/// Canonical bytes together with the digest they were verified against.
pub struct ValueModel {
    pub bytes: Seq<u8>,
    pub digest: Digest,
}

/// A verified canonical value.
#[derive(Clone, Debug, PartialEq, Eq)]
pub struct CanonicalValue {
    bytes: Vec<u8>,
    digest: Digest,
}

impl View for CanonicalValue {
    type V = ValueModel;

    closed spec fn view(&self) -> ValueModel {
        ValueModel { bytes: self.bytes@, digest: self.digest }
    }
}

/// What verifying canonical bytes against a claimed digest yields, given the
/// digest that was actually computed over them.
pub open spec fn value_check(
    bytes: Seq<u8>,
    claimed: Digest,
    actual: Digest,
    limits: StoreLimits,
) -> Result<ValueModel, StoreError> {
    if !limits_valid(limits) {
        Err(limits_error(limits))
    } else if let Err(error) = span_check(SpanKind::Value, bytes, limits.max_value_bytes) {
        Err(error)
    } else if actual != claimed {
        Err(StoreError::DigestMismatch { claimed, actual })
    } else {
        Ok(ValueModel { bytes, digest: claimed })
    }
}

/// Whether the limits are valid and the bytes fit the value span, so that
/// the outcome rests on the computed digest.
pub open spec fn value_admissible(bytes: Seq<u8>, limits: StoreLimits) -> bool {
    limits_valid(limits) && span_check(SpanKind::Value, bytes, limits.max_value_bytes) is Ok
}

/// The model of a verification result.
pub open spec fn value_result_model(r: Result<CanonicalValue, StoreError>) -> Result<ValueModel, StoreError> {
    match r {
        Ok(value) => Ok(value@),
        Err(error) => Err(error),
    }
}

impl CanonicalValue {
    /// Verifies canonical bytes against a claimed digest using the digest
    /// computed by `verifier`. Limits and span bounds are checked before the
    /// digest is computed; only admissible bytes are handed to the verifier,
    /// and its digest of them decides between the value and a mismatch.
    pub fn verify(
        bytes: Vec<u8>,
        claimed_digest: Digest,
        verifier: &impl DigestVerifier,
        limits: StoreLimits,
    ) -> (r: Result<Self, StoreError>)
        ensures
            !value_admissible(bytes@, limits) ==> value_result_model(r) == value_check(
                bytes@,
                claimed_digest,
                claimed_digest,
                limits,
            ),
            value_admissible(bytes@, limits) ==> exists|actual: Digest|
                actual@ == verifier.spec_sha256(bytes@) && value_result_model(r) == value_check(
                    bytes@,
                    claimed_digest,
                    actual,
                    limits,
                ),
    {
        if limits.validate().is_err() || validate_span(SpanKind::Value, bytes.as_slice(), limits.max_value_bytes).is_err() {
            let r = Self::verify_computed(bytes, claimed_digest, claimed_digest, limits);
            return r;
        }
        let actual = Digest::from_bytes(verifier.sha256(bytes.as_slice()));
        Self::verify_computed(bytes, claimed_digest, actual, limits)
    }

    /// Verifies canonical bytes against a claimed digest, given the digest
    /// computed over them.
    pub fn verify_computed(
        bytes: Vec<u8>,
        claimed_digest: Digest,
        actual_digest: Digest,
        limits: StoreLimits,
    ) -> (r: Result<Self, StoreError>)
        ensures
            value_result_model(r) == value_check(bytes@, claimed_digest, actual_digest, limits),
    {
        proof {
            lemma_digest_view_injective(actual_digest, claimed_digest);
        }
        let limits = match limits.validate() {
            Ok(limits) => limits,
            Err(error) => return Err(error),
        };
        match validate_span(SpanKind::Value, bytes.as_slice(), limits.max_value_bytes) {
            Ok(()) => {},
            Err(error) => return Err(error),
        }
        if actual_digest != claimed_digest {
            return Err(StoreError::DigestMismatch { claimed: claimed_digest, actual: actual_digest });
        }
        Ok(Self { bytes, digest: claimed_digest })
    }

    pub fn bytes(&self) -> (bytes: &[u8])
        ensures
            bytes@ == self@.bytes,
    {
        self.bytes.as_slice()
    }

    pub fn digest(&self) -> (digest: Digest)
        ensures
            digest == self@.digest,
    {
        self.digest
    }

    fn duplicate(&self) -> (copy: Self)
        ensures
            copy@ == self@,
    {
        Self { bytes: vstd::slice::slice_to_vec(self.bytes.as_slice()), digest: self.digest }
    }

    fn same_as(&self, other: &Self) -> (same: bool)
        ensures
            same == (self@ == other@),
    {
        proof {
            lemma_digest_view_injective(self.digest, other.digest);
        }
        same_bytes(self.bytes.as_slice(), other.bytes.as_slice()) && self.digest == other.digest
    }
}

/// Opaque receipt bytes, bounded by the receipt limit.
#[derive(Clone, Debug, PartialEq, Eq)]
pub struct OpaqueReceipt {
    bytes: Vec<u8>,
}

impl View for OpaqueReceipt {
    type V = Seq<u8>;

    closed spec fn view(&self) -> Seq<u8> {
        self.bytes@
    }
}

/// What wrapping receipt bytes yields.
pub open spec fn receipt_check(bytes: Seq<u8>, limits: StoreLimits) -> Result<Seq<u8>, StoreError> {
    if !limits_valid(limits) {
        Err(limits_error(limits))
    } else if let Err(error) = span_check(SpanKind::Receipt, bytes, limits.max_receipt_bytes) {
        Err(error)
    } else {
        Ok(bytes)
    }
}

impl OpaqueReceipt {
    pub fn new(bytes: Vec<u8>, limits: StoreLimits) -> (r: Result<Self, StoreError>)
        ensures
            match r {
                Ok(receipt) => receipt_check(bytes@, limits) == Ok::<Seq<u8>, StoreError>(receipt@),
                Err(error) => receipt_check(bytes@, limits) == Err::<Seq<u8>, StoreError>(error),
            },
    {
        let limits = match limits.validate() {
            Ok(limits) => limits,
            Err(error) => return Err(error),
        };
        match validate_span(SpanKind::Receipt, bytes.as_slice(), limits.max_receipt_bytes) {
            Ok(()) => {},
            Err(error) => return Err(error),
        }
        Ok(Self { bytes })
    }

    pub fn bytes(&self) -> (bytes: &[u8])
        ensures
            bytes@ == self@,
    {
        self.bytes.as_slice()
    }

    fn duplicate(&self) -> (copy: Self)
        ensures
            copy@ == self@,
    {
        Self { bytes: vstd::slice::slice_to_vec(self.bytes.as_slice()) }
    }
}


/// A revisioned canonical value.
pub struct SnapshotModel {
    pub revision: u64,
    pub value: ValueModel,
}

#[derive(Clone, Debug, PartialEq, Eq)]
pub struct Snapshot {
    revision: u64,
    value: CanonicalValue,
}

impl View for Snapshot {
    type V = SnapshotModel;

    closed spec fn view(&self) -> SnapshotModel {
        SnapshotModel { revision: self.revision, value: self.value@ }
    }
}

impl Snapshot {
    pub fn new(revision: u64, value: CanonicalValue) -> (r: Result<Self, StoreError>)
        ensures
            match r {
                Ok(snapshot) => revision <= MAX_REVISION && snapshot@ == (SnapshotModel {
                    revision,
                    value: value@,
                }),
                Err(error) => revision > MAX_REVISION && error == (StoreError::RevisionOutOfRange {
                    revision,
                }),
            },
    {
        match validate_revision(revision) {
            Ok(()) => {},
            Err(error) => return Err(error),
        }
        Ok(Self { revision, value })
    }

    pub fn revision(&self) -> (revision: u64)
        ensures
            revision == self@.revision,
    {
        self.revision
    }

    pub fn value(&self) -> (value: &CanonicalValue)
        ensures
            value@ == self@.value,
    {
        &self.value
    }

    fn duplicate(&self) -> (copy: Self)
        ensures
            copy@ == self@,
    {
        Self { revision: self.revision, value: self.value.duplicate() }
    }

    fn same_as(&self, other: &Self) -> (same: bool)
        ensures
            same == (self@ == other@),
    {
        self.revision == other.revision && self.value.same_as(&other.value)
    }
}

/// A compare-and-swap request: replace the value at `expected_revision` by
/// `value` at `revision`, publishing `receipt` under `receipt_key`.
pub struct RequestModel {
    pub expected_revision: u64,
    pub revision: u64,
    pub value: ValueModel,
    pub receipt_key: Digest,
    pub receipt: Seq<u8>,
}

/// A request advances the revision by exactly one within the storage bound.
pub open spec fn request_valid(request: RequestModel) -> bool {
    request.expected_revision < MAX_REVISION && request.revision == request.expected_revision + 1
}

/// What building a compare-and-swap request yields.
pub open spec fn request_check(expected_revision: u64, revision: u64) -> Result<(), StoreError> {
    if let Err(error) = revision_check(expected_revision) {
        Err(error)
    } else if let Err(error) = revision_check(revision) {
        Err(error)
    } else if expected_revision == MAX_REVISION || revision != expected_revision + 1 {
        Err(StoreError::InvalidRevisionStep { expected: expected_revision, revision })
    } else {
        Ok(())
    }
}

#[derive(Clone, Debug, PartialEq, Eq)]
pub struct CompareAndSwap {
    expected_revision: u64,
    revision: u64,
    value: CanonicalValue,
    receipt_key: Digest,
    receipt: OpaqueReceipt,
}

impl View for CompareAndSwap {
    type V = RequestModel;

    closed spec fn view(&self) -> RequestModel {
        RequestModel {
            expected_revision: self.expected_revision,
            revision: self.revision,
            value: self.value@,
            receipt_key: self.receipt_key,
            receipt: self.receipt@,
        }
    }
}

impl CompareAndSwap {
    pub fn new(
        expected_revision: u64,
        revision: u64,
        value: CanonicalValue,
        receipt_key: Digest,
        receipt: OpaqueReceipt,
    ) -> (r: Result<Self, StoreError>)
        ensures
            match r {
                Ok(request) => request_check(expected_revision, revision) is Ok && request@ == (
                RequestModel {
                    expected_revision,
                    revision,
                    value: value@,
                    receipt_key,
                    receipt: receipt@,
                }) && request_valid(request@),
                Err(error) => request_check(expected_revision, revision) == Err::<(), StoreError>(
                    error,
                ),
            },
    {
        match validate_revision(expected_revision) {
            Ok(()) => {},
            Err(error) => return Err(error),
        }
        match validate_revision(revision) {
            Ok(()) => {},
            Err(error) => return Err(error),
        }
        if expected_revision == MAX_REVISION || revision != expected_revision + 1 {
            return Err(StoreError::InvalidRevisionStep { expected: expected_revision, revision });
        }
        Ok(Self { expected_revision, revision, value, receipt_key, receipt })
    }

    pub fn expected_revision(&self) -> (revision: u64)
        ensures
            revision == self@.expected_revision,
    {
        self.expected_revision
    }

    pub fn revision(&self) -> (revision: u64)
        ensures
            revision == self@.revision,
    {
        self.revision
    }

    pub fn value(&self) -> (value: &CanonicalValue)
        ensures
            value@ == self@.value,
    {
        &self.value
    }

    pub fn receipt_key(&self) -> (key: Digest)
        ensures
            key == self@.receipt_key,
    {
        self.receipt_key
    }

    pub fn receipt(&self) -> (receipt: &OpaqueReceipt)
        ensures
            receipt@ == self@.receipt,
    {
        &self.receipt
    }
}

#[derive(Clone, Copy, Debug, PartialEq, Eq)]
pub enum ApplyStatus {
    Applied,
    Replayed,
}

impl ApplyStatus {
    pub fn name(self) -> (name: &'static str)
        ensures
            name == (match self {
                ApplyStatus::Applied => "applied",
                ApplyStatus::Replayed => "replayed",
            }),
    {
        match self {
            ApplyStatus::Applied => "applied",
            ApplyStatus::Replayed => "replayed",
        }
    }
}

/// The receipt of a published compare-and-swap.
pub struct ReceiptModel {
    pub status: ApplyStatus,
    pub revision: u64,
    pub receipt_key: Digest,
    pub receipt: Seq<u8>,
}

/// The receipt that a stored commit answers with.
pub open spec fn receipt_of(status: ApplyStatus, commit: RequestModel) -> ReceiptModel {
    ReceiptModel {
        status,
        revision: commit.revision,
        receipt_key: commit.receipt_key,
        receipt: commit.receipt,
    }
}

#[derive(Clone, Debug, PartialEq, Eq)]
pub struct CommitReceipt {
    status: ApplyStatus,
    revision: u64,
    receipt_key: Digest,
    receipt: OpaqueReceipt,
}

impl View for CommitReceipt {
    type V = ReceiptModel;

    closed spec fn view(&self) -> ReceiptModel {
        ReceiptModel {
            status: self.status,
            revision: self.revision,
            receipt_key: self.receipt_key,
            receipt: self.receipt@,
        }
    }
}

impl CommitReceipt {
    fn from_commit(status: ApplyStatus, commit: &StoredCommit) -> (receipt: Self)
        ensures
            receipt@ == receipt_of(status, commit@),
    {
        Self {
            status,
            revision: commit.revision,
            receipt_key: commit.receipt_key,
            receipt: commit.receipt.duplicate(),
        }
    }

    pub fn status(&self) -> (status: ApplyStatus)
        ensures
            status == self@.status,
    {
        self.status
    }

    pub fn revision(&self) -> (revision: u64)
        ensures
            revision == self@.revision,
    {
        self.revision
    }

    pub fn receipt_key(&self) -> (key: Digest)
        ensures
            key == self@.receipt_key,
    {
        self.receipt_key
    }

    pub fn receipt(&self) -> (receipt: &OpaqueReceipt)
        ensures
            receipt@ == self@.receipt,
    {
        &self.receipt
    }
}

/// A stored commit: the exact request that was applied.
#[derive(Clone, Debug, PartialEq, Eq)]
struct StoredCommit {
    expected_revision: u64,
    revision: u64,
    value: CanonicalValue,
    receipt_key: Digest,
    receipt: OpaqueReceipt,
}

impl View for StoredCommit {
    type V = RequestModel;

    closed spec fn view(&self) -> RequestModel {
        RequestModel {
            expected_revision: self.expected_revision,
            revision: self.revision,
            value: self.value@,
            receipt_key: self.receipt_key,
            receipt: self.receipt@,
        }
    }
}

impl StoredCommit {
    fn from_request(request: &CompareAndSwap) -> (commit: Self)
        ensures
            commit@ == request@,
    {
        Self {
            expected_revision: request.expected_revision,
            revision: request.revision,
            value: request.value.duplicate(),
            receipt_key: request.receipt_key,
            receipt: request.receipt.duplicate(),
        }
    }

    fn matches(&self, request: &CompareAndSwap) -> (same: bool)
        ensures
            same == (self@ == request@),
    {
        proof {
            lemma_digest_view_injective(self.receipt_key, request.receipt_key);
        }
        self.expected_revision == request.expected_revision && self.revision == request.revision
            && self.value.same_as(&request.value) && self.receipt_key == request.receipt_key
            && same_bytes(self.receipt.bytes.as_slice(), request.receipt.bytes.as_slice())
    }
}


/// The state of a store: its current snapshot, the commits it has
/// published (in publication order) and a pending injected fault.
pub struct StoreModel {
    pub snapshot: Option<SnapshotModel>,
    pub commits: Seq<RequestModel>,
    pub pending_fault: Option<FaultPoint>,
}

/// The most recently published commit under `key`.
pub open spec fn find_commit(commits: Seq<RequestModel>, key: Digest) -> Option<RequestModel>
    decreases commits.len(),
{
    if commits.len() == 0 {
        None
    } else if commits.last().receipt_key == key {
        Some(commits.last())
    } else {
        find_commit(commits.drop_last(), key)
    }
}

/// The empty store.
pub open spec fn empty_store() -> StoreModel {
    StoreModel { snapshot: None, commits: Seq::empty(), pending_fault: None }
}

/// Initialization publishes the first snapshot once; repeating it with the
/// same snapshot is accepted, any other snapshot is refused.
pub open spec fn initialize_step(store: StoreModel, snapshot: SnapshotModel) -> (StoreModel, Result<SnapshotModel, StoreError>) {
    match store.snapshot {
        None => (StoreModel { snapshot: Some(snapshot), ..store }, Ok(snapshot)),
        Some(current) => if current == snapshot {
            (store, Ok(current))
        } else {
            (store, Err(StoreError::AlreadyInitialized { current_revision: current.revision }))
        },
    }
}

/// Compare-and-swap: an exact retry of a published commit replays it; a
/// different request under a published key is a collision; otherwise the
/// current revision must equal the expected one, and the new value and the
/// receipt are published together. A pending fault is consumed only by an
/// eligible request.
pub open spec fn compare_and_swap_step(store: StoreModel, request: RequestModel) -> (StoreModel, Result<ReceiptModel, StoreError>) {
    match find_commit(store.commits, request.receipt_key) {
        Some(commit) => if commit == request {
            (store, Ok(receipt_of(ApplyStatus::Replayed, commit)))
        } else {
            (store, Err(StoreError::ReceiptCollision { receipt_key: request.receipt_key }))
        },
        None => match store.snapshot {
            None => (store, Err(StoreError::Uninitialized)),
            Some(current) => if current.revision != request.expected_revision {
                (
                    store,
                    Err(
                        StoreError::StaleRevision {
                            expected: request.expected_revision,
                            actual: current.revision,
                        },
                    ),
                )
            } else if store.pending_fault == Some(FaultPoint::BeforeCommit) {
                (
                    StoreModel { pending_fault: None, ..store },
                    Err(StoreError::InjectedFault { fault: FaultPoint::BeforeCommit }),
                )
            } else {
                let published = StoreModel {
                    snapshot: Some(SnapshotModel { revision: request.revision, value: request.value }),
                    commits: store.commits.push(request),
                    pending_fault: None,
                };
                if store.pending_fault == Some(FaultPoint::AfterCommit) {
                    (published, Err(StoreError::InjectedFault { fault: FaultPoint::AfterCommit }))
                } else {
                    (published, Ok(receipt_of(ApplyStatus::Applied, request)))
                }
            },
        },
    }
}

/// What a durable store does with a compare-and-swap inside its
/// transaction, given what it read there.
#[derive(Clone, Debug, PartialEq, Eq)]
pub enum DurableSwap {
    /// The request is an exact retry of the stored commit: replay it.
    Replay,
    /// The request is refused with this error.
    Refused(StoreError),
    /// The request's revision is already bound to another receipt key.
    RevisionBound { revision: u64, receipt_key: Digest },
    /// Publish the value and the receipt together.
    Apply,
}

/// The decision of a durable store: a commit under the request's receipt
/// key replays or collides; otherwise a revision already bound to a receipt
/// key is refused before the snapshot is read; then the store must be
/// initialized at the expected revision.
pub open spec fn durable_swap_spec(
    existing: Option<RequestModel>,
    bound: Option<Digest>,
    current: Option<u64>,
    request: RequestModel,
) -> DurableSwap {
    match existing {
        Some(commit) => if commit == request {
            DurableSwap::Replay
        } else {
            DurableSwap::Refused(StoreError::ReceiptCollision { receipt_key: request.receipt_key })
        },
        None => match bound {
            Some(key) => DurableSwap::RevisionBound { revision: request.revision, receipt_key: key },
            None => match current {
                None => DurableSwap::Refused(StoreError::Uninitialized),
                Some(actual) => if actual != request.expected_revision {
                    DurableSwap::Refused(StoreError::StaleRevision { expected: request.expected_revision, actual })
                } else {
                    DurableSwap::Apply
                },
            },
        },
    }
}

fn same_request(a: &CompareAndSwap, b: &CompareAndSwap) -> (same: bool)
    ensures
        same == (a@ == b@),
{
    proof {
        lemma_digest_view_injective(a.receipt_key, b.receipt_key);
    }
    a.expected_revision == b.expected_revision && a.revision == b.revision && a.value.same_as(&b.value)
        && a.receipt_key == b.receipt_key && same_bytes(a.receipt.bytes.as_slice(), b.receipt.bytes.as_slice())
}

/// Decides a compare-and-swap for a durable store from the commit stored
/// under the request's receipt key, the receipt key already bound to the
/// request's revision and the current revision (`None` when uninitialized).
pub fn durable_swap(
    existing: Option<&CompareAndSwap>,
    bound: Option<Digest>,
    current: Option<u64>,
    request: &CompareAndSwap,
) -> (decision: DurableSwap)
    ensures
        decision == durable_swap_spec(
            match existing {
                Some(c) => Some(c@),
                None => None,
            },
            bound,
            current,
            request@,
        ),
{
    match existing {
        Some(commit) => {
            if same_request(commit, request) {
                DurableSwap::Replay
            } else {
                DurableSwap::Refused(StoreError::ReceiptCollision { receipt_key: request.receipt_key })
            }
        },
        None => match bound {
            Some(key) => DurableSwap::RevisionBound { revision: request.revision, receipt_key: key },
            None => match current {
                None => DurableSwap::Refused(StoreError::Uninitialized),
                Some(actual) => if actual != request.expected_revision {
                    DurableSwap::Refused(StoreError::StaleRevision { expected: request.expected_revision, actual })
                } else {
                    DurableSwap::Apply
                },
            },
        },
    }
}

/// The revision of the current snapshot, if there is one.
pub open spec fn current_revision(store: StoreModel) -> Option<u64> {
    match store.snapshot {
        Some(snapshot) => Some(snapshot.revision),
        None => None,
    }
}

/// Where no revision is bound yet and no fault is pending, a durable store
/// decides a compare-and-swap as the store model does: it replays, refuses
/// with the same error, or applies exactly when the model does.
pub proof fn law_durable_swap_agrees_with_the_store(store: StoreModel, request: RequestModel)
    requires
        store.pending_fault is None,
    ensures
        ({
            let decision = durable_swap_spec(
                find_commit(store.commits, request.receipt_key),
                None,
                current_revision(store),
                request,
            );
            let outcome = compare_and_swap_step(store, request).1;
            match decision {
                DurableSwap::Replay => outcome == Ok::<ReceiptModel, StoreError>(
                    receipt_of(ApplyStatus::Replayed, request),
                ),
                DurableSwap::Refused(error) => outcome == Err::<ReceiptModel, StoreError>(error),
                DurableSwap::Apply => outcome == Ok::<ReceiptModel, StoreError>(
                    receipt_of(ApplyStatus::Applied, request),
                ),
                DurableSwap::RevisionBound { .. } => false,
            }
        }),
{
}

/// The text of a revision-bound refusal.
pub open spec fn revision_bound_text(revision: u64, receipt_key: Digest) -> Seq<char> {
    "revision "@ + decimal_chars(revision as nat) + " is already bound to receipt key "@ + digest_text(receipt_key@)
}

/// `revision {revision} is already bound to receipt key {receipt_key}`.
pub fn revision_bound_message(revision: u64, receipt_key: &Digest) -> (text: String)
    ensures
        text@ == revision_bound_text(revision, *receipt_key),
{
    let mut text = String::new();
    push_str(&mut text, "revision ");
    push_decimal(&mut text, revision);
    push_str(&mut text, " is already bound to receipt key ");
    let key = receipt_key.to_string();
    push_str(&mut text, key.as_str());
    proof {
        reveal_strlit("revision ");
    }
    assert(text@ =~= revision_bound_text(revision, *receipt_key));
    text
}

/// The receipt published under `key`, reported as a replay.
pub open spec fn receipt_lookup(store: StoreModel, key: Digest) -> Option<ReceiptModel> {
    match find_commit(store.commits, key) {
        Some(commit) => Some(receipt_of(ApplyStatus::Replayed, commit)),
        None => None,
    }
}

/// Installing a fault succeeds only when none is pending.
pub open spec fn inject_fault_step(store: StoreModel, fault: FaultPoint) -> (StoreModel, Result<(), StoreError>) {
    match store.pending_fault {
        Some(pending) => (store, Err(StoreError::FaultAlreadyPending { fault: pending })),
        None => (StoreModel { pending_fault: Some(fault), ..store }, Ok(())),
    }
}

pub open spec fn snapshot_result_model(r: Result<Snapshot, StoreError>) -> Result<SnapshotModel, StoreError> {
    match r {
        Ok(snapshot) => Ok(snapshot@),
        Err(error) => Err(error),
    }
}

pub open spec fn receipt_result_model(r: Result<CommitReceipt, StoreError>) -> Result<ReceiptModel, StoreError> {
    match r {
        Ok(receipt) => Ok(receipt@),
        Err(error) => Err(error),
    }
}

pub open spec fn optional_snapshot_model(snapshot: Option<Snapshot>) -> Option<SnapshotModel> {
    match snapshot {
        Some(snapshot) => Some(snapshot@),
        None => None,
    }
}

pub open spec fn optional_receipt_model(receipt: Option<CommitReceipt>) -> Option<ReceiptModel> {
    match receipt {
        Some(receipt) => Some(receipt@),
        None => None,
    }
}

/// The operations of an opaque canonical-value store.
pub trait OpaqueValueStore: Send + Sync {
    fn load(&self) -> Result<Option<Snapshot>, StoreError>;

    fn initialize(&mut self, snapshot: Snapshot) -> Result<Snapshot, StoreError>;

    fn compare_and_swap(&mut self, request: CompareAndSwap) -> Result<CommitReceipt, StoreError>;

    fn receipt(&self, receipt_key: Digest) -> Result<Option<CommitReceipt>, StoreError>;
}

/// An in-process store with fault injection for testing recovery paths.
#[derive(Debug, Default)]
pub struct InMemoryStore {
    snapshot: Option<Snapshot>,
    commits: Vec<StoredCommit>,
    pending_fault: Option<FaultPoint>,
}

impl View for InMemoryStore {
    type V = StoreModel;

    closed spec fn view(&self) -> StoreModel {
        StoreModel {
            snapshot: optional_snapshot_model(self.snapshot),
            commits: self.commits@.map_values(|commit: StoredCommit| commit@),
            pending_fault: self.pending_fault,
        }
    }
}

impl InMemoryStore {
    pub fn new() -> (store: Self)
        ensures
            store@ == empty_store(),
    {
        let store = Self { snapshot: None, commits: Vec::new(), pending_fault: None };
        assert(store@.commits =~= Seq::<RequestModel>::empty());
        store
    }

    pub fn inject_fault(&mut self, fault: FaultPoint) -> (r: Result<(), StoreError>)
        ensures
            (final(self)@, r) == inject_fault_step(old(self)@, fault),
    {
        if let Some(pending) = self.pending_fault {
            return Err(StoreError::FaultAlreadyPending { fault: pending });
        }
        self.pending_fault = Some(fault);
        Ok(())
    }

    pub fn pending_fault(&self) -> (r: Result<Option<FaultPoint>, StoreError>)
        ensures
            r == Ok::<Option<FaultPoint>, StoreError>(self@.pending_fault),
    {
        Ok(self.pending_fault)
    }

    /// The index of the most recently published commit under `key`.
    fn find_commit_index(&self, key: &Digest) -> (r: Option<usize>)
        ensures
            match r {
                Some(i) => i < self.commits@.len() && find_commit(self@.commits, *key) == Some(
                    self@.commits[i as int],
                ),
                None => find_commit(self@.commits, *key) is None,
            },
    {
        let ghost commits = self@.commits;
        let mut i: usize = self.commits.len();
        assert(commits.take(i as int) =~= commits);
        while i > 0
            invariant
                i <= self.commits@.len(),
                commits == self@.commits,
                find_commit(commits, *key) == find_commit(commits.take(i as int), *key),
            decreases i,
        {
            proof {
                lemma_digest_view_injective(self.commits@[i - 1].receipt_key, *key);
                assert(commits.take(i as int).drop_last() =~= commits.take(i - 1));
                assert(commits.take(i as int).last() == commits[i - 1]);
            }
            if self.commits[i - 1].receipt_key == *key {
                return Some(i - 1);
            }
            i = i - 1;
        }
        assert(commits.take(0) =~= Seq::<RequestModel>::empty());
        None
    }
}

impl OpaqueValueStore for InMemoryStore {
    fn load(&self) -> (r: Result<Option<Snapshot>, StoreError>)
        ensures
            match r {
                Ok(snapshot) => optional_snapshot_model(snapshot) == self@.snapshot,
                Err(_) => false,
            },
    {
        match &self.snapshot {
            Some(snapshot) => Ok(Some(snapshot.duplicate())),
            None => Ok(None),
        }
    }

    fn initialize(&mut self, snapshot: Snapshot) -> (r: Result<Snapshot, StoreError>)
        ensures
            (final(self)@, snapshot_result_model(r)) == initialize_step(old(self)@, snapshot@),
    {
        match &self.snapshot {
            None => {
                self.snapshot = Some(snapshot.duplicate());
                Ok(snapshot)
            },
            Some(current) => {
                if current.same_as(&snapshot) {
                    Ok(current.duplicate())
                } else {
                    Err(StoreError::AlreadyInitialized { current_revision: current.revision })
                }
            },
        }
    }

    fn compare_and_swap(&mut self, request: CompareAndSwap) -> (r: Result<CommitReceipt, StoreError>)
        ensures
            (final(self)@, receipt_result_model(r)) == compare_and_swap_step(old(self)@, request@),
    {
        if let Some(index) = self.find_commit_index(&request.receipt_key) {
            let commit = &self.commits[index];
            if commit.matches(&request) {
                return Ok(CommitReceipt::from_commit(ApplyStatus::Replayed, commit));
            }
            return Err(StoreError::ReceiptCollision { receipt_key: request.receipt_key });
        }
        let actual_revision = match &self.snapshot {
            Some(current) => current.revision,
            None => return Err(StoreError::Uninitialized),
        };
        if actual_revision != request.expected_revision {
            return Err(
                StoreError::StaleRevision {
                    expected: request.expected_revision,
                    actual: actual_revision,
                },
            );
        }
        let pending_fault = self.pending_fault;
        self.pending_fault = None;
        if let Some(FaultPoint::BeforeCommit) = pending_fault {
            return Err(StoreError::InjectedFault { fault: FaultPoint::BeforeCommit });
        }
        let commit = StoredCommit::from_request(&request);
        let ghost old_commits = self@.commits;
        self.snapshot = Some(Snapshot { revision: request.revision, value: request.value.duplicate() });
        let receipt = CommitReceipt::from_commit(ApplyStatus::Applied, &commit);
        self.commits.push(commit);
        assert(self@.commits =~= old_commits.push(request@));
        if let Some(FaultPoint::AfterCommit) = pending_fault {
            return Err(StoreError::InjectedFault { fault: FaultPoint::AfterCommit });
        }
        Ok(receipt)
    }

    fn receipt(&self, receipt_key: Digest) -> (r: Result<Option<CommitReceipt>, StoreError>)
        ensures
            match r {
                Ok(receipt) => optional_receipt_model(receipt) == receipt_lookup(self@, receipt_key),
                Err(_) => false,
            },
    {
        match self.find_commit_index(&receipt_key) {
            Some(index) => Ok(Some(CommitReceipt::from_commit(ApplyStatus::Replayed, &self.commits[index]))),
            None => Ok(None),
        }
    }
}


/// Publishing a commit makes it the answer for its key and leaves every
/// other key's answer unchanged.
proof fn lemma_find_commit_push(commits: Seq<RequestModel>, commit: RequestModel, key: Digest)
    ensures
        find_commit(commits.push(commit), key) == (if commit.receipt_key == key {
            Some(commit)
        } else {
            find_commit(commits, key)
        }),
{
    assert(commits.push(commit).drop_last() =~= commits);
}

/// An exact retry of a published request is answered with the published
/// receipt and changes nothing, whatever the current revision.
pub proof fn law_exact_retry_replays(store: StoreModel, request: RequestModel)
    requires
        find_commit(store.commits, request.receipt_key) == Some(request),
    ensures
        compare_and_swap_step(store, request) == (store, Ok::<ReceiptModel, StoreError>(
            receipt_of(ApplyStatus::Replayed, request),
        )),
{
}

/// A receipt key that is bound to a commit cannot be bound to a different
/// request: such a request fails with a collision and changes nothing.
pub proof fn law_receipt_keys_cannot_be_rebound(store: StoreModel, request: RequestModel)
    requires
        find_commit(store.commits, request.receipt_key) is Some,
        find_commit(store.commits, request.receipt_key) != Some(request),
    ensures
        compare_and_swap_step(store, request) == (store, Err::<ReceiptModel, StoreError>(
            StoreError::ReceiptCollision { receipt_key: request.receipt_key },
        )),
{
}

/// Once published, a commit stays the answer for its key after any further
/// compare-and-swap.
pub proof fn law_published_commits_persist(
    store: StoreModel,
    request: RequestModel,
    key: Digest,
)
    requires
        find_commit(store.commits, key) is Some,
    ensures
        find_commit(compare_and_swap_step(store, request).0.commits, key) == find_commit(
            store.commits,
            key,
        ),
{
    lemma_find_commit_push(store.commits, request, key);
}

/// A request that publishes (it is applied, or its fault strikes after the
/// commit) leaves the new value loadable, its receipt retrievable, and an
/// exact retry replays it.
pub proof fn law_published_request_is_recoverable(store: StoreModel, request: RequestModel)
    requires
        compare_and_swap_step(store, request).1 == Ok::<ReceiptModel, StoreError>(
            receipt_of(ApplyStatus::Applied, request),
        ) || compare_and_swap_step(store, request).1 == Err::<ReceiptModel, StoreError>(
            StoreError::InjectedFault { fault: FaultPoint::AfterCommit },
        ),
    ensures
        ({
            let after = compare_and_swap_step(store, request).0;
            &&& after.snapshot == Some(SnapshotModel { revision: request.revision, value: request.value })
            &&& receipt_lookup(after, request.receipt_key) == Some(receipt_of(ApplyStatus::Replayed, request))
            &&& compare_and_swap_step(after, request) == (after, Ok::<ReceiptModel, StoreError>(
                receipt_of(ApplyStatus::Replayed, request),
            ))
        }),
{
    lemma_find_commit_push(store.commits, request, request.receipt_key);
}

/// A compare-and-swap that fails before its commit publishes nothing: the
/// snapshot and the published commits are unchanged.
pub proof fn law_failed_requests_publish_nothing(store: StoreModel, request: RequestModel)
    requires
        compare_and_swap_step(store, request).1 is Err,
        compare_and_swap_step(store, request).1 != Err::<ReceiptModel, StoreError>(
            StoreError::InjectedFault { fault: FaultPoint::AfterCommit },
        ),
    ensures
        compare_and_swap_step(store, request).0.snapshot == store.snapshot,
        compare_and_swap_step(store, request).0.commits == store.commits,
{
}

/// A request that is answered without reaching the commit point (replay,
/// collision, uninitialized store, stale revision) leaves a pending fault in
/// place.
pub proof fn law_ineligible_requests_keep_pending_fault(store: StoreModel, request: RequestModel)
    requires
        compare_and_swap_step(store, request).1 is Ok ==> compare_and_swap_step(
            store,
            request,
        ).1.get_Ok_0().status == ApplyStatus::Replayed,
        !(compare_and_swap_step(store, request).1 is Err && compare_and_swap_step(
            store,
            request,
        ).1.get_Err_0() is InjectedFault),
    ensures
        compare_and_swap_step(store, request).0 == store,
{
}

/// Revisions advance exactly once: whenever a valid request publishes a new
/// snapshot, its revision is one more than the revision it replaced.
pub proof fn law_revision_advances_exactly_once(store: StoreModel, request: RequestModel)
    requires
        request_valid(request),
        compare_and_swap_step(store, request).0.snapshot != store.snapshot,
    ensures
        store.snapshot is Some,
        compare_and_swap_step(store, request).0.snapshot is Some,
        compare_and_swap_step(store, request).0.snapshot.unwrap().revision
            == store.snapshot.unwrap().revision + 1,
{
}

/// Of two writers that start from the same revision with different receipt
/// keys, once the first has published, the second is refused as stale.
pub proof fn law_stale_writers_fail_closed(
    store: StoreModel,
    first: RequestModel,
    second: RequestModel,
)
    requires
        request_valid(first),
        first.expected_revision == second.expected_revision,
        first.receipt_key != second.receipt_key,
        find_commit(store.commits, second.receipt_key) is None,
        compare_and_swap_step(store, first).0.snapshot != store.snapshot,
    ensures
        compare_and_swap_step(compare_and_swap_step(store, first).0, second) == (
            compare_and_swap_step(store, first).0,
            Err::<ReceiptModel, StoreError>(
                StoreError::StaleRevision {
                    expected: second.expected_revision,
                    actual: first.revision,
                },
            ),
        ),
{
    lemma_find_commit_push(store.commits, first, second.receipt_key);
}

/// Initialization is idempotent: repeating a successful initialization
/// with the same snapshot returns it again and changes nothing.
pub proof fn law_initialize_is_idempotent(store: StoreModel, snapshot: SnapshotModel)
    requires
        initialize_step(store, snapshot).1 is Ok,
    ensures
        initialize_step(initialize_step(store, snapshot).0, snapshot) == (
            initialize_step(store, snapshot).0,
            Ok::<SnapshotModel, StoreError>(snapshot),
        ),
{
}

} // verus!
