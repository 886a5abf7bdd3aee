use hoplite::value_store::{
    ApplyStatus, CanonicalValue, CompareAndSwap, Digest, DigestVerifier, DurableSwap, FaultPoint,
    InMemoryStore, OpaqueReceipt, OpaqueValueStore, Snapshot, SpanKind, StoreError, StoreLimits,
    Sha256Verifier, MAX_REVISION, REQUEST_PROTOCOL, RESULT_PROTOCOL, SERVICE, durable_swap, revision_bound_message,
};

#[derive(Clone, Copy, Debug)]
struct TestVerifier;

impl DigestVerifier for TestVerifier {
    fn sha256(&self, canonical_bytes: &[u8]) -> [u8; 32] {
        let mut digest = [0_u8; 32];
        for (index, byte) in canonical_bytes.iter().copied().enumerate() {
            let slot = index % digest.len();
            digest[slot] = digest[slot].wrapping_add(byte).wrapping_add(index as u8);
        }
        digest[31] ^= canonical_bytes.len() as u8;
        digest
    }
}

fn limits() -> StoreLimits {
    StoreLimits::new(1024, 512)
}

fn digest_for(bytes: &[u8]) -> Digest {
    Digest::from_bytes(TestVerifier.sha256(bytes))
}

fn value(bytes: &[u8]) -> CanonicalValue {
    CanonicalValue::verify(bytes.to_vec(), digest_for(bytes), &TestVerifier, limits())
        .expect("test value must verify")
}

fn receipt(bytes: &[u8]) -> OpaqueReceipt {
    OpaqueReceipt::new(bytes.to_vec(), limits()).expect("test receipt must be bounded")
}

fn snapshot(revision: u64, bytes: &[u8]) -> Snapshot {
    Snapshot::new(revision, value(bytes)).expect("test revision must be valid")
}

fn request(
    expected_revision: u64,
    revision: u64,
    value_bytes: &[u8],
    receipt_key_bytes: &[u8],
    receipt_bytes: &[u8],
) -> CompareAndSwap {
    CompareAndSwap::new(
        expected_revision,
        revision,
        value(value_bytes),
        digest_for(receipt_key_bytes),
        receipt(receipt_bytes),
    )
    .expect("test compare-and-swap must be valid")
}

#[test]
fn constants_match_the_hal_profile() {
    assert_eq!(SERVICE, "hara.store");
    assert_eq!(REQUEST_PROTOCOL, "hara.store-request/1");
    assert_eq!(RESULT_PROTOCOL, "hara.store-result/1");
    assert_eq!(ApplyStatus::Applied.name(), "applied");
    assert_eq!(ApplyStatus::Replayed.name(), "replayed");
}

#[test]
fn digests_are_strict_canonical_lowercase_sha256_values() {
    let digest = digest_for(b"value");
    let encoded = digest.to_string();

    assert_eq!(Digest::parse(&encoded), Ok(digest));
    assert_eq!(encoded.len(), "sha256:".len() + 64);
    assert_eq!(
        Digest::parse(&encoded.to_ascii_uppercase()),
        Err(StoreError::InvalidDigest)
    );
    assert_eq!(Digest::parse("sha256:abc"), Err(StoreError::InvalidDigest));
    assert_eq!(
        Digest::parse(
            "blake3:aaaaaaaaaaaaaaaaaaaaaaaaaaaaaaaaaaaaaaaaaaaaaaaaaaaaaaaaaaaaaaaa"
        ),
        Err(StoreError::InvalidDigest)
    );
}

#[test]
fn canonical_values_verify_digest_and_bounds() {
    let bytes = b"canonical nested hta bytes".to_vec();
    let digest = digest_for(&bytes);

    let verified = CanonicalValue::verify(bytes.clone(), digest, &TestVerifier, limits())
        .expect("matching digest must verify");
    assert_eq!(verified.bytes(), bytes.as_slice());
    assert_eq!(verified.digest(), digest);

    let wrong = Digest::from_bytes([9_u8; 32]);
    assert!(matches!(
        CanonicalValue::verify(bytes.clone(), wrong, &TestVerifier, limits()),
        Err(StoreError::DigestMismatch { .. })
    ));
    assert_eq!(
        CanonicalValue::verify(Vec::new(), digest_for(&[]), &TestVerifier, limits()),
        Err(StoreError::EmptySpan(SpanKind::Value))
    );
    assert!(matches!(
        CanonicalValue::verify(
            vec![1_u8; 1025],
            digest_for(&vec![1_u8; 1025]),
            &TestVerifier,
            limits(),
        ),
        Err(StoreError::SpanLimitExceeded {
            kind: SpanKind::Value,
            limit: 1024,
            actual: 1025,
        })
    ));
}

#[test]
fn revisions_are_bounded_and_advance_exactly_once() {
    assert!(Snapshot::new(MAX_REVISION, value(b"max")).is_ok());
    assert_eq!(
        Snapshot::new(MAX_REVISION + 1, value(b"overflow")),
        Err(StoreError::RevisionOutOfRange {
            revision: MAX_REVISION + 1,
        })
    );
    assert_eq!(
        CompareAndSwap::new(
            4,
            6,
            value(b"skip"),
            digest_for(b"skip-key"),
            receipt(b"skip-receipt"),
        ),
        Err(StoreError::InvalidRevisionStep {
            expected: 4,
            revision: 6,
        })
    );
    assert_eq!(
        CompareAndSwap::new(
            MAX_REVISION,
            MAX_REVISION,
            value(b"terminal"),
            digest_for(b"terminal-key"),
            receipt(b"terminal-receipt"),
        ),
        Err(StoreError::InvalidRevisionStep {
            expected: MAX_REVISION,
            revision: MAX_REVISION,
        })
    );
}

#[test]
fn initialize_is_exact_idempotent_and_loadable() {
    let mut store = InMemoryStore::new();
    assert_eq!(store.load(), Ok(None));

    let initial = snapshot(0, b"state-0");
    assert_eq!(store.initialize(initial.clone()), Ok(initial.clone()));
    assert_eq!(store.initialize(initial.clone()), Ok(initial.clone()));
    assert_eq!(store.load(), Ok(Some(initial)));

    assert_eq!(
        store.initialize(snapshot(0, b"different-state-0")),
        Err(StoreError::AlreadyInitialized {
            current_revision: 0,
        })
    );
}

#[test]
fn compare_and_swap_atomically_publishes_value_and_receipt() {
    let mut store = InMemoryStore::new();
    store
        .initialize(snapshot(0, b"state-0"))
        .expect("store must initialize");
    let update = request(0, 1, b"state-1", b"plan-1", b"receipt-1");
    let key = update.receipt_key();

    let applied = store
        .compare_and_swap(update.clone())
        .expect("eligible compare-and-swap must apply");
    assert_eq!(applied.status(), ApplyStatus::Applied);
    assert_eq!(applied.revision(), 1);
    assert_eq!(applied.receipt_key(), key);
    assert_eq!(applied.receipt().bytes(), b"receipt-1");
    assert_eq!(store.load(), Ok(Some(snapshot(1, b"state-1"))));

    let loaded_receipt = store
        .receipt(key)
        .expect("receipt lookup must succeed")
        .expect("receipt must exist");
    assert_eq!(loaded_receipt.status(), ApplyStatus::Replayed);
    assert_eq!(loaded_receipt.receipt().bytes(), b"receipt-1");
}

#[test]
fn exact_retries_replay_before_the_stale_revision_check() {
    let mut store = InMemoryStore::new();
    store
        .initialize(snapshot(0, b"state-0"))
        .expect("store must initialize");
    let update = request(0, 1, b"state-1", b"plan-1", b"receipt-1");

    assert_eq!(
        store
            .compare_and_swap(update.clone())
            .expect("first call must apply")
            .status(),
        ApplyStatus::Applied
    );
    assert_eq!(
        store
            .compare_and_swap(update)
            .expect("exact retry must replay")
            .status(),
        ApplyStatus::Replayed
    );
}

#[test]
fn stale_writers_and_receipt_key_collisions_fail_closed() {
    let mut store = InMemoryStore::new();
    store
        .initialize(snapshot(0, b"state-0"))
        .expect("store must initialize");
    let first = request(0, 1, b"state-1", b"shared-key", b"receipt-1");
    store
        .compare_and_swap(first)
        .expect("first compare-and-swap must apply");

    assert_eq!(
        store.compare_and_swap(request(
            0,
            1,
            b"other-state",
            b"other-key",
            b"other-receipt",
        )),
        Err(StoreError::StaleRevision {
            expected: 0,
            actual: 1,
        })
    );
    let collision = request(0, 1, b"substituted-state", b"shared-key", b"receipt-1");
    assert_eq!(
        store.compare_and_swap(collision),
        Err(StoreError::ReceiptCollision {
            receipt_key: digest_for(b"shared-key"),
        })
    );
}

#[test]
fn before_commit_fault_leaves_no_value_or_receipt() {
    let mut store = InMemoryStore::new();
    let initial = snapshot(0, b"state-0");
    store
        .initialize(initial.clone())
        .expect("store must initialize");
    let update = request(0, 1, b"state-1", b"plan-1", b"receipt-1");
    let key = update.receipt_key();

    store
        .inject_fault(FaultPoint::BeforeCommit)
        .expect("fault must be installed");
    assert_eq!(
        store.compare_and_swap(update),
        Err(StoreError::InjectedFault {
            fault: FaultPoint::BeforeCommit,
        })
    );
    assert_eq!(store.load(), Ok(Some(initial)));
    assert_eq!(store.receipt(key), Ok(None));
    assert_eq!(store.pending_fault(), Ok(None));
}

#[test]
fn after_commit_fault_is_recoverable_by_load_receipt_and_retry() {
    let mut store = InMemoryStore::new();
    store
        .initialize(snapshot(0, b"state-0"))
        .expect("store must initialize");
    let update = request(0, 1, b"state-1", b"plan-1", b"receipt-1");
    let key = update.receipt_key();

    store
        .inject_fault(FaultPoint::AfterCommit)
        .expect("fault must be installed");
    assert_eq!(
        store.compare_and_swap(update.clone()),
        Err(StoreError::InjectedFault {
            fault: FaultPoint::AfterCommit,
        })
    );
    assert_eq!(store.load(), Ok(Some(snapshot(1, b"state-1"))));
    assert_eq!(
        store
            .receipt(key)
            .expect("receipt lookup must work")
            .expect("receipt must exist")
            .status(),
        ApplyStatus::Replayed
    );
    assert_eq!(
        store
            .compare_and_swap(update)
            .expect("retry must replay")
            .status(),
        ApplyStatus::Replayed
    );
}

#[test]
fn ineligible_requests_do_not_consume_pending_faults() {
    let mut store = InMemoryStore::new();
    store
        .initialize(snapshot(0, b"state-0"))
        .expect("store must initialize");
    store
        .compare_and_swap(request(0, 1, b"state-1", b"plan-1", b"receipt-1"))
        .expect("first update must apply");
    store
        .inject_fault(FaultPoint::BeforeCommit)
        .expect("fault must be installed");

    assert!(matches!(
        store.compare_and_swap(request(0, 1, b"stale", b"stale-plan", b"stale-receipt",)),
        Err(StoreError::StaleRevision { .. })
    ));
    assert_eq!(store.pending_fault(), Ok(Some(FaultPoint::BeforeCommit)));
}

#[test]
fn canonical_nested_spans_are_preserved_exactly() {
    let mut store = InMemoryStore::new();
    let initial_bytes = b"\x48\x54\x41\x01nested\x00value";
    let next_bytes = b"\x48\x54\x41\x01nested\x00next";
    let receipt_bytes = b"\x48\x54\x41\x01opaque\x00receipt";

    store
        .initialize(snapshot(0, initial_bytes))
        .expect("store must initialize");
    let update = request(0, 1, next_bytes, b"nested-plan", receipt_bytes);
    let key = update.receipt_key();
    store.compare_and_swap(update).expect("update must apply");

    assert_eq!(
        store
            .load()
            .expect("load must work")
            .expect("snapshot must exist")
            .value()
            .bytes(),
        next_bytes
    );
    assert_eq!(
        store
            .receipt(key)
            .expect("receipt lookup must work")
            .expect("receipt must exist")
            .receipt()
            .bytes(),
        receipt_bytes
    );
}


#[test]
fn sha256_verifier_computes_the_real_digest() {
    let expected =
        Digest::parse("sha256:ba7816bf8f01cfea414140de5dae2223b00361a396177a9cb410ff61f20015ad")
            .expect("canonical digest text");
    let verified = CanonicalValue::verify(b"abc".to_vec(), expected, &Sha256Verifier, limits())
        .expect("real sha256 must verify");
    assert_eq!(verified.digest(), expected);
    assert_eq!(Sha256Verifier.sha256(b"abc"), *expected.bytes());
    assert!(matches!(
        CanonicalValue::verify(b"abd".to_vec(), expected, &Sha256Verifier, limits()),
        Err(StoreError::DigestMismatch { .. })
    ));
}

#[test]
fn digest_text_round_trips_exactly() {
    let digest = Digest::from_bytes([0xab; 32]);
    let text = digest.to_string();
    assert_eq!(text, format!("sha256:{}", "ab".repeat(32)));
    assert_eq!(Digest::parse(&text), Ok(digest));
    assert_eq!(text.parse::<Digest>(), Ok(digest));
    assert_eq!(
        Digest::parse(&format!("sha256:{}g", "a".repeat(63))),
        Err(StoreError::InvalidDigest)
    );
}

#[test]
fn limits_must_be_positive() {
    assert_eq!(
        StoreLimits::new(0, 1).validate(),
        Err(StoreError::InvalidLimits("max_value_bytes must be positive"))
    );
    assert_eq!(
        StoreLimits::new(1, 0).validate(),
        Err(StoreError::InvalidLimits("max_receipt_bytes must be positive"))
    );
    assert_eq!(StoreLimits::new(3, 4).validate(), Ok(StoreLimits::new(3, 4)));
    assert_eq!(StoreLimits::default(), StoreLimits::new(16 * 1024 * 1024, 1024 * 1024));
    assert_eq!(
        OpaqueReceipt::new(vec![1; 513], limits()),
        Err(StoreError::SpanLimitExceeded { kind: SpanKind::Receipt, limit: 512, actual: 513 })
    );
    assert_eq!(
        OpaqueReceipt::new(Vec::new(), limits()),
        Err(StoreError::EmptySpan(SpanKind::Receipt))
    );
}

#[test]
fn verification_with_a_computed_digest_is_exact() {
    let claimed = Digest::from_bytes([1; 32]);
    let actual = Digest::from_bytes([2; 32]);
    assert_eq!(
        CanonicalValue::verify_computed(b"x".to_vec(), claimed, actual, limits()),
        Err(StoreError::DigestMismatch { claimed, actual })
    );
    let value = CanonicalValue::verify_computed(b"x".to_vec(), claimed, claimed, limits()).unwrap();
    assert_eq!(value.bytes(), b"x");
    assert_eq!(value.digest(), claimed);
}

#[test]
fn uninitialized_store_and_second_fault_are_refused() {
    let mut store = InMemoryStore::new();
    assert_eq!(
        store.compare_and_swap(request(0, 1, b"state-1", b"plan-1", b"receipt-1")),
        Err(StoreError::Uninitialized)
    );
    assert_eq!(store.receipt(digest_for(b"plan-1")), Ok(None));
    store.inject_fault(FaultPoint::AfterCommit).expect("first fault installs");
    assert_eq!(
        store.inject_fault(FaultPoint::BeforeCommit),
        Err(StoreError::FaultAlreadyPending { fault: FaultPoint::AfterCommit })
    );
    assert_eq!(store.pending_fault(), Ok(Some(FaultPoint::AfterCommit)));
}

#[test]
fn second_writer_from_the_same_revision_is_stale() {
    let mut store = InMemoryStore::new();
    store.initialize(snapshot(0, b"state-0")).expect("store must initialize");
    let left = store.compare_and_swap(request(0, 1, b"left-state", b"left-plan", b"left-receipt"));
    let right =
        store.compare_and_swap(request(0, 1, b"right-state", b"right-plan", b"right-receipt"));
    assert_eq!(left.expect("first writer applies").status(), ApplyStatus::Applied);
    assert_eq!(right, Err(StoreError::StaleRevision { expected: 0, actual: 1 }));
    assert_eq!(store.load().unwrap().unwrap().revision(), 1);
}

#[test]
fn digest_text_reads_back_as_the_same_digest() {
    let mut counting = [0_u8; 32];
    for (index, byte) in counting.iter_mut().enumerate() {
        *byte = (index as u8).wrapping_mul(37);
    }
    for bytes in [[0_u8; 32], [0xff_u8; 32], counting] {
        let digest = Digest::from_bytes(bytes);
        let text = digest.to_string();
        assert_eq!(text.len(), 71);
        assert_eq!(Digest::parse(&text), Ok(digest));
    }
}

#[test]
fn verify_decides_on_the_verifiers_digest() {
    let bytes = b"canonical".to_vec();
    let own = Digest::from_bytes(TestVerifier.sha256(&bytes));
    let sha = Digest::from_bytes(Sha256Verifier.sha256(&bytes));
    assert!(CanonicalValue::verify(bytes.clone(), own, &TestVerifier, StoreLimits::new(64, 64)).is_ok());
    assert_eq!(
        CanonicalValue::verify(bytes, sha, &TestVerifier, StoreLimits::new(64, 64)),
        Err(StoreError::DigestMismatch { claimed: sha, actual: own })
    );
}

#[test]
fn a_durable_store_refuses_a_revision_bound_to_another_receipt() {
    let first = request(1, 2, b"v2", b"key-a", b"r-a");
    let retry = request(1, 2, b"v2", b"key-a", b"r-a");
    let other = request(1, 2, b"v2-b", b"key-b", b"r-b");
    let bound_key = digest_for(b"key-a");
    assert_eq!(durable_swap(Some(&first), None, Some(1), &retry), DurableSwap::Replay);
    assert_eq!(
        durable_swap(Some(&first), None, Some(1), &other),
        DurableSwap::Refused(StoreError::ReceiptCollision { receipt_key: digest_for(b"key-b") })
    );
    assert_eq!(
        durable_swap(None, Some(bound_key), Some(2), &other),
        DurableSwap::RevisionBound { revision: 2, receipt_key: bound_key }
    );
    assert_eq!(durable_swap(None, None, None, &other), DurableSwap::Refused(StoreError::Uninitialized));
    assert_eq!(
        durable_swap(None, None, Some(3), &other),
        DurableSwap::Refused(StoreError::StaleRevision { expected: 1, actual: 3 })
    );
    assert_eq!(durable_swap(None, None, Some(1), &other), DurableSwap::Apply);
    assert_eq!(
        revision_bound_message(2, &bound_key),
        format!("revision 2 is already bound to receipt key {}", bound_key.to_string())
    );
}
