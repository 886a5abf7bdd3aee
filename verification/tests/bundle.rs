use hoplite::bundle::{
    decode, encode, Error, HARA_BUNDLE_MAGIC, MAGIC, MAX_MANIFEST_BYTES, RUNTIME_ABI_VERSION,
};
use hoplite::bundle::{check_bounded_metadata, check_bounded_read, open_failure, FileMetadata, IoKind, BUNDLE_FILE_CLASS};
use sha2::{Digest, Sha256};

const PREFIX_BYTES: usize = 36;

fn digest(bytes: &[u8]) -> [u8; 32] {
    Sha256::digest(bytes).into()
}

fn hbx0() -> Vec<u8> {
    b"HBX0deterministic-bytecode".to_vec()
}

fn reseal(bundle: &mut [u8]) {
    let checksum = digest(&bundle[PREFIX_BYTES..]);
    bundle[MAGIC.len()..PREFIX_BYTES].copy_from_slice(&checksum);
}

#[test]
fn round_trip_is_deterministic_and_manifest_bound() {
    let manifest = b"exact-route-manifest";
    let bytecode = hbx0();
    let first = encode(manifest, &bytecode).unwrap();
    let second = encode(manifest, &bytecode).unwrap();
    assert_eq!(first, second);
    assert_eq!(&first[..4], MAGIC);
    let decoded = decode(&first, manifest).unwrap();
    assert_eq!(decoded.bytecode(), bytecode);
    assert_eq!(decoded.manifest_digest(), digest(manifest));
}

#[test]
fn rejects_manifest_drift_before_exposing_bytecode() {
    let bundle = encode(b"manifest-a", &hbx0()).unwrap();
    assert_eq!(
        decode(&bundle, b"manifest-b"),
        Err(Error::ManifestDigestMismatch)
    );
}

#[test]
fn rejects_runtime_abi_drift_even_with_a_valid_checksum() {
    let previous = RUNTIME_ABI_VERSION - 1;
    let mut bundle = encode(b"manifest", &hbx0()).unwrap();
    bundle[PREFIX_BYTES..PREFIX_BYTES + 4].copy_from_slice(&previous.to_le_bytes());
    reseal(&mut bundle);
    assert_eq!(
        decode(&bundle, b"manifest"),
        Err(Error::RuntimeAbiMismatch { actual: previous })
    );
}

#[test]
fn rejects_tampering_and_trailing_bytes() {
    let mut tampered = encode(b"manifest", &hbx0()).unwrap();
    *tampered.last_mut().unwrap() ^= 1;
    assert_eq!(decode(&tampered, b"manifest"), Err(Error::ChecksumMismatch));

    let mut trailing = encode(b"manifest", &hbx0()).unwrap();
    trailing.push(0);
    reseal(&mut trailing);
    assert_eq!(
        decode(&trailing, b"manifest"),
        Err(Error::TrailingBytes { actual: 1 })
    );
}

#[test]
fn rejects_empty_oversized_and_non_hbx0_inputs() {
    assert_eq!(encode(b"", &hbx0()), Err(Error::EmptyManifest));
    assert_eq!(encode(b"manifest", b""), Err(Error::EmptyBytecode));
    assert_eq!(
        encode(b"manifest", b"not-bytecode"),
        Err(Error::InvalidBytecodeMagic)
    );

    let manifest = vec![0; MAX_MANIFEST_BYTES + 1];
    assert_eq!(
        encode(&manifest, &hbx0()),
        Err(Error::ManifestTooLarge {
            actual: MAX_MANIFEST_BYTES + 1
        })
    );
}

#[test]
fn rejects_pre_reset_bundle_markers() {
    let manifest = b"manifest";

    let mut old_outer = encode(manifest, &hbx0()).unwrap();
    let mut old_outer_magic = MAGIC;
    old_outer_magic[3] = b'1';
    old_outer[..MAGIC.len()].copy_from_slice(&old_outer_magic);
    assert_eq!(decode(&old_outer, manifest), Err(Error::InvalidMagic));

    let mut old_inner = HARA_BUNDLE_MAGIC.to_vec();
    old_inner[2] = b'B';
    old_inner[3] = b'2';
    old_inner.extend_from_slice(b"legacy-bytecode");
    assert_eq!(
        encode(manifest, &old_inner),
        Err(Error::InvalidBytecodeMagic)
    );
}

#[test]
fn encoded_layout_matches_the_envelope_definition() {
    let manifest = b"golden-route-manifest";
    let bytecode = b"HBX0golden-bytecode";
    let bundle = encode(manifest, bytecode).unwrap();
    assert_eq!(bundle.len(), 36 + 40 + bytecode.len());
    assert_eq!(&bundle[..4], b"HAB0");
    assert_eq!(&bundle[4..36], &digest(&bundle[36..])[..]);
    assert_eq!(&bundle[36..40], &5u32.to_le_bytes()[..]);
    assert_eq!(&bundle[40..72], &digest(manifest)[..]);
    assert_eq!(&bundle[72..76], &(bytecode.len() as u32).to_le_bytes()[..]);
    assert_eq!(&bundle[76..], &bytecode[..]);
}

#[test]
fn rejects_short_empty_and_truncated_envelopes() {
    let manifest = b"manifest";
    assert_eq!(
        decode(&[0u8; 75], manifest),
        Err(Error::BundleTooSmall { actual: 75 })
    );
    assert_eq!(decode(&[0u8; 80], b""), Err(Error::EmptyManifest));

    let mut truncated = encode(manifest, &hbx0()).unwrap();
    truncated.pop();
    reseal(&mut truncated);
    assert_eq!(decode(&truncated, manifest), Err(Error::Truncated));

    let mut empty = encode(manifest, &hbx0()).unwrap();
    empty[72..76].copy_from_slice(&0u32.to_le_bytes());
    reseal(&mut empty);
    assert_eq!(decode(&empty, manifest), Err(Error::EmptyBytecode));
}

fn failure(kind: hoplite::bundle::IoKind) -> hoplite::bundle::IoFailure {
    hoplite::bundle::IoFailure { kind, message: "No such file or directory (os error 2)".into() }
}

#[test]
fn bounded_reads_refuse_irregular_large_and_changed_files() {
    let not_regular = check_bounded_metadata("/o/app.hbx", BUNDLE_FILE_CLASS, 8, Ok(FileMetadata { is_file: false, length: 1 }));
    assert_eq!(not_regular.unwrap_err().message(), "hoplite/application-bundle-file-not-regular: /o/app.hbx");
    let large = check_bounded_metadata("/o/app.hbx", BUNDLE_FILE_CLASS, 8, Ok(FileMetadata { is_file: true, length: 9 }));
    let large = large.unwrap_err();
    assert_eq!(large.message(), "hoplite/application-bundle-file-too-large: /o/app.hbx is 9 bytes; maximum is 8");
    assert_eq!(large.redacted(), "hoplite/application-bundle-file-too-large: 9 bytes exceeds 8");
    assert_eq!(
        check_bounded_metadata("/o/app.hbx", BUNDLE_FILE_CLASS, 8, Ok(FileMetadata { is_file: true, length: 8 })).unwrap(),
        8
    );
    let changed = check_bounded_read("/o/app.hbx", BUNDLE_FILE_CLASS, 8, 8, Ok(vec![1, 2, 3])).unwrap_err();
    assert_eq!(changed.message(), "hoplite/application-bundle-file-changed: /o/app.hbx was 8 bytes and read as 3");
    assert_eq!(changed.redacted(), "hoplite/application-bundle-file-changed: expected 8 bytes, read 3");
    let grown = check_bounded_read("/o/app.hbx", BUNDLE_FILE_CLASS, 2, 2, Ok(vec![1, 2, 3])).unwrap_err();
    assert_eq!(grown.redacted(), "hoplite/application-bundle-file-too-large: 3 bytes exceeds 2");
    assert_eq!(check_bounded_read("/o/app.hbx", BUNDLE_FILE_CLASS, 8, 3, Ok(vec![1, 2, 3])).unwrap(), vec![1, 2, 3]);
    let missing = open_failure("/o/apps.hta", "application-manifest", failure(IoKind::NotFound));
    assert_eq!(
        missing.message(),
        "hoplite/application-manifest-file-open: /o/apps.hta: No such file or directory (os error 2)"
    );
    assert_eq!(missing.redacted(), "hoplite/application-manifest-file-open: not-found");
    let unreadable = check_bounded_read("/o/app.hbx", BUNDLE_FILE_CLASS, 8, 8, Err(failure(IoKind::Other))).unwrap_err();
    assert_eq!(unreadable.redacted(), "hoplite/application-bundle-file-read: io-error");
}

#[test]
fn bundle_errors_read_as_their_codes() {
    assert_eq!(Error::EmptyManifest.message(), "hoplite/application-manifest-empty");
    assert_eq!(
        Error::ManifestTooLarge { actual: 9 }.message(),
        "hoplite/application-manifest-too-large: 9 bytes exceeds 8388608"
    );
    assert_eq!(
        Error::BundleTooSmall { actual: 12 }.message(),
        "hoplite/application-bundle-truncated: 12 bytes"
    );
    assert_eq!(
        Error::BundleTooLarge { actual: 70000000 }.message(),
        "hoplite/application-bundle-too-large: 70000000 bytes exceeds 67108940"
    );
    assert_eq!(
        Error::RuntimeAbiMismatch { actual: 4 }.message(),
        "hoplite/application-bundle-incompatible: runtime ABI 4, expected 5"
    );
    assert_eq!(Error::TrailingBytes { actual: 3 }.message(), "hoplite/application-bundle-trailing-bytes: 3");
    assert_eq!(Error::LengthOverflow.message(), "hoplite/application-bundle-length-overflow");
}
