use base64::engine::general_purpose::URL_SAFE_NO_PAD;
use base64::Engine;
use hoplite::hal::HalValue;
use hoplite::host::{
    base64url_answer, canonical_value_digest, clock_answer, dispatch, jwk_members, Dispatch, Json,
};
use p256::ecdsa::signature::Signer;
use sha2::{Digest, Sha256};

fn call(method: &str, args: Vec<HalValue>) -> Result<HalValue, String> {
    match dispatch("hoplite.host", method, &args) {
        Dispatch::Answered(result) => result,
        Dispatch::EncodeCanonical => panic!("unexpected canonical encoding request"),
        Dispatch::ReadClock => panic!("unexpected clock request"),
    }
}

fn bytes_of(result: Result<HalValue, String>) -> Vec<u8> {
    match result {
        Ok(HalValue::Bytes(bytes)) => bytes,
        Ok(other) => panic!("expected bytes, got {other:?}"),
        Err(error) => panic!("expected bytes, got error {error}"),
    }
}

fn text_of(result: Result<HalValue, String>) -> String {
    match result {
        Ok(HalValue::String(text)) => text,
        Ok(other) => panic!("expected a string, got {other:?}"),
        Err(error) => panic!("expected a string, got error {error}"),
    }
}

fn flag_of(result: Result<HalValue, String>) -> bool {
    match result {
        Ok(HalValue::Bool(flag)) => flag,
        Ok(other) => panic!("expected a boolean, got {other:?}"),
        Err(error) => panic!("expected a boolean, got error {error}"),
    }
}

fn error_of(result: Result<HalValue, String>) -> String {
    match result {
        Ok(value) => panic!("expected an error, got {value:?}"),
        Err(error) => error,
    }
}

fn string(text: &str) -> HalValue {
    HalValue::String(text.into())
}

fn hex(bytes: &[u8]) -> String {
    bytes.iter().map(|byte| format!("{byte:02x}")).collect()
}

#[test]
fn secret_access_is_closed_without_a_provider() {
    let error = error_of(call("secret", vec![string("auth/signing-key")]));
    assert!(error.contains("requires an installed secret provider"));
}

#[test]
fn verifies_browser_compatible_p256_p1363_signatures() {
    let signing_key =
        p256::ecdsa::SigningKey::from_bytes((&[7_u8; 32]).into()).expect("fixed test key");
    let message = b"tahto.device-request/1\nsha256:fixture";
    let signature: p256::ecdsa::Signature = signing_key.sign(message);
    let public_key = signing_key.verifying_key().to_encoded_point(false);
    let verified = call(
        "verify-signature",
        vec![
            string("p256-sha256"),
            HalValue::Bytes(public_key.as_bytes().to_vec()),
            HalValue::Bytes(message.to_vec()),
            HalValue::Bytes(signature.to_bytes().to_vec()),
        ],
    );
    assert!(flag_of(verified));

    let rejected = call(
        "verify-signature",
        vec![
            string("p256-sha256"),
            HalValue::Bytes(public_key.as_bytes().to_vec()),
            HalValue::Bytes(b"tampered".to_vec()),
            HalValue::Bytes(signature.to_bytes().to_vec()),
        ],
    );
    assert!(!flag_of(rejected));
}

#[test]
fn decodes_only_bounded_unpadded_base64url() {
    assert_eq!(
        bytes_of(call("base64url-decode", vec![string("aGVsbG8td29ybGQ")])),
        b"hello-world".to_vec()
    );
    assert!(call("base64url-decode", vec![string("aGVsbG8=")]).is_err());
}

#[test]
fn converts_a_strict_public_p256_jwk_to_sec1() {
    let signing_key =
        p256::ecdsa::SigningKey::from_bytes((&[9_u8; 32]).into()).expect("fixed test key");
    let point = signing_key.verifying_key().to_encoded_point(false);
    let jwk = format!(
        "{{\"crv\":\"P-256\",\"ext\":true,\"key_ops\":[\"verify\"],\"kty\":\"EC\",\"x\":\"{}\",\"y\":\"{}\"}}",
        URL_SAFE_NO_PAD.encode(point.x().expect("x coordinate")),
        URL_SAFE_NO_PAD.encode(point.y().expect("y coordinate")),
    );
    assert_eq!(
        bytes_of(call("p256-jwk-sec1", vec![string(&jwk)])),
        point.as_bytes().to_vec()
    );
}

#[test]
fn decodes_only_canonical_bounded_hex() {
    assert_eq!(bytes_of(call("hex-decode", vec![string("00a1ff")])), vec![0, 161, 255]);
    assert!(call("hex-decode", vec![string("A1")]).is_err());
    assert_eq!(
        text_of(call("hex-encode", vec![HalValue::Bytes(vec![0, 161, 255])])),
        "00a1ff"
    );
}

#[test]
fn canonical_frames_are_digested_as_sha256_text() {
    let frame = b"HTA1 fixture frame".to_vec();
    let expected = format!("sha256:{}", hex(&Sha256::digest(&frame)));
    assert_eq!(text_of(canonical_value_digest(Ok(frame))), expected);
    assert_eq!(
        error_of(canonical_value_digest(Err("unsupported value".into()))),
        "cannot encode canonical HTA value: unsupported value"
    );
    assert_eq!(
        error_of(canonical_value_digest(Ok(vec![0; 8 * 1024 * 1024 + 1]))),
        "canonical HTA value exceeds the 8 MiB limit"
    );
    assert!(matches!(
        dispatch("hoplite.host", "canonical-value-digest", &[HalValue::Bool(true)]),
        Dispatch::EncodeCanonical
    ));
    assert_eq!(
        error_of(call("canonical-value-digest", vec![])),
        "canonical-value-digest requires one portable value"
    );
}

#[test]
fn hashes_sha256_of_bytes_buffers_and_strings() {
    let expected = Sha256::digest(b"hoplite").to_vec();
    assert_eq!(bytes_of(call("hash", vec![string("sha256"), string("hoplite")])), expected);
    assert_eq!(
        bytes_of(call("hash", vec![string("sha256"), HalValue::Bytes(b"hoplite".to_vec())])),
        expected
    );
    assert_eq!(
        bytes_of(call("hash", vec![string("sha256"), HalValue::ByteBuffer(b"hoplite".to_vec())])),
        expected
    );
    assert_eq!(
        hex(&bytes_of(call("hash", vec![string("sha256"), string("abc")]))),
        "ba7816bf8f01cfea414140de5dae2223b00361a396177a9cb410ff61f20015ad"
    );
    assert_eq!(
        error_of(call("hash", vec![string("sha512"), string("abc")])),
        "hash currently supports only sha256"
    );
    assert_eq!(
        error_of(call("hash", vec![string("sha256")])),
        "hash currently supports only sha256"
    );
    assert_eq!(
        error_of(call("hash", vec![HalValue::Number(1), string("abc")])),
        "hash algorithm must be a string"
    );
    assert_eq!(
        error_of(call("hash", vec![string("sha256"), HalValue::Nil])),
        "hash value must be bytes or a string"
    );
}

#[test]
fn random_bytes_have_the_requested_size() {
    assert_eq!(bytes_of(call("random-bytes", vec![HalValue::Number(32)])).len(), 32);
    assert_eq!(bytes_of(call("random-bytes", vec![HalValue::Number(4096)])).len(), 4096);
    assert_eq!(
        error_of(call("random-bytes", vec![HalValue::Number(0)])),
        "random-bytes size must be between 1 and 4096"
    );
    assert_eq!(
        error_of(call("random-bytes", vec![HalValue::Number(4097)])),
        "random-bytes size must be between 1 and 4096"
    );
    assert_eq!(
        error_of(call("random-bytes", vec![HalValue::Number(8), HalValue::Nil])),
        "random-bytes size must be between 1 and 4096"
    );
    assert_eq!(
        error_of(call("random-bytes", vec![])),
        "random-bytes size must be an integer"
    );
}

#[test]
fn hex_refusals_name_their_cause() {
    assert_eq!(
        error_of(call("hex-decode", vec![string("abc")])),
        "hex value must be non-empty, even-length, and at most 1 MiB decoded"
    );
    assert_eq!(
        error_of(call("hex-decode", vec![string("")])),
        "hex value must be non-empty, even-length, and at most 1 MiB decoded"
    );
    assert_eq!(
        error_of(call("hex-decode", vec![string("0g")])),
        "hex value must use canonical lowercase hexadecimal"
    );
    assert_eq!(
        error_of(call("hex-decode", vec![HalValue::Bytes(vec![1])])),
        "hex value must be a string"
    );
    assert_eq!(
        error_of(call("hex-decode", vec![])),
        "hex-decode requires one lowercase string"
    );
    assert_eq!(
        error_of(call("hex-encode", vec![HalValue::Bytes(vec![])])),
        "hex value must contain between 1 byte and 1 MiB"
    );
    assert_eq!(
        error_of(call("hex-encode", vec![string("00")])),
        "hex value must be bytes"
    );
    let all: Vec<u8> = (0..=255).collect();
    let text = text_of(call("hex-encode", vec![HalValue::Bytes(all.clone())]));
    assert_eq!(bytes_of(call("hex-decode", vec![string(&text)])), all);
}

#[test]
fn base64url_refusals_name_their_cause() {
    assert_eq!(
        error_of(call("base64url-decode", vec![string("")])),
        "base64url value must be non-empty, unpadded, and at most 1 MiB decoded"
    );
    assert_eq!(
        error_of(call("base64url-decode", vec![string("a+b/")])),
        "base64url value is invalid"
    );
    assert_eq!(bytes_of(call("base64url-decode", vec![string("aGVsbG8")])), b"hello".to_vec());
    assert_eq!(bytes_of(call("base64url-decode", vec![string("_-8")])), vec![0xff, 0xef]);
    assert_eq!(
        error_of(base64url_answer(Some(vec![0; 1_048_577]))),
        "base64url value exceeds the 1 MiB decoded limit"
    );
    assert_eq!(error_of(base64url_answer(None)), "base64url value is invalid");
}

#[test]
fn ed25519_signatures_are_checked() {
    let signing_key = ed25519_dalek::SigningKey::from_bytes(&[5_u8; 32]);
    let message = b"hoplite ed25519 fixture";
    let signature = ed25519_dalek::Signer::sign(&signing_key, message);
    let public_key = signing_key.verifying_key().to_bytes().to_vec();
    let args = |message: &[u8]| {
        vec![
            string("ed25519"),
            HalValue::Bytes(public_key.clone()),
            HalValue::Bytes(message.to_vec()),
            HalValue::Bytes(signature.to_bytes().to_vec()),
        ]
    };
    assert!(flag_of(call("verify-signature", args(message))));
    assert!(!flag_of(call("verify-signature", args(b"other message"))));
    assert_eq!(
        error_of(call(
            "verify-signature",
            vec![
                string("ed25519"),
                HalValue::Bytes(vec![1; 31]),
                HalValue::Bytes(message.to_vec()),
                HalValue::Bytes(vec![0; 64]),
            ],
        )),
        "Ed25519 public key must contain 32 bytes"
    );
    assert_eq!(
        error_of(call(
            "verify-signature",
            vec![
                string("rsa"),
                HalValue::Bytes(public_key.clone()),
                HalValue::Bytes(message.to_vec()),
                HalValue::Bytes(vec![0; 64]),
            ],
        )),
        "verify-signature supports only ed25519 and p256-sha256"
    );
    assert_eq!(
        error_of(call("verify-signature", vec![string("ed25519")])),
        "verify-signature requires algorithm, public key, message, and signature"
    );
}

#[test]
fn p256_refusals_name_their_cause() {
    let mut not_a_point = vec![4_u8];
    not_a_point.extend([0_u8; 64]);
    assert_eq!(
        error_of(call(
            "verify-signature",
            vec![
                string("p256-sha256"),
                HalValue::Bytes(not_a_point),
                string("message"),
                HalValue::Bytes(vec![1; 64]),
            ],
        )),
        "P-256 SEC1 public key is invalid"
    );
    let signing_key =
        p256::ecdsa::SigningKey::from_bytes((&[7_u8; 32]).into()).expect("fixed test key");
    let public_key = signing_key.verifying_key().to_encoded_point(false);
    assert_eq!(
        error_of(call(
            "verify-signature",
            vec![
                string("p256-sha256"),
                HalValue::Bytes(public_key.as_bytes().to_vec()),
                string("message"),
                HalValue::Bytes(vec![0; 64]),
            ],
        )),
        "P-256 P1363 signature is invalid"
    );
}

#[test]
fn jwk_documents_are_closed() {
    let members = |extra: &str| {
        format!(
            "{{\"crv\":\"P-256\",\"ext\":true,\"key_ops\":[\"verify\"],\"kty\":\"EC\",\"x\":\"AA\",\"y\":\"AA\"{extra}}}"
        )
    };
    assert_eq!(
        error_of(call("p256-jwk-sec1", vec![string(&members(",\"d\":\"secret\""))])),
        "P-256 public JWK fields are invalid"
    );
    assert_eq!(
        error_of(call("p256-jwk-sec1", vec![string("[1, 2]")])),
        "P-256 public JWK must be an object"
    );
    assert_eq!(
        error_of(call("p256-jwk-sec1", vec![string("{")])),
        "P-256 public JWK is invalid JSON"
    );
    assert_eq!(
        error_of(call("p256-jwk-sec1", vec![string(&members(""))])),
        "P-256 public JWK x coordinate must contain 32 bytes"
    );
    assert_eq!(
        error_of(call(
            "p256-jwk-sec1",
            vec![string(
                "{\"crv\":\"P-256\",\"ext\":false,\"key_ops\":[\"verify\"],\"kty\":\"EC\",\"x\":\"AA\",\"y\":\"AA\"}"
            )]
        )),
        "P-256 public JWK parameters are invalid"
    );
    assert_eq!(
        error_of(call("p256-jwk-sec1", vec![string(&"x".repeat(2049))])),
        "P-256 public JWK exceeds 2048 bytes"
    );
    let document = Some(Json::Object(vec![
        ("crv".into(), Json::Text("P-256".into())),
        ("ext".into(), Json::Bool(true)),
        ("key_ops".into(), Json::Array(vec![Json::Text("verify".into())])),
        ("kty".into(), Json::Text("EC".into())),
        ("x".into(), Json::Text("AA".into())),
        ("y".into(), Json::Text("AA".into())),
    ]));
    assert_eq!(jwk_members(&document).map(|members| members.len()), Ok(6));
    let sign_key = Some(Json::Object(vec![
        ("crv".into(), Json::Text("P-256".into())),
        ("ext".into(), Json::Bool(true)),
        ("key_ops".into(), Json::Array(vec![Json::Text("sign".into())])),
        ("kty".into(), Json::Text("EC".into())),
        ("x".into(), Json::Text("AA".into())),
        ("y".into(), Json::Text("AA".into())),
    ]));
    assert_eq!(
        jwk_members(&sign_key).map(|members| members.len()),
        Err("P-256 public JWK parameters are invalid".to_string())
    );
}

#[test]
fn unknown_services_and_operations_are_refused() {
    match dispatch("hoplite.other", "hash", &[]) {
        Dispatch::Answered(Err(error)) => {
            assert_eq!(error, "unknown Hoplite host service \"hoplite.other\"")
        }
        _ => panic!("expected a refusal"),
    }
    assert_eq!(
        error_of(call("teleport", vec![])),
        "unknown hoplite.host operation \"teleport\""
    );
    assert_eq!(
        error_of(call("now", vec![HalValue::Nil])),
        "unknown hoplite.host operation \"now\""
    );
    assert!(matches!(dispatch("hoplite.host", "now", &[]), Dispatch::ReadClock));
}

#[test]
fn clock_readings_become_integers() {
    assert!(matches!(clock_answer(Some(1_700_000_000)), Ok(HalValue::Number(1_700_000_000))));
    assert_eq!(error_of(clock_answer(None)), "system clock is before the Unix epoch");
    assert_eq!(error_of(clock_answer(Some(u64::MAX))), "system clock is out of range");
}

#[test]
fn base64url_refuses_leftover_bits_and_lone_sextets() {
    assert_eq!(bytes_of(call("base64url-decode", vec![string("aGk")])), b"hi".to_vec());
    assert_eq!(error_of(call("base64url-decode", vec![string("aGl")])), "base64url value is invalid");
    assert_eq!(error_of(call("base64url-decode", vec![string("aGVsbG8td")])), "base64url value is invalid");
    assert_eq!(error_of(call("base64url-decode", vec![string("aG k")])), "base64url value is invalid");
    assert!(URL_SAFE_NO_PAD.decode("aGl").is_err());
    assert_eq!(bytes_of(call("base64url-decode", vec![string("AAAA")])), vec![0, 0, 0]);
}
