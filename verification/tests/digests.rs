use raw_mirror::blob::raw_mirror_blob_relative_path;
use raw_mirror::clock::{millis_to_ms, ms_or_zero, now_ms, system_time_to_ms};
use raw_mirror::digest::{canonical_blake3, domain_digest, identifier, StreamDigest};
use raw_mirror::json::{
    array_value, canonical_json_value, integer_value, null_value, object_value, remove_key,
    text_value,
};
use raw_mirror::manifest::{
    admit_manifest_file, manifest_value, raw_mirror_manifest_blake3, raw_mirror_manifest_id,
    raw_mirror_original_path_blake3, ManifestFileError, RawMirrorCompressionEnvelope,
    RawMirrorDbLink, RawMirrorEncryptionEnvelope, RawMirrorManifestFile,
    RawMirrorVerificationRecord,
};
use raw_mirror::order::is_text_before;
use raw_mirror::path::MirrorPath;
use serde_json::Value;
use std::time::{Duration, UNIX_EPOCH};

fn parse(text: &str) -> Value {
    serde_json::from_str(text).unwrap()
}

fn hashed(message: &str) -> String {
    blake3::hash(message.as_bytes()).to_hex().to_string()
}

#[test]
fn stream_digest_of_nothing() {
    assert_eq!(
        StreamDigest::new().to_hex(),
        "af1349b9f5f9a1a6a0404dea36dcc9499bcb25c9adc112b7cc9a93cae41f3262"
    );
}

#[test]
fn stream_digest_does_not_depend_on_the_cuts() {
    let data: Vec<u8> = (0..5000u32).map(|i| (i % 251) as u8).collect();
    let whole = StreamDigest::new().update(&data).to_hex();
    let cut = StreamDigest::new()
        .update(&data[..1])
        .update(&[])
        .update(&data[1..3000])
        .update(&data[3000..]);
    assert_eq!(cut.to_hex(), whole);
    assert_eq!(whole, blake3::hash(&data).to_hex().to_string());
    assert!(raw_mirror_blob_relative_path(&whole).is_some());
}

#[test]
fn domain_digests() {
    assert_eq!(domain_digest("dom", b"body"), hashed("dom\0body"));
    assert_ne!(domain_digest("do", b"m\0body"), domain_digest("dom", b"body"));
    assert_eq!(identifier("dom", "00ff"), "dom-00ff");
}

#[test]
fn original_path_digest() {
    assert_eq!(
        raw_mirror_original_path_blake3("/home/é"),
        hashed("doctor-raw-mirror-original-path-v1\0/home/é")
    );
}

#[test]
fn texts_are_ordered_by_bytes() {
    let texts = ["", "A", "Z", "a", "aa", "ab", "b", "z", "é", "\u{ffff}", "\u{10000}"];
    for a in texts {
        for b in texts {
            assert_eq!(is_text_before(a, b), a < b, "{a:?} {b:?}");
        }
    }
}

#[test]
fn canonical_values_are_ordered() {
    let value = parse(r#"{"b":[{"z":1,"a":null}],"a":{"y":true,"x":-2.5},"B":"t"}"#);
    let ordered = canonical_json_value(value.clone());
    assert_eq!(
        serde_json::to_string(&ordered).unwrap(),
        r#"{"B":"t","a":{"x":-2.5,"y":true},"b":[{"a":null,"z":1}]}"#
    );
    assert_eq!(canonical_json_value(ordered.clone()), ordered);
    assert_eq!(ordered, value);
    assert_eq!(canonical_json_value(parse("7")), parse("7"));
    assert_eq!(canonical_json_value(parse("[]")), parse("[]"));
    assert_eq!(canonical_json_value(parse("{}")), parse("{}"));
}

#[test]
fn built_values() {
    let pairs = vec![
        ("k".to_string(), text_value("first")),
        ("a".to_string(), array_value(vec![null_value(), integer_value(-3)])),
        ("k".to_string(), integer_value(u64::MAX as i128)),
    ];
    let value = object_value(pairs);
    assert_eq!(value, parse(r#"{"a":[null,-3],"k":18446744073709551615}"#));
    assert_eq!(remove_key(value.clone(), "k"), parse(r#"{"a":[null,-3]}"#));
    assert_eq!(remove_key(value.clone(), "none"), value);
    assert_eq!(remove_key(parse("[1]"), "k"), parse("[1]"));
    assert_eq!(integer_value(i64::MIN as i128), parse("-9223372036854775808"));
}

#[test]
fn canonical_identifiers() {
    let id = canonical_blake3("dom", parse(r#"{"b":1,"a":[2,"x"]}"#));
    let expected = hashed("dom\0{\"a\":[2,\"x\"],\"b\":1}");
    assert_eq!(id, format!("dom-{expected}"));
    assert_eq!(id, canonical_blake3("dom", parse(r#"{"a":[2,"x"],"b":1}"#)));
}

#[test]
fn manifest_identifiers() {
    let with_host = raw_mirror_manifest_id("codex", "s1", "local", Some("h"), "op", "bb");
    let text = r#"{"blob_blake3":"bb","origin_host":"h","origin_kind":"local","original_path_blake3":"op","provider":"codex","source_id":"s1"}"#;
    let expected = hashed(&format!("doctor-raw-mirror-manifest-id-v1\0{text}"));
    assert_eq!(with_host, format!("doctor-raw-mirror-manifest-id-v1-{expected}"));
    let without = raw_mirror_manifest_id("codex", "s1", "local", None, "op", "bb");
    let text = text.replace("\"h\"", "null");
    let expected = hashed(&format!("doctor-raw-mirror-manifest-id-v1\0{text}"));
    assert_eq!(without, format!("doctor-raw-mirror-manifest-id-v1-{expected}"));
}

fn sample() -> RawMirrorManifestFile {
    RawMirrorManifestFile {
        schema_version: 1,
        manifest_kind: "kind".to_string(),
        manifest_id: "id".to_string(),
        blob_hash_algorithm: "blake3".to_string(),
        blob_relative_path: "blobs/x".to_string(),
        blob_blake3: "bb".to_string(),
        blob_size_bytes: u64::MAX,
        provider: "codex".to_string(),
        source_id: "s".to_string(),
        origin_kind: "local".to_string(),
        origin_host: None,
        original_path: "/p".to_string(),
        redacted_original_path: "[codex]/p".to_string(),
        original_path_blake3: "op".to_string(),
        captured_at_ms: -5,
        source_mtime_ms: Some(7),
        source_size_bytes: 9,
        compression: RawMirrorCompressionEnvelope {
            state: "none".to_string(),
            algorithm: None,
            uncompressed_size_bytes: Some(11),
        },
        encryption: RawMirrorEncryptionEnvelope {
            state: "none".to_string(),
            algorithm: Some("x".to_string()),
            key_id: None,
            envelope_version: Some(2),
        },
        db_links: vec![
            RawMirrorDbLink {
                conversation_id: Some(3),
                message_count: Some(4),
                source_path: Some("sp".to_string()),
                started_at_ms: None,
            },
            RawMirrorDbLink {
                conversation_id: None,
                message_count: None,
                source_path: None,
                started_at_ms: Some(-1),
            },
        ],
        verification: RawMirrorVerificationRecord {
            status: "ok".to_string(),
            verifier: "v".to_string(),
            content_blake3: Some("cb".to_string()),
            verified_at_ms: None,
        },
        manifest_blake3: Some("old".to_string()),
    }
}

const SAMPLE_WITHOUT_DIGEST: &str = r#"{"blob_blake3":"bb","blob_hash_algorithm":"blake3","blob_relative_path":"blobs/x","blob_size_bytes":18446744073709551615,"captured_at_ms":-5,"compression":{"algorithm":null,"state":"none","uncompressed_size_bytes":11},"db_links":[{"conversation_id":3,"message_count":4,"source_path":"sp","started_at_ms":null},{"conversation_id":null,"message_count":null,"source_path":null,"started_at_ms":-1}],"encryption":{"algorithm":"x","envelope_version":2,"key_id":null,"state":"none"},"manifest_id":"id","manifest_kind":"kind","origin_host":null,"origin_kind":"local","original_path":"/p","original_path_blake3":"op","provider":"codex","redacted_original_path":"[codex]/p","schema_version":1,"source_id":"s","source_mtime_ms":7,"source_size_bytes":9,"verification":{"content_blake3":"cb","status":"ok","verified_at_ms":null,"verifier":"v"}}"#;

#[test]
fn manifests_as_json() {
    let value = manifest_value(&sample());
    assert_eq!(value.get("manifest_blake3"), Some(&text_value("old")));
    let rest = remove_key(value, "manifest_blake3");
    assert_eq!(serde_json::to_string(&rest).unwrap(), SAMPLE_WITHOUT_DIGEST);
}

#[test]
fn manifest_digests() {
    let digest = raw_mirror_manifest_blake3(&sample());
    let expected = hashed(&format!("doctor-raw-mirror-manifest-v1\0{SAMPLE_WITHOUT_DIGEST}"));
    assert_eq!(digest, format!("doctor-raw-mirror-manifest-v1-{expected}"));
    let mut recorded = sample();
    recorded.manifest_blake3 = Some(digest.clone());
    assert_eq!(raw_mirror_manifest_blake3(&recorded), digest);
    recorded.manifest_blake3 = None;
    assert_eq!(raw_mirror_manifest_blake3(&recorded), digest);
    recorded.source_id = "other".to_string();
    assert_ne!(raw_mirror_manifest_blake3(&recorded), digest);
}

#[test]
fn manifest_files() {
    let path = MirrorPath::from_text("/m.json");
    assert!(admit_manifest_file(&path, false, true).is_ok());
    let link = admit_manifest_file(&path, true, false).unwrap_err();
    assert!(matches!(link, ManifestFileError::Symlink(_)));
    assert_eq!(link.message(), "refusing to read symlink raw mirror manifest /m.json");
    let dir = admit_manifest_file(&path, false, false).unwrap_err();
    assert!(matches!(dir, ManifestFileError::NotFile(_)));
    assert_eq!(dir.message(), "refusing to read non-file raw mirror manifest /m.json");
}

#[test]
fn times() {
    assert_eq!(system_time_to_ms(UNIX_EPOCH), Some(0));
    assert_eq!(system_time_to_ms(UNIX_EPOCH + Duration::from_micros(1_234_999)), Some(1234));
    assert_eq!(system_time_to_ms(UNIX_EPOCH - Duration::from_millis(1)), None);
    assert_eq!(millis_to_ms(i64::MAX as u128), Some(i64::MAX));
    assert_eq!(millis_to_ms(i64::MAX as u128 + 1), None);
    assert_eq!(ms_or_zero(None), 0);
    assert_eq!(ms_or_zero(Some(-4)), -4);
    assert!(now_ms() > 1_600_000_000_000);
}

#[test]
fn times_follow_the_clock() {
    let early = UNIX_EPOCH + Duration::from_nanos(1_999_999);
    let late = UNIX_EPOCH + Duration::from_nanos(2_000_000);
    assert_eq!(system_time_to_ms(early), Some(1));
    assert_eq!(system_time_to_ms(late), Some(2));
}

#[test]
fn manifest_identifiers_tell_their_parts_apart() {
    let ids = [
        raw_mirror_manifest_id("a", "b", "k", None, "op", "bb"),
        raw_mirror_manifest_id("a", "b", "k", Some(""), "op", "bb"),
        raw_mirror_manifest_id("a", "b", "k", Some("null"), "op", "bb"),
        raw_mirror_manifest_id("b", "a", "k", None, "op", "bb"),
        raw_mirror_manifest_id("ab", "", "k", None, "op", "bb"),
        raw_mirror_manifest_id("", "ab", "k", None, "op", "bb"),
        raw_mirror_manifest_id("a", "b", "k", None, "bb", "op"),
        raw_mirror_manifest_id("a", "b", "K", None, "op", "bb"),
    ];
    for (i, a) in ids.iter().enumerate() {
        for (j, b) in ids.iter().enumerate() {
            assert_eq!(a == b, i == j);
        }
    }
}

#[test]
fn manifest_digests_tell_manifests_apart() {
    let digest = raw_mirror_manifest_blake3(&sample());
    let mut swapped = sample();
    swapped.db_links.reverse();
    let mut fewer = sample();
    fewer.db_links.pop();
    let mut envelope = sample();
    envelope.compression.algorithm = Some(String::new());
    let mut version = sample();
    version.encryption.envelope_version = None;
    let mut verified = sample();
    verified.verification.content_blake3 = Some("cc".to_string());
    let mut captured = sample();
    captured.captured_at_ms = 5;
    let mut host = sample();
    host.origin_host = Some(String::new());
    for other in [swapped, fewer, envelope, version, verified, captured, host] {
        assert_ne!(raw_mirror_manifest_blake3(&other), digest);
    }
    let mut recorded = sample();
    recorded.manifest_blake3 = None;
    assert_eq!(raw_mirror_manifest_blake3(&recorded), digest);
}

#[test]
fn integers_and_fractions_are_told_apart() {
    let ids = [
        canonical_blake3("dom", parse("1")),
        canonical_blake3("dom", parse("1.0")),
        canonical_blake3("dom", parse("-1")),
        canonical_blake3("dom", integer_value(0)),
        canonical_blake3("dom", parse("-0.0")),
    ];
    for (i, a) in ids.iter().enumerate() {
        for (j, b) in ids.iter().enumerate() {
            assert_eq!(a == b, i == j);
        }
    }
    assert_eq!(canonical_blake3("dom", integer_value(1)), ids[0]);
}
