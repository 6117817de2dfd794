//! Manifests: their schema, their identifiers and their digests.

use crate::digest::{
    canonical_blake3, canonical_id, digest_text, domain_digest, domain_message, is_digest_text,
    is_identifier, is_lower_hex, is_zero_free, law_domain_messages_are_apart,
};
use crate::identity::{
    law_origin_json_tells_origins_apart, law_undigested_json_tells_manifests_apart,
    lemma_origin_keys, lemma_undigested_json, manifests_do_not_collide, origin_id, origin_json,
    origins_do_not_collide, same_but_for_digest, undigested_json, ManifestOrigin,
};
use crate::json::{
    array_value, integer_value, is_said, json_of, jsons_of, law_ordered_is_canonical,
    law_removing_undoes_setting, null_value, object_value, pairs_of, remove_key, sorted_members,
    text_value, Json, Member,
};
use crate::manifest_path::{
    is_manifest_parts, law_manifest_path_round_trip, manifest_path, MANIFESTS_DIR, MANIFEST_ENDING,
};
use crate::path::{is_absolute, path_parts, MirrorPath, Part, SEPARATOR};
use crate::text::lossy_text;
use vstd::prelude::*;
use vstd::string::StringSliceAdditionalSpecFns;
use vstd::utf8::{decode_utf8, encode_utf8, is_ascii_chars, valid_utf8};

verus! {

/// The domain of the digests of original paths.
pub const ORIGINAL_PATH_DOMAIN: &'static str = "doctor-raw-mirror-original-path-v1";

/// The domain of manifest identifiers.
pub const MANIFEST_ID_DOMAIN: &'static str = "doctor-raw-mirror-manifest-id-v1";

/// The domain of manifest digests.
pub const MANIFEST_DOMAIN: &'static str = "doctor-raw-mirror-manifest-v1";

/// The member of a manifest that holds the manifest's own digest.
pub const MANIFEST_DIGEST_KEY: &'static str = "manifest_blake3";

/// A conversation in the database that came of a mirrored source.
#[derive(Debug, Clone, PartialEq, Eq)]
pub struct RawMirrorDbLink {
    pub conversation_id: Option<i64>,
    pub message_count: Option<usize>,
    pub source_path: Option<String>,
    pub started_at_ms: Option<i64>,
}

/// How a blob is compressed.
#[derive(Debug, Clone)]
pub struct RawMirrorCompressionEnvelope {
    pub state: String,
    pub algorithm: Option<String>,
    pub uncompressed_size_bytes: Option<u64>,
}

/// How a blob is encrypted.
#[derive(Debug, Clone)]
pub struct RawMirrorEncryptionEnvelope {
    pub state: String,
    pub algorithm: Option<String>,
    pub key_id: Option<String>,
    pub envelope_version: Option<u32>,
}

/// When and how a blob was last verified.
#[derive(Debug, Clone)]
pub struct RawMirrorVerificationRecord {
    pub status: String,
    pub verifier: String,
    pub content_blake3: Option<String>,
    pub verified_at_ms: Option<i64>,
}

/// The manifest of one mirrored source.
#[derive(Debug, Clone)]
pub struct RawMirrorManifestFile {
    pub schema_version: u32,
    pub manifest_kind: String,
    pub manifest_id: String,
    pub blob_hash_algorithm: String,
    pub blob_relative_path: String,
    pub blob_blake3: String,
    pub blob_size_bytes: u64,
    pub provider: String,
    pub source_id: String,
    pub origin_kind: String,
    pub origin_host: Option<String>,
    pub original_path: String,
    pub redacted_original_path: String,
    pub original_path_blake3: String,
    pub captured_at_ms: i64,
    pub source_mtime_ms: Option<i64>,
    pub source_size_bytes: u64,
    pub compression: RawMirrorCompressionEnvelope,
    pub encryption: RawMirrorEncryptionEnvelope,
    pub db_links: Vec<RawMirrorDbLink>,
    pub verification: RawMirrorVerificationRecord,
    pub manifest_blake3: Option<String>,
}

// ---------------------------------------------------------------------------
// Manifests as JSON
// ---------------------------------------------------------------------------

/// A text that may be missing, as JSON.
pub open spec fn optional_text_json(text: Option<Seq<char>>) -> Json {
    match text {
        Some(chars) => Json::Text(chars),
        None => Json::Null,
    }
}

/// An integer that may be missing, as JSON.
pub open spec fn optional_integer_json(n: Option<int>) -> Json {
    match n {
        Some(value) => Json::Integer(value),
        None => Json::Null,
    }
}

/// The characters of a text that may be missing.
pub open spec fn chars_of(text: Option<String>) -> Option<Seq<char>> {
    match text {
        Some(held) => Some(held@),
        None => None,
    }
}

/// The members of a database link.
pub open spec fn db_link_members(link: RawMirrorDbLink) -> Seq<Member> {
    seq![
        ("conversation_id"@, optional_integer_json(match link.conversation_id {
            Some(n) => Some(n as int),
            None => None,
        })),
        ("message_count"@, optional_integer_json(match link.message_count {
            Some(n) => Some(n as int),
            None => None,
        })),
        ("source_path"@, optional_text_json(chars_of(link.source_path))),
        ("started_at_ms"@, optional_integer_json(match link.started_at_ms {
            Some(n) => Some(n as int),
            None => None,
        })),
    ]
}

/// A database link, as JSON.
pub open spec fn db_link_json(link: RawMirrorDbLink) -> Json {
    Json::Object(sorted_members(db_link_members(link)))
}

/// The members of a compression envelope.
pub open spec fn compression_members(envelope: RawMirrorCompressionEnvelope) -> Seq<Member> {
    seq![
        ("state"@, Json::Text(envelope.state@)),
        ("algorithm"@, optional_text_json(chars_of(envelope.algorithm))),
        (
            "uncompressed_size_bytes"@,
            optional_integer_json(match envelope.uncompressed_size_bytes {
                Some(n) => Some(n as int),
                None => None,
            }),
        ),
    ]
}

/// A compression envelope, as JSON.
pub open spec fn compression_json(envelope: RawMirrorCompressionEnvelope) -> Json {
    Json::Object(sorted_members(compression_members(envelope)))
}

/// The members of an encryption envelope.
pub open spec fn encryption_members(envelope: RawMirrorEncryptionEnvelope) -> Seq<Member> {
    seq![
        ("state"@, Json::Text(envelope.state@)),
        ("algorithm"@, optional_text_json(chars_of(envelope.algorithm))),
        ("key_id"@, optional_text_json(chars_of(envelope.key_id))),
        (
            "envelope_version"@,
            optional_integer_json(match envelope.envelope_version {
                Some(n) => Some(n as int),
                None => None,
            }),
        ),
    ]
}

/// An encryption envelope, as JSON.
pub open spec fn encryption_json(envelope: RawMirrorEncryptionEnvelope) -> Json {
    Json::Object(sorted_members(encryption_members(envelope)))
}

/// The members of a verification record.
pub open spec fn verification_members(record: RawMirrorVerificationRecord) -> Seq<Member> {
    seq![
        ("status"@, Json::Text(record.status@)),
        ("verifier"@, Json::Text(record.verifier@)),
        ("content_blake3"@, optional_text_json(chars_of(record.content_blake3))),
        ("verified_at_ms"@, optional_integer_json(match record.verified_at_ms {
            Some(n) => Some(n as int),
            None => None,
        })),
    ]
}

/// A verification record, as JSON.
pub open spec fn verification_json(record: RawMirrorVerificationRecord) -> Json {
    Json::Object(sorted_members(verification_members(record)))
}

/// The members of a manifest but for its own digest.
pub open spec fn manifest_members(manifest: RawMirrorManifestFile) -> Seq<Member> {
    seq![
        ("schema_version"@, Json::Integer(manifest.schema_version as int)),
        ("manifest_kind"@, Json::Text(manifest.manifest_kind@)),
        ("manifest_id"@, Json::Text(manifest.manifest_id@)),
        ("blob_hash_algorithm"@, Json::Text(manifest.blob_hash_algorithm@)),
        ("blob_relative_path"@, Json::Text(manifest.blob_relative_path@)),
        ("blob_blake3"@, Json::Text(manifest.blob_blake3@)),
        ("blob_size_bytes"@, Json::Integer(manifest.blob_size_bytes as int)),
        ("provider"@, Json::Text(manifest.provider@)),
        ("source_id"@, Json::Text(manifest.source_id@)),
        ("origin_kind"@, Json::Text(manifest.origin_kind@)),
        ("origin_host"@, optional_text_json(chars_of(manifest.origin_host))),
        ("original_path"@, Json::Text(manifest.original_path@)),
        ("redacted_original_path"@, Json::Text(manifest.redacted_original_path@)),
        ("original_path_blake3"@, Json::Text(manifest.original_path_blake3@)),
        ("captured_at_ms"@, Json::Integer(manifest.captured_at_ms as int)),
        ("source_mtime_ms"@, optional_integer_json(match manifest.source_mtime_ms {
            Some(n) => Some(n as int),
            None => None,
        })),
        ("source_size_bytes"@, Json::Integer(manifest.source_size_bytes as int)),
        ("compression"@, compression_json(manifest.compression)),
        ("encryption"@, encryption_json(manifest.encryption)),
        (
            "db_links"@,
            Json::Array(manifest.db_links@.map_values(|link: RawMirrorDbLink| db_link_json(link))),
        ),
        ("verification"@, verification_json(manifest.verification)),
    ]
}

/// A manifest, as JSON.
pub open spec fn manifest_json(manifest: RawMirrorManifestFile) -> Json {
    Json::Object(
        sorted_members(
            manifest_members(manifest).push(
                (MANIFEST_DIGEST_KEY@, optional_text_json(chars_of(manifest.manifest_blake3))),
            ),
        ),
    )
}

fn optional_text_value(text: &Option<String>) -> (value: serde_json::Value)
    ensures
        json_of(value) == optional_text_json(chars_of(*text)),
{
    match text {
        Some(held) => text_value(held.as_str()),
        None => null_value(),
    }
}

fn optional_integer_value(n: Option<i128>) -> (value: serde_json::Value)
    requires
        n is Some ==> i64::MIN <= n->0 <= u64::MAX,
    ensures
        json_of(value) == optional_integer_json(match n {
            Some(held) => Some(held as int),
            None => None,
        }),
{
    match n {
        Some(held) => integer_value(held),
        None => null_value(),
    }
}

/// Adds a member behind the others.
fn add_member(pairs: &mut Vec<(String, serde_json::Value)>, key: &str, value: serde_json::Value)
    ensures
        pairs_of(final(pairs)@) == pairs_of(old(pairs)@).push((key@, json_of(value))),
{
    let ghost before = pairs@;
    let ghost json = json_of(value);
    pairs.push((key.to_owned(), value));
    assert(pairs_of(pairs@) =~= pairs_of(before).push((key@, json)));
}

fn optional_i64(n: Option<i64>) -> (wide: Option<i128>)
    ensures
        wide is Some <==> n is Some,
        n is Some ==> wide->0 == n->0,
{
    match n {
        Some(held) => Some(held as i128),
        None => None,
    }
}

fn db_link_value(link: &RawMirrorDbLink) -> (value: serde_json::Value)
    ensures
        json_of(value) == db_link_json(*link),
{
    let message_count: Option<i128> = match link.message_count {
        Some(n) => Some(n as i128),
        None => None,
    };
    let mut pairs: Vec<(String, serde_json::Value)> = Vec::new();
    assert(pairs_of(pairs@) =~= Seq::<Member>::empty());
    add_member(
        &mut pairs,
        "conversation_id",
        optional_integer_value(optional_i64(link.conversation_id)),
    );
    add_member(&mut pairs, "message_count", optional_integer_value(message_count));
    add_member(&mut pairs, "source_path", optional_text_value(&link.source_path));
    add_member(
        &mut pairs,
        "started_at_ms",
        optional_integer_value(optional_i64(link.started_at_ms)),
    );
    assert(pairs_of(pairs@) =~= db_link_members(*link));
    object_value(pairs)
}

fn compression_value(envelope: &RawMirrorCompressionEnvelope) -> (value: serde_json::Value)
    ensures
        json_of(value) == compression_json(*envelope),
{
    let size: Option<i128> = match envelope.uncompressed_size_bytes {
        Some(n) => Some(n as i128),
        None => None,
    };
    let mut pairs: Vec<(String, serde_json::Value)> = Vec::new();
    assert(pairs_of(pairs@) =~= Seq::<Member>::empty());
    add_member(&mut pairs, "state", text_value(envelope.state.as_str()));
    add_member(&mut pairs, "algorithm", optional_text_value(&envelope.algorithm));
    add_member(&mut pairs, "uncompressed_size_bytes", optional_integer_value(size));
    assert(pairs_of(pairs@) =~= compression_members(*envelope));
    object_value(pairs)
}

fn encryption_value(envelope: &RawMirrorEncryptionEnvelope) -> (value: serde_json::Value)
    ensures
        json_of(value) == encryption_json(*envelope),
{
    let version: Option<i128> = match envelope.envelope_version {
        Some(n) => Some(n as i128),
        None => None,
    };
    let mut pairs: Vec<(String, serde_json::Value)> = Vec::new();
    assert(pairs_of(pairs@) =~= Seq::<Member>::empty());
    add_member(&mut pairs, "state", text_value(envelope.state.as_str()));
    add_member(&mut pairs, "algorithm", optional_text_value(&envelope.algorithm));
    add_member(&mut pairs, "key_id", optional_text_value(&envelope.key_id));
    add_member(&mut pairs, "envelope_version", optional_integer_value(version));
    assert(pairs_of(pairs@) =~= encryption_members(*envelope));
    object_value(pairs)
}

fn verification_value(record: &RawMirrorVerificationRecord) -> (value: serde_json::Value)
    ensures
        json_of(value) == verification_json(*record),
{
    let mut pairs: Vec<(String, serde_json::Value)> = Vec::new();
    assert(pairs_of(pairs@) =~= Seq::<Member>::empty());
    add_member(&mut pairs, "status", text_value(record.status.as_str()));
    add_member(&mut pairs, "verifier", text_value(record.verifier.as_str()));
    add_member(&mut pairs, "content_blake3", optional_text_value(&record.content_blake3));
    add_member(
        &mut pairs,
        "verified_at_ms",
        optional_integer_value(optional_i64(record.verified_at_ms)),
    );
    assert(pairs_of(pairs@) =~= verification_members(*record));
    object_value(pairs)
}

fn db_links_value(links: &Vec<RawMirrorDbLink>) -> (value: serde_json::Value)
    ensures
        json_of(value) == Json::Array(
            links@.map_values(|link: RawMirrorDbLink| db_link_json(link)),
        ),
{
    let ghost all = links@.map_values(|link: RawMirrorDbLink| db_link_json(link));
    let mut items: Vec<serde_json::Value> = Vec::new();
    let mut i: usize = 0;
    assert(jsons_of(items@) =~= all.take(0));
    while i < links.len()
        invariant
            i <= links@.len(),
            all == links@.map_values(|link: RawMirrorDbLink| db_link_json(link)),
            jsons_of(items@) == all.take(i as int),
        decreases links@.len() - i,
    {
        let ghost before = items@;
        items.push(db_link_value(&links[i]));
        assert(all[i as int] == db_link_json(links@[i as int]));
        assert(jsons_of(items@) =~= jsons_of(before).push(all[i as int]));
        assert(all.take(i as int).push(all[i as int]) =~= all.take(i + 1));
        i += 1;
    }
    assert(all.take(i as int) =~= all);
    array_value(items)
}

/// A manifest, as a JSON value.
pub fn manifest_value(manifest: &RawMirrorManifestFile) -> (value: serde_json::Value)
    ensures
        json_of(value) == manifest_json(*manifest),
{
    let mut pairs: Vec<(String, serde_json::Value)> = Vec::new();
    assert(pairs_of(pairs@) =~= Seq::<Member>::empty());
    add_member(&mut pairs, "schema_version", integer_value(manifest.schema_version as i128));
    add_member(&mut pairs, "manifest_kind", text_value(manifest.manifest_kind.as_str()));
    add_member(&mut pairs, "manifest_id", text_value(manifest.manifest_id.as_str()));
    add_member(
        &mut pairs,
        "blob_hash_algorithm",
        text_value(manifest.blob_hash_algorithm.as_str()),
    );
    add_member(&mut pairs, "blob_relative_path", text_value(manifest.blob_relative_path.as_str()));
    add_member(&mut pairs, "blob_blake3", text_value(manifest.blob_blake3.as_str()));
    add_member(&mut pairs, "blob_size_bytes", integer_value(manifest.blob_size_bytes as i128));
    add_member(&mut pairs, "provider", text_value(manifest.provider.as_str()));
    add_member(&mut pairs, "source_id", text_value(manifest.source_id.as_str()));
    add_member(&mut pairs, "origin_kind", text_value(manifest.origin_kind.as_str()));
    add_member(&mut pairs, "origin_host", optional_text_value(&manifest.origin_host));
    add_member(&mut pairs, "original_path", text_value(manifest.original_path.as_str()));
    add_member(
        &mut pairs,
        "redacted_original_path",
        text_value(manifest.redacted_original_path.as_str()),
    );
    add_member(
        &mut pairs,
        "original_path_blake3",
        text_value(manifest.original_path_blake3.as_str()),
    );
    add_member(&mut pairs, "captured_at_ms", integer_value(manifest.captured_at_ms as i128));
    add_member(
        &mut pairs,
        "source_mtime_ms",
        optional_integer_value(optional_i64(manifest.source_mtime_ms)),
    );
    add_member(&mut pairs, "source_size_bytes", integer_value(manifest.source_size_bytes as i128));
    add_member(&mut pairs, "compression", compression_value(&manifest.compression));
    add_member(&mut pairs, "encryption", encryption_value(&manifest.encryption));
    add_member(&mut pairs, "db_links", db_links_value(&manifest.db_links));
    add_member(&mut pairs, "verification", verification_value(&manifest.verification));
    assert(pairs_of(pairs@) =~= manifest_members(*manifest));
    add_member(&mut pairs, MANIFEST_DIGEST_KEY, optional_text_value(&manifest.manifest_blake3));
    object_value(pairs)
}

// ---------------------------------------------------------------------------
// Identifiers and digests
// ---------------------------------------------------------------------------

/// The digest under which an original path is recorded.
pub fn raw_mirror_original_path_blake3(original_path: &str) -> (digest: String)
    ensures
        digest@ == digest_text(
            domain_message(ORIGINAL_PATH_DOMAIN@, original_path.spec_bytes()),
        ),
        is_digest_text(digest@),
{
    domain_digest(ORIGINAL_PATH_DOMAIN, original_path.as_bytes())
}

/// The members of what a manifest's identifier is made of.
pub open spec fn manifest_id_members(
    provider: Seq<char>,
    source_id: Seq<char>,
    origin_kind: Seq<char>,
    origin_host: Option<Seq<char>>,
    original_path_blake3: Seq<char>,
    blob_blake3: Seq<char>,
) -> Seq<Member> {
    seq![
        ("provider"@, Json::Text(provider)),
        ("source_id"@, Json::Text(source_id)),
        ("origin_kind"@, Json::Text(origin_kind)),
        ("origin_host"@, optional_text_json(origin_host)),
        ("original_path_blake3"@, Json::Text(original_path_blake3)),
        ("blob_blake3"@, Json::Text(blob_blake3)),
    ]
}

/// What a manifest's identifier is made of.
pub open spec fn manifest_id_json(
    provider: Seq<char>,
    source_id: Seq<char>,
    origin_kind: Seq<char>,
    origin_host: Option<Seq<char>>,
    original_path_blake3: Seq<char>,
    blob_blake3: Seq<char>,
) -> Json {
    Json::Object(
        sorted_members(
            manifest_id_members(
                provider,
                source_id,
                origin_kind,
                origin_host,
                original_path_blake3,
                blob_blake3,
            ),
        ),
    )
}

/// The identifier of the manifest for one blob of one source. Short of a
/// collision, it tells its six parts apart: the identifier of another origin
/// is the same if all six are, and only then.
pub fn raw_mirror_manifest_id(
    provider: &str,
    source_id: &str,
    origin_kind: &str,
    origin_host: Option<&str>,
    original_path_blake3: &str,
    blob_blake3: &str,
) -> (id: String)
    ensures
        ({
            let origin = ManifestOrigin {
                provider: provider@,
                source_id: source_id@,
                origin_kind: origin_kind@,
                origin_host: match origin_host {
                    Some(host) => Some(host@),
                    None => None,
                },
                original_path_blake3: original_path_blake3@,
                blob_blake3: blob_blake3@,
            };
            &&& id@ == origin_id(origin)
            &&& is_said(origin_json(origin))
            &&& forall|other: ManifestOrigin|
                is_said(origin_json(other)) && origins_do_not_collide(origin, other) ==> (id@
                    == #[trigger] origin_id(other) <==> other == origin)
        }),
        is_identifier(MANIFEST_ID_DOMAIN@, id@),
{
    let ghost origin = ManifestOrigin {
        provider: provider@,
        source_id: source_id@,
        origin_kind: origin_kind@,
        origin_host: match origin_host {
            Some(host) => Some(host@),
            None => None,
        },
        original_path_blake3: original_path_blake3@,
        blob_blake3: blob_blake3@,
    };
    let host = match origin_host {
        Some(host) => text_value(host),
        None => null_value(),
    };
    let ghost host_json = json_of(host);
    let mut pairs: Vec<(String, serde_json::Value)> = Vec::new();
    assert(pairs_of(pairs@) =~= Seq::<Member>::empty());
    add_member(&mut pairs, "provider", text_value(provider));
    add_member(&mut pairs, "source_id", text_value(source_id));
    add_member(&mut pairs, "origin_kind", text_value(origin_kind));
    add_member(&mut pairs, "origin_host", host);
    add_member(&mut pairs, "original_path_blake3", text_value(original_path_blake3));
    add_member(&mut pairs, "blob_blake3", text_value(blob_blake3));
    assert(pairs_of(pairs@) =~= seq![
        ("provider"@, Json::Text(provider@)),
        ("source_id"@, Json::Text(source_id@)),
        ("origin_kind"@, Json::Text(origin_kind@)),
        ("origin_host"@, host_json),
        ("original_path_blake3"@, Json::Text(original_path_blake3@)),
        ("blob_blake3"@, Json::Text(blob_blake3@)),
    ]);
    let value = object_value(pairs);
    assert(json_of(value) == origin_json(origin));
    let id = canonical_blake3(MANIFEST_ID_DOMAIN, value);
    proof {
        lemma_origin_keys(origin);
        assert forall|other: ManifestOrigin|
            is_said(origin_json(other)) && origins_do_not_collide(origin, other) implies (id@
            == #[trigger] origin_id(other) <==> other == origin) by {
            lemma_origin_keys(other);
            law_ordered_is_canonical(origin_json(other));
            law_origin_json_tells_origins_apart(other, origin);
        }
    }
    id
}

/// The digest of a manifest, as an identifier: that of the manifest without
/// the member that holds it.
pub open spec fn manifest_digest(manifest: RawMirrorManifestFile) -> Seq<char> {
    canonical_id(MANIFEST_DOMAIN@, undigested_json(manifest))
}

/// The digest of a manifest. Short of a collision, it tells manifests apart:
/// the digest of another one is the same if the two agree in every field but
/// the digest that they record, and only then.
pub fn raw_mirror_manifest_blake3(manifest: &RawMirrorManifestFile) -> (digest: String)
    ensures
        digest@ == manifest_digest(*manifest),
        is_identifier(MANIFEST_DOMAIN@, digest@),
        is_said(undigested_json(*manifest)),
        forall|other: RawMirrorManifestFile|
            is_said(undigested_json(other)) && manifests_do_not_collide(*manifest, other) ==> (
            digest@ == #[trigger] manifest_digest(other) <==> same_but_for_digest(
                *manifest,
                other,
            )),
{
    let value = remove_key(manifest_value(manifest), MANIFEST_DIGEST_KEY);
    assert(json_of(value) == undigested_json(*manifest));
    let digest = canonical_blake3(MANIFEST_DOMAIN, value);
    proof {
        lemma_undigested_json(*manifest);
        assert forall|other: RawMirrorManifestFile|
            is_said(undigested_json(other)) && manifests_do_not_collide(
                *manifest,
                other,
            ) implies (digest@ == #[trigger] manifest_digest(other) <==> same_but_for_digest(
            *manifest,
            other,
        )) by {
            lemma_undigested_json(other);
            law_ordered_is_canonical(undigested_json(other));
            law_undigested_json_tells_manifests_apart(*manifest, other);
        }
    }
    digest
}

/// The digest of a manifest does not depend on the digest that it records, so
/// that it can be recorded in the manifest and computed again from it.
pub proof fn law_manifest_digest_ignores_itself(
    manifest: RawMirrorManifestFile,
    recorded: Option<String>,
)
    ensures
        manifest_digest(RawMirrorManifestFile { manifest_blake3: recorded, ..manifest })
            == manifest_digest(manifest),
{
    let other = RawMirrorManifestFile { manifest_blake3: recorded, ..manifest };
    let key = MANIFEST_DIGEST_KEY@;
    let rest = manifest_members(manifest);
    assert(manifest_members(other) =~= rest);
    let a = optional_text_json(chars_of(manifest.manifest_blake3));
    let b = optional_text_json(chars_of(recorded));
    assert(rest.push((key, a)).drop_last() =~= rest);
    assert(rest.push((key, b)).drop_last() =~= rest);
    law_removing_undoes_setting(sorted_members(rest), key, a);
    law_removing_undoes_setting(sorted_members(rest), key, b);
}

/// The path that is made for the identifier of a manifest is accepted as the
/// path of a manifest.
pub proof fn law_manifest_id_gives_manifest_path(id: Seq<char>)
    requires
        is_identifier(MANIFEST_ID_DOMAIN@, id),
    ensures
        !is_absolute(encode_utf8(manifest_path(id))),
        is_manifest_parts(path_parts(encode_utf8(manifest_path(id)))),
        path_parts(encode_utf8(manifest_path(id))) == seq![
            Part::Normal(encode_utf8(MANIFESTS_DIR@)),
            Part::Normal(encode_utf8(id + MANIFEST_ENDING@)),
        ],
{
    reveal_strlit("doctor-raw-mirror-manifest-id-v1");
    let prefix = MANIFEST_ID_DOMAIN@;
    let n = prefix.len() as int + 1;
    assert forall|i: int| 0 <= i < id.len() implies '\0' <= #[trigger] id[i] <= '\u{7f}' && id[i]
        != '/' by {
        if i < n {
            assert(id[i] == id.take(n)[i]);
            assert(id[i] == (prefix + seq!['-'])[i]);
        } else {
            assert(id[i] == id.skip(n)[i - n]);
            assert(is_lower_hex(id.skip(n)[i - n]));
        }
    }
    assert(is_ascii_chars(id));
    vstd::utf8::is_ascii_chars_encode_utf8(id);
    assert(!encode_utf8(id).contains(SEPARATOR)) by {
        if encode_utf8(id).contains(SEPARATOR) {
            let i = choose|i: int|
                0 <= i < encode_utf8(id).len() && encode_utf8(id)[i] == SEPARATOR;
            assert(id[i] as u8 == encode_utf8(id)[i]);
        }
    }
    law_manifest_path_round_trip(id);
}

/// A text of plain letters, digits and signs has no zero byte.
proof fn lemma_ascii_zero_free(text: Seq<char>)
    requires
        is_ascii_chars(text),
        forall|i: int| 0 <= i < text.len() ==> #[trigger] text[i] != '\0',
    ensures
        is_zero_free(text),
{
    vstd::utf8::is_ascii_chars_encode_utf8(text);
    assert forall|i: int| 0 <= i < encode_utf8(text).len() implies #[trigger] encode_utf8(text)[i]
        != 0 by {
        assert(text[i] as u8 == encode_utf8(text)[i]);
    }
}

/// What is hashed for an original path, for a manifest identifier and for a
/// manifest is never the same message, whatever the bodies.
pub proof fn law_domains_never_meet(a: Seq<u8>, b: Seq<u8>, c: Seq<u8>)
    ensures
        domain_message(ORIGINAL_PATH_DOMAIN@, a) != domain_message(MANIFEST_ID_DOMAIN@, b),
        domain_message(ORIGINAL_PATH_DOMAIN@, a) != domain_message(MANIFEST_DOMAIN@, c),
        domain_message(MANIFEST_ID_DOMAIN@, b) != domain_message(MANIFEST_DOMAIN@, c),
{
    reveal_strlit("doctor-raw-mirror-original-path-v1");
    reveal_strlit("doctor-raw-mirror-manifest-id-v1");
    reveal_strlit("doctor-raw-mirror-manifest-v1");
    let p = ORIGINAL_PATH_DOMAIN@;
    let q = MANIFEST_ID_DOMAIN@;
    let r = MANIFEST_DOMAIN@;
    assert(p.len() == 34 && q.len() == 32 && r.len() == 29);
    lemma_ascii_zero_free(p);
    lemma_ascii_zero_free(q);
    lemma_ascii_zero_free(r);
    if domain_message(p, a) == domain_message(q, b) {
        law_domain_messages_are_apart(p, a, q, b);
    }
    if domain_message(p, a) == domain_message(r, c) {
        law_domain_messages_are_apart(p, a, r, c);
    }
    if domain_message(q, b) == domain_message(r, c) {
        law_domain_messages_are_apart(q, b, r, c);
    }
}

// ---------------------------------------------------------------------------
// Reading a manifest file
// ---------------------------------------------------------------------------

/// Why a file is not read as a manifest. Each holds the path.
#[derive(Debug)]
pub enum ManifestFileError {
    /// The path is that of a symbolic link.
    Symlink(MirrorPath),
    /// The path is that of something other than a file.
    NotFile(MirrorPath),
}

impl ManifestFileError {
    /// The error in words. A path that is well-formed UTF-8 is shown as the
    /// text that it encodes.
    pub fn message(&self) -> (text: String)
        ensures
            text@ == (match self {
                ManifestFileError::Symlink(path) => {
                    "refusing to read symlink raw mirror manifest "@ + lossy_text(path@)
                },
                ManifestFileError::NotFile(path) => {
                    "refusing to read non-file raw mirror manifest "@ + lossy_text(path@)
                },
            }),
            match self {
                ManifestFileError::Symlink(path) | ManifestFileError::NotFile(path) => {
                    valid_utf8(path@) ==> lossy_text(path@) == decode_utf8(path@)
                },
            },
    {
        match self {
            ManifestFileError::Symlink(path) => {
                "refusing to read symlink raw mirror manifest ".to_owned().concat(
                    path.display().as_str(),
                )
            },
            ManifestFileError::NotFile(path) => {
                "refusing to read non-file raw mirror manifest ".to_owned().concat(
                    path.display().as_str(),
                )
            },
        }
    }
}

/// Whether what stands at a path, by its own metadata, may be read as a
/// manifest: only a file, and not through a symbolic link.
pub fn admit_manifest_file(path: &MirrorPath, is_symlink: bool, is_file: bool) -> (verdict: Result<
    (),
    ManifestFileError,
>)
    ensures
        match verdict {
            Ok(()) => !is_symlink && is_file,
            Err(ManifestFileError::Symlink(refused)) => is_symlink && refused@ == path@,
            Err(ManifestFileError::NotFile(refused)) => !is_symlink && !is_file && refused@
                == path@,
        },
{
    if is_symlink {
        return Err(ManifestFileError::Symlink(path.clone()));
    }
    if !is_file {
        return Err(ManifestFileError::NotFile(path.clone()));
    }
    Ok(())
}

} // verus!
