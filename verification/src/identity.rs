//! What identifiers and digests tell apart: short of a collision, two of them
//! are the same only where what they stand for is.

use crate::digest::{
    canonical_id, canonical_message, digest_text, domain_message,
    law_domain_digest_tells_bodies_apart, no_collision,
};
use crate::json::{
    keys_ascend_throughout, keys_distinct, lemma_removing_last_key,
    lemma_sorted_object_has_no_fractions, lemma_sorted_object_is_ordered,
    lemma_sorting_tells_apart, no_fractions, sorted_members, without_key, Json, Member,
};
use crate::manifest::{
    chars_of, compression_json, compression_members, db_link_json, db_link_members,
    encryption_json, encryption_members, manifest_id_json, manifest_id_members,
    manifest_json, manifest_members, optional_text_json, verification_json, verification_members,
    RawMirrorCompressionEnvelope, RawMirrorDbLink, RawMirrorEncryptionEnvelope,
    RawMirrorManifestFile, RawMirrorVerificationRecord, MANIFEST_DIGEST_KEY, MANIFEST_DOMAIN,
    MANIFEST_ID_DOMAIN, ORIGINAL_PATH_DOMAIN,
};
use vstd::prelude::*;
use vstd::utf8::encode_utf8;

verus! {

// ---------------------------------------------------------------------------
// Keys that differ
// ---------------------------------------------------------------------------

/// The length of a key, its first character and its last.
spec fn outline(key: Seq<char>) -> (int, char, char) {
    (key.len() as int, key[0], key[key.len() - 1])
}

/// Keys differ where their outlines do.
proof fn lemma_outlines_tell_apart(members: Seq<Member>, outlines: Seq<(int, char, char)>)
    requires
        members.len() == outlines.len(),
        forall|i: int| 0 <= i < members.len() ==> outline((#[trigger] members[i]).0) == outlines[i],
        forall|i: int, j: int| 0 <= i < j < outlines.len() ==> outlines[i] != outlines[j],
    ensures
        keys_distinct(members),
{
    assert forall|i: int, j: int| 0 <= i < j < members.len() implies (#[trigger] members[i]).0 != (
    #[trigger] members[j]).0 by {
        assert(outlines[i] != outlines[j]);
    }
}

/// The keys of a database link differ.
pub(crate) proof fn lemma_db_link_keys(link: RawMirrorDbLink)
    ensures
        keys_distinct(db_link_members(link)),
{
    reveal_strlit("conversation_id");
    reveal_strlit("message_count");
    reveal_strlit("source_path");
    reveal_strlit("started_at_ms");
    let members = db_link_members(link);
    let outlines: Seq<(int, char, char)> = seq![
        (15int, 'c', 'd'),
        (13int, 'm', 't'),
        (11int, 's', 'h'),
        (13int, 's', 's'),
    ];
    assert forall|i: int| 0 <= i < members.len() implies outline((#[trigger] members[i]).0)
        == outlines[i] by {
    }
    lemma_outlines_tell_apart(members, outlines);
}

/// The keys of a compression envelope differ.
pub(crate) proof fn lemma_compression_keys(envelope: RawMirrorCompressionEnvelope)
    ensures
        keys_distinct(compression_members(envelope)),
{
    reveal_strlit("state");
    reveal_strlit("algorithm");
    reveal_strlit("uncompressed_size_bytes");
    let members = compression_members(envelope);
    let outlines: Seq<(int, char, char)> = seq![
        (5int, 's', 'e'),
        (9int, 'a', 'm'),
        (23int, 'u', 's'),
    ];
    assert forall|i: int| 0 <= i < members.len() implies outline((#[trigger] members[i]).0)
        == outlines[i] by {
    }
    lemma_outlines_tell_apart(members, outlines);
}

/// The keys of an encryption envelope differ.
pub(crate) proof fn lemma_encryption_keys(envelope: RawMirrorEncryptionEnvelope)
    ensures
        keys_distinct(encryption_members(envelope)),
{
    reveal_strlit("state");
    reveal_strlit("algorithm");
    reveal_strlit("key_id");
    reveal_strlit("envelope_version");
    let members = encryption_members(envelope);
    let outlines: Seq<(int, char, char)> = seq![
        (5int, 's', 'e'),
        (9int, 'a', 'm'),
        (6int, 'k', 'd'),
        (16int, 'e', 'n'),
    ];
    assert forall|i: int| 0 <= i < members.len() implies outline((#[trigger] members[i]).0)
        == outlines[i] by {
    }
    lemma_outlines_tell_apart(members, outlines);
}

/// The keys of a verification record differ.
pub(crate) proof fn lemma_verification_keys(record: RawMirrorVerificationRecord)
    ensures
        keys_distinct(verification_members(record)),
{
    reveal_strlit("status");
    reveal_strlit("verifier");
    reveal_strlit("content_blake3");
    reveal_strlit("verified_at_ms");
    let members = verification_members(record);
    let outlines: Seq<(int, char, char)> = seq![
        (6int, 's', 's'),
        (8int, 'v', 'r'),
        (14int, 'c', '3'),
        (14int, 'v', 's'),
    ];
    assert forall|i: int| 0 <= i < members.len() implies outline((#[trigger] members[i]).0)
        == outlines[i] by {
    }
    lemma_outlines_tell_apart(members, outlines);
}

/// The keys of a manifest differ.
pub(crate) proof fn lemma_manifest_keys(manifest: RawMirrorManifestFile, own: Json)
    ensures
        keys_distinct(manifest_members(manifest).push((MANIFEST_DIGEST_KEY@, own))),
{
    reveal_strlit("schema_version");
    reveal_strlit("manifest_kind");
    reveal_strlit("manifest_id");
    reveal_strlit("blob_hash_algorithm");
    reveal_strlit("blob_relative_path");
    reveal_strlit("blob_blake3");
    reveal_strlit("blob_size_bytes");
    reveal_strlit("provider");
    reveal_strlit("source_id");
    reveal_strlit("origin_kind");
    reveal_strlit("origin_host");
    reveal_strlit("original_path");
    reveal_strlit("redacted_original_path");
    reveal_strlit("original_path_blake3");
    reveal_strlit("captured_at_ms");
    reveal_strlit("source_mtime_ms");
    reveal_strlit("source_size_bytes");
    reveal_strlit("compression");
    reveal_strlit("encryption");
    reveal_strlit("db_links");
    reveal_strlit("verification");
    reveal_strlit("manifest_blake3");
    let members = manifest_members(manifest).push((MANIFEST_DIGEST_KEY@, own));
    let outlines: Seq<(int, char, char)> = seq![
        (14int, 's', 'n'),
        (13int, 'm', 'd'),
        (11int, 'm', 'd'),
        (19int, 'b', 'm'),
        (18int, 'b', 'h'),
        (11int, 'b', '3'),
        (15int, 'b', 's'),
        (8int, 'p', 'r'),
        (9int, 's', 'd'),
        (11int, 'o', 'd'),
        (11int, 'o', 't'),
        (13int, 'o', 'h'),
        (22int, 'r', 'h'),
        (20int, 'o', '3'),
        (14int, 'c', 's'),
        (15int, 's', 's'),
        (17int, 's', 's'),
        (11int, 'c', 'n'),
        (10int, 'e', 'n'),
        (8int, 'd', 's'),
        (12int, 'v', 'n'),
        (15int, 'm', '3'),
    ];
    assert forall|i: int| 0 <= i < members.len() implies outline((#[trigger] members[i]).0)
        == outlines[i] by {
    }
    lemma_outlines_tell_apart(members, outlines);
}

// ---------------------------------------------------------------------------
// JSON that tells apart what it was made of
// ---------------------------------------------------------------------------

/// Whether two database links agree in every field.
pub open spec fn same_db_link(a: RawMirrorDbLink, b: RawMirrorDbLink) -> bool {
    &&& a.conversation_id == b.conversation_id
    &&& a.message_count == b.message_count
    &&& chars_of(a.source_path) == chars_of(b.source_path)
    &&& a.started_at_ms == b.started_at_ms
}

/// The JSON of two database links is the same if they agree, and only then.
pub(crate) proof fn lemma_db_link_json_tells_apart(a: RawMirrorDbLink, b: RawMirrorDbLink)
    ensures
        db_link_json(a) == db_link_json(b) <==> same_db_link(a, b),
        keys_ascend_throughout(db_link_json(a)),
        no_fractions(db_link_json(a)),
{
    let x = db_link_members(a);
    let y = db_link_members(b);
    lemma_db_link_keys(a);
    lemma_sorted_object_is_ordered(x);
    lemma_sorted_object_has_no_fractions(x);
    if db_link_json(a) == db_link_json(b) {
        lemma_sorting_tells_apart(x, y);
        assert(x[0].1 == y[0].1);
        assert(x[1].1 == y[1].1);
        assert(x[2].1 == y[2].1);
        assert(x[3].1 == y[3].1);
    }
    if same_db_link(a, b) {
        assert(x =~= y);
    }
}

/// Whether two compression envelopes agree in every field.
pub open spec fn same_compression(
    a: RawMirrorCompressionEnvelope,
    b: RawMirrorCompressionEnvelope,
) -> bool {
    &&& a.state@ == b.state@
    &&& chars_of(a.algorithm) == chars_of(b.algorithm)
    &&& a.uncompressed_size_bytes == b.uncompressed_size_bytes
}

/// The JSON of two compression envelopes is the same if they agree, and only then.
pub(crate) proof fn lemma_compression_json_tells_apart(
    a: RawMirrorCompressionEnvelope,
    b: RawMirrorCompressionEnvelope,
)
    ensures
        compression_json(a) == compression_json(b) <==> same_compression(a, b),
        keys_ascend_throughout(compression_json(a)),
        no_fractions(compression_json(a)),
{
    let x = compression_members(a);
    let y = compression_members(b);
    lemma_compression_keys(a);
    lemma_sorted_object_is_ordered(x);
    lemma_sorted_object_has_no_fractions(x);
    if compression_json(a) == compression_json(b) {
        lemma_sorting_tells_apart(x, y);
        assert(x[0].1 == y[0].1);
        assert(x[1].1 == y[1].1);
        assert(x[2].1 == y[2].1);
    }
    if same_compression(a, b) {
        assert(x =~= y);
    }
}

/// Whether two encryption envelopes agree in every field.
pub open spec fn same_encryption(
    a: RawMirrorEncryptionEnvelope,
    b: RawMirrorEncryptionEnvelope,
) -> bool {
    &&& a.state@ == b.state@
    &&& chars_of(a.algorithm) == chars_of(b.algorithm)
    &&& chars_of(a.key_id) == chars_of(b.key_id)
    &&& a.envelope_version == b.envelope_version
}

/// The JSON of two encryption envelopes is the same if they agree, and only then.
pub(crate) proof fn lemma_encryption_json_tells_apart(
    a: RawMirrorEncryptionEnvelope,
    b: RawMirrorEncryptionEnvelope,
)
    ensures
        encryption_json(a) == encryption_json(b) <==> same_encryption(a, b),
        keys_ascend_throughout(encryption_json(a)),
        no_fractions(encryption_json(a)),
{
    let x = encryption_members(a);
    let y = encryption_members(b);
    lemma_encryption_keys(a);
    lemma_sorted_object_is_ordered(x);
    lemma_sorted_object_has_no_fractions(x);
    if encryption_json(a) == encryption_json(b) {
        lemma_sorting_tells_apart(x, y);
        assert(x[0].1 == y[0].1);
        assert(x[1].1 == y[1].1);
        assert(x[2].1 == y[2].1);
        assert(x[3].1 == y[3].1);
    }
    if same_encryption(a, b) {
        assert(x =~= y);
    }
}

/// Whether two verification records agree in every field.
pub open spec fn same_verification(
    a: RawMirrorVerificationRecord,
    b: RawMirrorVerificationRecord,
) -> bool {
    &&& a.status@ == b.status@
    &&& a.verifier@ == b.verifier@
    &&& chars_of(a.content_blake3) == chars_of(b.content_blake3)
    &&& a.verified_at_ms == b.verified_at_ms
}

/// The JSON of two verification records is the same if they agree, and only then.
pub(crate) proof fn lemma_verification_json_tells_apart(
    a: RawMirrorVerificationRecord,
    b: RawMirrorVerificationRecord,
)
    ensures
        verification_json(a) == verification_json(b) <==> same_verification(a, b),
        keys_ascend_throughout(verification_json(a)),
        no_fractions(verification_json(a)),
{
    let x = verification_members(a);
    let y = verification_members(b);
    lemma_verification_keys(a);
    lemma_sorted_object_is_ordered(x);
    lemma_sorted_object_has_no_fractions(x);
    if verification_json(a) == verification_json(b) {
        lemma_sorting_tells_apart(x, y);
        assert(x[0].1 == y[0].1);
        assert(x[1].1 == y[1].1);
        assert(x[2].1 == y[2].1);
        assert(x[3].1 == y[3].1);
    }
    if same_verification(a, b) {
        assert(x =~= y);
    }
}

/// The database links of a manifest, as JSON.
pub open spec fn db_links_json(links: Seq<RawMirrorDbLink>) -> Json {
    Json::Array(links.map_values(|link: RawMirrorDbLink| db_link_json(link)))
}

pub(crate) proof fn lemma_db_links_json_tells_apart(a: Seq<RawMirrorDbLink>, b: Seq<RawMirrorDbLink>)
    ensures
        db_links_json(a) == db_links_json(b) <==> a.len() == b.len() && forall|i: int|
            0 <= i < a.len() ==> same_db_link(#[trigger] a[i], b[i]),
        keys_ascend_throughout(db_links_json(a)),
        no_fractions(db_links_json(a)),
{
    let x = a.map_values(|link: RawMirrorDbLink| db_link_json(link));
    let y = b.map_values(|link: RawMirrorDbLink| db_link_json(link));
    assert forall|i: int| 0 <= i < x.len() implies keys_ascend_throughout(#[trigger] x[i])
        && no_fractions(x[i]) by {
        lemma_db_link_json_tells_apart(a[i], a[i]);
    }
    if x == y {
        assert(x.len() == a.len() && y.len() == b.len());
        assert forall|i: int| 0 <= i < a.len() implies same_db_link(#[trigger] a[i], b[i]) by {
            assert(x[i] == y[i]);
            lemma_db_link_json_tells_apart(a[i], b[i]);
        }
    }
    if a.len() == b.len() && forall|i: int|
        0 <= i < a.len() ==> same_db_link(#[trigger] a[i], b[i]) {
        assert forall|i: int| 0 <= i < x.len() implies x[i] == y[i] by {
            assert(same_db_link(a[i], b[i]));
            lemma_db_link_json_tells_apart(a[i], b[i]);
        }
        assert(x =~= y);
    }
}

/// Whether two manifests agree in every field but the digest that they record.
pub open spec fn same_but_for_digest(a: RawMirrorManifestFile, b: RawMirrorManifestFile) -> bool {
    &&& a.schema_version == b.schema_version
    &&& a.manifest_kind@ == b.manifest_kind@
    &&& a.manifest_id@ == b.manifest_id@
    &&& a.blob_hash_algorithm@ == b.blob_hash_algorithm@
    &&& a.blob_relative_path@ == b.blob_relative_path@
    &&& a.blob_blake3@ == b.blob_blake3@
    &&& a.blob_size_bytes == b.blob_size_bytes
    &&& a.provider@ == b.provider@
    &&& a.source_id@ == b.source_id@
    &&& a.origin_kind@ == b.origin_kind@
    &&& chars_of(a.origin_host) == chars_of(b.origin_host)
    &&& a.original_path@ == b.original_path@
    &&& a.redacted_original_path@ == b.redacted_original_path@
    &&& a.original_path_blake3@ == b.original_path_blake3@
    &&& a.captured_at_ms == b.captured_at_ms
    &&& a.source_mtime_ms == b.source_mtime_ms
    &&& a.source_size_bytes == b.source_size_bytes
    &&& same_compression(a.compression, b.compression)
    &&& same_encryption(a.encryption, b.encryption)
    &&& a.db_links@.len() == b.db_links@.len()
    &&& forall|i: int|
        0 <= i < a.db_links@.len() ==> same_db_link(#[trigger] a.db_links@[i], b.db_links@[i])
    &&& same_verification(a.verification, b.verification)
}

/// What is left of a manifest's JSON without its own digest.
pub open spec fn undigested_json(manifest: RawMirrorManifestFile) -> Json {
    without_key(manifest_json(manifest), MANIFEST_DIGEST_KEY@)
}

/// Whether the hash has no collision on what is hashed for two manifests.
pub open spec fn manifests_do_not_collide(
    a: RawMirrorManifestFile,
    b: RawMirrorManifestFile,
) -> bool {
    no_collision(
        canonical_message(MANIFEST_DOMAIN@, undigested_json(a)),
        canonical_message(MANIFEST_DOMAIN@, undigested_json(b)),
    )
}

pub(crate) proof fn lemma_undigested_json(manifest: RawMirrorManifestFile)
    ensures
        undigested_json(manifest) == Json::Object(sorted_members(manifest_members(manifest))),
        keys_distinct(manifest_members(manifest)),
        keys_ascend_throughout(undigested_json(manifest)),
        no_fractions(undigested_json(manifest)),
{
    let members = manifest_members(manifest);
    let key = MANIFEST_DIGEST_KEY@;
    let own = optional_text_json(chars_of(manifest.manifest_blake3));
    let all = members.push((key, own));
    lemma_manifest_keys(manifest, own);
    assert forall|i: int| 0 <= i < members.len() implies (#[trigger] members[i]).0 != key by {
        assert(all[i].0 != all[all.len() - 1].0);
    }
    assert forall|i: int, j: int| 0 <= i < j < members.len() implies (#[trigger] members[i]).0 != (
    #[trigger] members[j]).0 by {
        assert(all[i].0 != all[j].0);
    }
    lemma_removing_last_key(members, key, own);
    lemma_compression_json_tells_apart(manifest.compression, manifest.compression);
    lemma_encryption_json_tells_apart(manifest.encryption, manifest.encryption);
    lemma_verification_json_tells_apart(manifest.verification, manifest.verification);
    lemma_db_links_json_tells_apart(manifest.db_links@, manifest.db_links@);
    lemma_sorted_object_is_ordered(members);
    lemma_sorted_object_has_no_fractions(members);
}

/// What a manifest's digest is made of tells manifests apart: it is the same if
/// they agree in every field but the digest that they record, nested fields and
/// the order of the database links included, and only then.
pub proof fn law_undigested_json_tells_manifests_apart(
    a: RawMirrorManifestFile,
    b: RawMirrorManifestFile,
)
    ensures
        undigested_json(a) == undigested_json(b) <==> same_but_for_digest(a, b),
{
    let x = manifest_members(a);
    let y = manifest_members(b);
    lemma_undigested_json(a);
    lemma_undigested_json(b);
    lemma_compression_json_tells_apart(a.compression, b.compression);
    lemma_encryption_json_tells_apart(a.encryption, b.encryption);
    lemma_verification_json_tells_apart(a.verification, b.verification);
    lemma_db_links_json_tells_apart(a.db_links@, b.db_links@);
    if undigested_json(a) == undigested_json(b) {
        lemma_sorting_tells_apart(x, y);
        assert(x[0].1 == y[0].1);
        assert(x[1].1 == y[1].1);
        assert(x[2].1 == y[2].1);
        assert(x[3].1 == y[3].1);
        assert(x[4].1 == y[4].1);
        assert(x[5].1 == y[5].1);
        assert(x[6].1 == y[6].1);
        assert(x[7].1 == y[7].1);
        assert(x[8].1 == y[8].1);
        assert(x[9].1 == y[9].1);
        assert(x[10].1 == y[10].1);
        assert(x[11].1 == y[11].1);
        assert(x[12].1 == y[12].1);
        assert(x[13].1 == y[13].1);
        assert(x[14].1 == y[14].1);
        assert(x[15].1 == y[15].1);
        assert(x[16].1 == y[16].1);
        assert(x[17].1 == y[17].1);
        assert(x[18].1 == y[18].1);
        assert(x[19].1 == y[19].1);
        assert(x[20].1 == y[20].1);
    }
    if same_but_for_digest(a, b) {
        assert(x =~= y);
    }
}

/// What a manifest's identifier is made of.
pub struct ManifestOrigin {
    pub provider: Seq<char>,
    pub source_id: Seq<char>,
    pub origin_kind: Seq<char>,
    pub origin_host: Option<Seq<char>>,
    pub original_path_blake3: Seq<char>,
    pub blob_blake3: Seq<char>,
}

/// The members of an origin.
pub open spec fn origin_members(origin: ManifestOrigin) -> Seq<Member> {
    manifest_id_members(
        origin.provider,
        origin.source_id,
        origin.origin_kind,
        origin.origin_host,
        origin.original_path_blake3,
        origin.blob_blake3,
    )
}

/// An origin, as JSON.
pub open spec fn origin_json(origin: ManifestOrigin) -> Json {
    manifest_id_json(
        origin.provider,
        origin.source_id,
        origin.origin_kind,
        origin.origin_host,
        origin.original_path_blake3,
        origin.blob_blake3,
    )
}

/// The keys of an origin differ, and its JSON is ordered and has no fractions.
pub(crate) proof fn lemma_origin_keys(origin: ManifestOrigin)
    ensures
        keys_distinct(origin_members(origin)),
        keys_ascend_throughout(origin_json(origin)),
        no_fractions(origin_json(origin)),
{
    reveal_strlit("provider");
    reveal_strlit("source_id");
    reveal_strlit("origin_kind");
    reveal_strlit("origin_host");
    reveal_strlit("original_path_blake3");
    reveal_strlit("blob_blake3");
    let members = origin_members(origin);
    let outlines: Seq<(int, char, char)> = seq![
        (8int, 'p', 'r'),
        (9int, 's', 'd'),
        (11int, 'o', 'd'),
        (11int, 'o', 't'),
        (20int, 'o', '3'),
        (11int, 'b', '3'),
    ];
    assert forall|i: int| 0 <= i < members.len() implies outline((#[trigger] members[i]).0)
        == outlines[i] by {
    }
    lemma_outlines_tell_apart(members, outlines);
    lemma_sorted_object_is_ordered(members);
    lemma_sorted_object_has_no_fractions(members);
}

/// What a manifest's identifier is made of tells its six parts apart, a missing
/// host and an empty one among them.
pub proof fn law_origin_json_tells_origins_apart(a: ManifestOrigin, b: ManifestOrigin)
    ensures
        origin_json(a) == origin_json(b) <==> a == b,
{
    let x = origin_members(a);
    let y = origin_members(b);
    lemma_origin_keys(a);
    if origin_json(a) == origin_json(b) {
        lemma_sorting_tells_apart(x, y);
        assert(x[0].1 == y[0].1);
        assert(x[1].1 == y[1].1);
        assert(x[2].1 == y[2].1);
        assert(x[3].1 == y[3].1);
        assert(x[4].1 == y[4].1);
        assert(x[5].1 == y[5].1);
    }
}

/// The identifier of a manifest, by what it is made of.
pub open spec fn origin_id(origin: ManifestOrigin) -> Seq<char> {
    canonical_id(MANIFEST_ID_DOMAIN@, origin_json(origin))
}

/// Whether the hash has no collision on what is hashed for two origins.
pub open spec fn origins_do_not_collide(a: ManifestOrigin, b: ManifestOrigin) -> bool {
    no_collision(
        canonical_message(MANIFEST_ID_DOMAIN@, origin_json(a)),
        canonical_message(MANIFEST_ID_DOMAIN@, origin_json(b)),
    )
}

/// Short of a collision, the digest of an original path tells it from another.
pub proof fn law_path_digest_tells_paths_apart(a: Seq<char>, b: Seq<char>)
    requires
        no_collision(
            domain_message(ORIGINAL_PATH_DOMAIN@, encode_utf8(a)),
            domain_message(ORIGINAL_PATH_DOMAIN@, encode_utf8(b)),
        ),
    ensures
        digest_text(domain_message(ORIGINAL_PATH_DOMAIN@, encode_utf8(a))) == digest_text(
            domain_message(ORIGINAL_PATH_DOMAIN@, encode_utf8(b)),
        ) <==> a == b,
{
    law_domain_digest_tells_bodies_apart(ORIGINAL_PATH_DOMAIN@, encode_utf8(a), encode_utf8(b));
    vstd::utf8::encode_utf8_decode_utf8(a);
    vstd::utf8::encode_utf8_decode_utf8(b);
}

} // verus!
