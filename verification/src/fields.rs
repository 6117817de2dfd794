//! What stands where in the JSON of manifests: each field under its own name.

use crate::digest::{digest_text, law_identifier_hashes_the_text};
use crate::identity::{
    db_links_json, lemma_compression_json_tells_apart, lemma_compression_keys,
    lemma_db_link_json_tells_apart, lemma_db_link_keys, lemma_db_links_json_tells_apart,
    lemma_encryption_json_tells_apart, lemma_encryption_keys, lemma_manifest_keys,
    lemma_origin_keys, lemma_undigested_json, lemma_verification_json_tells_apart,
    lemma_verification_keys, origin_id, origin_json, origin_members, undigested_json,
    ManifestOrigin,
};
use crate::json::{
    json_text, keys_ascend_throughout, keys_distinct, law_sorted_members_keep_all,
    lemma_sorted_object_is_ordered, lemma_sorting_keeps_number, sorted_members, Json, Member,
};
use crate::manifest::{
    chars_of, compression_json, compression_members, db_link_json, db_link_members,
    encryption_json, encryption_members, manifest_digest, manifest_json, manifest_members,
    optional_text_json, verification_json, verification_members, RawMirrorCompressionEnvelope,
    RawMirrorDbLink, RawMirrorEncryptionEnvelope, RawMirrorManifestFile,
    RawMirrorVerificationRecord, MANIFEST_DIGEST_KEY,
};
use vstd::prelude::*;
use vstd::utf8::encode_utf8;

verus! {

/// Whether a JSON value is an object with the given value under the given key.
pub open spec fn holds_member(json: Json, key: Seq<char>, value: Json) -> bool {
    json matches Json::Object(members) && members.contains((key, value))
}

/// An object holds the members that it was made of, where their keys differ,
/// and no more.
proof fn lemma_members_are_held(members: Seq<Member>)
    requires
        keys_distinct(members),
    ensures
        sorted_members(members).len() == members.len(),
        forall|i: int|
            0 <= i < members.len() ==> holds_member(
                Json::Object(sorted_members(members)),
                (#[trigger] members[i]).0,
                members[i].1,
            ),
{
    lemma_sorting_keeps_number(members);
    law_sorted_members_keep_all(members);
    assert forall|i: int| 0 <= i < members.len() implies holds_member(
        Json::Object(sorted_members(members)),
        (#[trigger] members[i]).0,
        members[i].1,
    ) by {
        assert(members.contains(members[i]));
        assert(sorted_members(members).contains(members[i]));
    }
}

/// A database link holds each field under its own name, and nothing else.
pub proof fn law_db_link_holds_each_field(link: RawMirrorDbLink)
    ensures
        db_link_json(link) is Object,
        db_link_json(link)->Object_0.len() == 4,
        keys_ascend_throughout(db_link_json(link)),
        holds_member(db_link_json(link), "conversation_id"@, match link.conversation_id {
            Some(held) => Json::Integer(held as int),
            None => Json::Null,
        }),
        holds_member(db_link_json(link), "message_count"@, match link.message_count {
            Some(held) => Json::Integer(held as int),
            None => Json::Null,
        }),
        holds_member(db_link_json(link), "source_path"@, match link.source_path {
            Some(held) => Json::Text(held@),
            None => Json::Null,
        }),
        holds_member(db_link_json(link), "started_at_ms"@, match link.started_at_ms {
            Some(held) => Json::Integer(held as int),
            None => Json::Null,
        }),
{
    let members = db_link_members(link);
    lemma_db_link_keys(link);
    lemma_db_link_json_tells_apart(link, link);
    lemma_members_are_held(members);
    assert(holds_member(db_link_json(link), members[0].0, members[0].1));
    assert(holds_member(db_link_json(link), members[1].0, members[1].1));
    assert(holds_member(db_link_json(link), members[2].0, members[2].1));
    assert(holds_member(db_link_json(link), members[3].0, members[3].1));
}

/// A compression envelope holds each field under its own name, and nothing
/// else.
pub proof fn law_compression_holds_each_field(envelope: RawMirrorCompressionEnvelope)
    ensures
        compression_json(envelope) is Object,
        compression_json(envelope)->Object_0.len() == 3,
        keys_ascend_throughout(compression_json(envelope)),
        holds_member(compression_json(envelope), "state"@, Json::Text(envelope.state@)),
        holds_member(compression_json(envelope), "algorithm"@, match envelope.algorithm {
            Some(held) => Json::Text(held@),
            None => Json::Null,
        }),
        holds_member(compression_json(envelope), "uncompressed_size_bytes"@, match envelope.uncompressed_size_bytes {
            Some(held) => Json::Integer(held as int),
            None => Json::Null,
        }),
{
    let members = compression_members(envelope);
    lemma_compression_keys(envelope);
    lemma_compression_json_tells_apart(envelope, envelope);
    lemma_members_are_held(members);
    assert(holds_member(compression_json(envelope), members[0].0, members[0].1));
    assert(holds_member(compression_json(envelope), members[1].0, members[1].1));
    assert(holds_member(compression_json(envelope), members[2].0, members[2].1));
}

/// An encryption envelope holds each field under its own name, and nothing
/// else.
pub proof fn law_encryption_holds_each_field(envelope: RawMirrorEncryptionEnvelope)
    ensures
        encryption_json(envelope) is Object,
        encryption_json(envelope)->Object_0.len() == 4,
        keys_ascend_throughout(encryption_json(envelope)),
        holds_member(encryption_json(envelope), "state"@, Json::Text(envelope.state@)),
        holds_member(encryption_json(envelope), "algorithm"@, match envelope.algorithm {
            Some(held) => Json::Text(held@),
            None => Json::Null,
        }),
        holds_member(encryption_json(envelope), "key_id"@, match envelope.key_id {
            Some(held) => Json::Text(held@),
            None => Json::Null,
        }),
        holds_member(encryption_json(envelope), "envelope_version"@, match envelope.envelope_version {
            Some(held) => Json::Integer(held as int),
            None => Json::Null,
        }),
{
    let members = encryption_members(envelope);
    lemma_encryption_keys(envelope);
    lemma_encryption_json_tells_apart(envelope, envelope);
    lemma_members_are_held(members);
    assert(holds_member(encryption_json(envelope), members[0].0, members[0].1));
    assert(holds_member(encryption_json(envelope), members[1].0, members[1].1));
    assert(holds_member(encryption_json(envelope), members[2].0, members[2].1));
    assert(holds_member(encryption_json(envelope), members[3].0, members[3].1));
}

/// A verification record holds each field under its own name, and nothing else.
pub proof fn law_verification_holds_each_field(record: RawMirrorVerificationRecord)
    ensures
        verification_json(record) is Object,
        verification_json(record)->Object_0.len() == 4,
        keys_ascend_throughout(verification_json(record)),
        holds_member(verification_json(record), "status"@, Json::Text(record.status@)),
        holds_member(verification_json(record), "verifier"@, Json::Text(record.verifier@)),
        holds_member(verification_json(record), "content_blake3"@, match record.content_blake3 {
            Some(held) => Json::Text(held@),
            None => Json::Null,
        }),
        holds_member(verification_json(record), "verified_at_ms"@, match record.verified_at_ms {
            Some(held) => Json::Integer(held as int),
            None => Json::Null,
        }),
{
    let members = verification_members(record);
    lemma_verification_keys(record);
    lemma_verification_json_tells_apart(record, record);
    lemma_members_are_held(members);
    assert(holds_member(verification_json(record), members[0].0, members[0].1));
    assert(holds_member(verification_json(record), members[1].0, members[1].1));
    assert(holds_member(verification_json(record), members[2].0, members[2].1));
    assert(holds_member(verification_json(record), members[3].0, members[3].1));
}

/// A manifest holds each field under its own name, and nothing else.
pub proof fn law_manifest_holds_each_field(manifest: RawMirrorManifestFile)
    ensures
        manifest_json(manifest) is Object,
        manifest_json(manifest)->Object_0.len() == 22,
        keys_ascend_throughout(manifest_json(manifest)),
        holds_member(manifest_json(manifest), "schema_version"@, Json::Integer(manifest.schema_version as int)),
        holds_member(manifest_json(manifest), "manifest_kind"@, Json::Text(manifest.manifest_kind@)),
        holds_member(manifest_json(manifest), "manifest_id"@, Json::Text(manifest.manifest_id@)),
        holds_member(manifest_json(manifest), "blob_hash_algorithm"@, Json::Text(manifest.blob_hash_algorithm@)),
        holds_member(manifest_json(manifest), "blob_relative_path"@, Json::Text(manifest.blob_relative_path@)),
        holds_member(manifest_json(manifest), "blob_blake3"@, Json::Text(manifest.blob_blake3@)),
        holds_member(manifest_json(manifest), "blob_size_bytes"@, Json::Integer(manifest.blob_size_bytes as int)),
        holds_member(manifest_json(manifest), "provider"@, Json::Text(manifest.provider@)),
        holds_member(manifest_json(manifest), "source_id"@, Json::Text(manifest.source_id@)),
        holds_member(manifest_json(manifest), "origin_kind"@, Json::Text(manifest.origin_kind@)),
        holds_member(manifest_json(manifest), "origin_host"@, match manifest.origin_host {
            Some(held) => Json::Text(held@),
            None => Json::Null,
        }),
        holds_member(manifest_json(manifest), "original_path"@, Json::Text(manifest.original_path@)),
        holds_member(manifest_json(manifest), "redacted_original_path"@, Json::Text(manifest.redacted_original_path@)),
        holds_member(manifest_json(manifest), "original_path_blake3"@, Json::Text(manifest.original_path_blake3@)),
        holds_member(manifest_json(manifest), "captured_at_ms"@, Json::Integer(manifest.captured_at_ms as int)),
        holds_member(manifest_json(manifest), "source_mtime_ms"@, match manifest.source_mtime_ms {
            Some(held) => Json::Integer(held as int),
            None => Json::Null,
        }),
        holds_member(manifest_json(manifest), "source_size_bytes"@, Json::Integer(manifest.source_size_bytes as int)),
        holds_member(manifest_json(manifest), "compression"@, compression_json(manifest.compression)),
        holds_member(manifest_json(manifest), "encryption"@, encryption_json(manifest.encryption)),
        holds_member(manifest_json(manifest), "db_links"@, Json::Array(
            Seq::new(manifest.db_links@.len(), |i: int| db_link_json(manifest.db_links@[i])),
        )),
        holds_member(manifest_json(manifest), "verification"@, verification_json(manifest.verification)),
        holds_member(manifest_json(manifest), "manifest_blake3"@, match manifest.manifest_blake3 {
            Some(held) => Json::Text(held@),
            None => Json::Null,
        }),
{
    let members = manifest_members(manifest).push(
        (MANIFEST_DIGEST_KEY@, optional_text_json(chars_of(manifest.manifest_blake3))),
    );
    lemma_manifest_keys(manifest, optional_text_json(chars_of(manifest.manifest_blake3)));
    lemma_compression_json_tells_apart(manifest.compression, manifest.compression);
    lemma_encryption_json_tells_apart(manifest.encryption, manifest.encryption);
    lemma_verification_json_tells_apart(manifest.verification, manifest.verification);
    lemma_db_links_json_tells_apart(manifest.db_links@, manifest.db_links@);
    lemma_sorted_object_is_ordered(members);
    assert(db_links_json(manifest.db_links@) == Json::Array(
        Seq::new(manifest.db_links@.len(), |i: int| db_link_json(manifest.db_links@[i])),
    )) by {
        assert(db_links_json(manifest.db_links@)->Array_0 =~= Seq::new(
            manifest.db_links@.len(),
            |i: int| db_link_json(manifest.db_links@[i]),
        ));
    }
    lemma_members_are_held(members);
    assert(holds_member(manifest_json(manifest), members[0].0, members[0].1));
    assert(holds_member(manifest_json(manifest), members[1].0, members[1].1));
    assert(holds_member(manifest_json(manifest), members[2].0, members[2].1));
    assert(holds_member(manifest_json(manifest), members[3].0, members[3].1));
    assert(holds_member(manifest_json(manifest), members[4].0, members[4].1));
    assert(holds_member(manifest_json(manifest), members[5].0, members[5].1));
    assert(holds_member(manifest_json(manifest), members[6].0, members[6].1));
    assert(holds_member(manifest_json(manifest), members[7].0, members[7].1));
    assert(holds_member(manifest_json(manifest), members[8].0, members[8].1));
    assert(holds_member(manifest_json(manifest), members[9].0, members[9].1));
    assert(holds_member(manifest_json(manifest), members[10].0, members[10].1));
    assert(holds_member(manifest_json(manifest), members[11].0, members[11].1));
    assert(holds_member(manifest_json(manifest), members[12].0, members[12].1));
    assert(holds_member(manifest_json(manifest), members[13].0, members[13].1));
    assert(holds_member(manifest_json(manifest), members[14].0, members[14].1));
    assert(holds_member(manifest_json(manifest), members[15].0, members[15].1));
    assert(holds_member(manifest_json(manifest), members[16].0, members[16].1));
    assert(holds_member(manifest_json(manifest), members[17].0, members[17].1));
    assert(holds_member(manifest_json(manifest), members[18].0, members[18].1));
    assert(holds_member(manifest_json(manifest), members[19].0, members[19].1));
    assert(holds_member(manifest_json(manifest), members[20].0, members[20].1));
    assert(holds_member(manifest_json(manifest), members[21].0, members[21].1));
}

/// What is hashed for a manifest's identifier holds each of the six parts under
/// its own name, and nothing else.
pub proof fn law_origin_holds_each_part(origin: ManifestOrigin)
    ensures
        origin_json(origin) is Object,
        origin_json(origin)->Object_0.len() == 6,
        keys_ascend_throughout(origin_json(origin)),
        holds_member(origin_json(origin), "provider"@, Json::Text(origin.provider)),
        holds_member(origin_json(origin), "source_id"@, Json::Text(origin.source_id)),
        holds_member(origin_json(origin), "origin_kind"@, Json::Text(origin.origin_kind)),
        holds_member(origin_json(origin), "origin_host"@, match origin.origin_host {
            Some(host) => Json::Text(host),
            None => Json::Null,
        }),
        holds_member(origin_json(origin), "original_path_blake3"@, Json::Text(origin.original_path_blake3)),
        holds_member(origin_json(origin), "blob_blake3"@, Json::Text(origin.blob_blake3)),
{
    let members = origin_members(origin);
    lemma_origin_keys(origin);
    lemma_members_are_held(members);
    assert(holds_member(origin_json(origin), members[0].0, members[0].1));
    assert(holds_member(origin_json(origin), members[1].0, members[1].1));
    assert(holds_member(origin_json(origin), members[2].0, members[2].1));
    assert(holds_member(origin_json(origin), members[3].0, members[3].1));
    assert(holds_member(origin_json(origin), members[4].0, members[4].1));
    assert(holds_member(origin_json(origin), members[5].0, members[5].1));
}

/// What is hashed for a manifest's digest is the manifest with every member
/// but the digest that it records.
pub proof fn law_digest_leaves_out_itself_alone(
    manifest: RawMirrorManifestFile,
    key: Seq<char>,
    value: Json,
)
    ensures
        holds_member(undigested_json(manifest), key, value) <==> holds_member(
            manifest_json(manifest),
            key,
            value,
        ) && key != "manifest_blake3"@,
        undigested_json(manifest) is Object,
        undigested_json(manifest)->Object_0.len() == 21,
        keys_ascend_throughout(undigested_json(manifest)),
{
    let own = optional_text_json(chars_of(manifest.manifest_blake3));
    let members = manifest_members(manifest);
    let all = members.push((MANIFEST_DIGEST_KEY@, own));
    let m = (key, value);
    lemma_undigested_json(manifest);
    lemma_manifest_keys(manifest, own);
    lemma_members_are_held(members);
    law_sorted_members_keep_all(members);
    law_sorted_members_keep_all(all);
    assert(sorted_members(members).contains(m) <==> members.contains(m));
    assert(sorted_members(all).contains(m) <==> all.contains(m));
    if members.contains(m) {
        let i = choose|i: int| 0 <= i < members.len() && members[i] == m;
        assert(all[i] == m);
        assert(all[i].0 != all[all.len() - 1].0);
    }
    if all.contains(m) && key != "manifest_blake3"@ {
        let i = choose|i: int| 0 <= i < all.len() && all[i] == m;
        assert(members[i] == m);
    }
}

/// A manifest's digest spells the hash of its domain, a zero byte and the text
/// of the manifest without the digest that it records.
pub proof fn law_manifest_digest_spelling(manifest: RawMirrorManifestFile)
    ensures
        manifest_digest(manifest) == "doctor-raw-mirror-manifest-v1"@ + "-"@ + digest_text(
            encode_utf8("doctor-raw-mirror-manifest-v1"@) + seq![0u8] + json_text(
                undigested_json(manifest),
            ),
        ),
{
    lemma_undigested_json(manifest);
    law_identifier_hashes_the_text(
        "doctor-raw-mirror-manifest-v1"@,
        undigested_json(manifest),
    );
}

/// A manifest's identifier spells the hash of its domain, a zero byte and the
/// text of its six parts.
pub proof fn law_manifest_id_spelling(origin: ManifestOrigin)
    ensures
        origin_id(origin) == "doctor-raw-mirror-manifest-id-v1"@ + "-"@ + digest_text(
            encode_utf8("doctor-raw-mirror-manifest-id-v1"@) + seq![0u8] + json_text(
                origin_json(origin),
            ),
        ),
{
    lemma_origin_keys(origin);
    law_identifier_hashes_the_text("doctor-raw-mirror-manifest-id-v1"@, origin_json(origin));
}

} // verus!
