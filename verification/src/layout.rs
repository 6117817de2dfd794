//! Where the raw-mirror store, its blobs and its manifests lie.

use crate::path::{
    is_plain_name, is_within, joined, law_join_adds_plain_name, law_plain_name_is_one_part,
    part_views, path_parts, same_bytes, MirrorPath, Part, PathPart,
};
use crate::text::{law_encoding_of_concatenation, lossy_text};
use vstd::prelude::*;
use vstd::string::StringSliceAdditionalSpecFns;
use vstd::utf8::{decode_utf8, encode_utf8, valid_utf8};

verus! {

/// The directory of the store, under the data directory.
pub const RAW_MIRROR_ROOT_DIR: &'static str = "raw-mirror";

/// The directory of the store's layout version, under the store's own.
pub const RAW_MIRROR_VERSION_DIR: &'static str = "v1";

/// The hash that names the blobs.
pub const RAW_MIRROR_HASH_ALGORITHM: &'static str = "blake3";

/// The extension of a blob file.
pub const RAW_MIRROR_BLOB_EXTENSION: &'static str = "raw";

/// The path of the store under the data directory `data_dir`.
pub open spec fn root_path(data_dir: Seq<u8>) -> Seq<u8> {
    joined(
        joined(data_dir, encode_utf8(RAW_MIRROR_ROOT_DIR@)),
        encode_utf8(RAW_MIRROR_VERSION_DIR@),
    )
}

/// The components of the store's path: those of the data directory, then the
/// two directories of the store.
pub open spec fn root_parts(data_dir: Seq<u8>) -> Seq<Part> {
    path_parts(data_dir).push(Part::Normal(encode_utf8(RAW_MIRROR_ROOT_DIR@))).push(
        Part::Normal(encode_utf8(RAW_MIRROR_VERSION_DIR@)),
    )
}

proof fn lemma_store_dirs_are_plain_names()
    ensures
        is_plain_name(encode_utf8(RAW_MIRROR_ROOT_DIR@)),
        is_plain_name(encode_utf8(RAW_MIRROR_VERSION_DIR@)),
{
    reveal_strlit("raw-mirror");
    reveal_strlit("v1");
    vstd::utf8::is_ascii_chars_encode_utf8(RAW_MIRROR_ROOT_DIR@);
    vstd::utf8::is_ascii_chars_encode_utf8(RAW_MIRROR_VERSION_DIR@);
}

/// The components of the store's path are those of the data directory, then
/// `raw-mirror` and `v1`.
pub proof fn law_root_parts(data_dir: Seq<u8>)
    ensures
        path_parts(root_path(data_dir)) == root_parts(data_dir),
{
    lemma_store_dirs_are_plain_names();
    law_join_adds_plain_name(data_dir, encode_utf8(RAW_MIRROR_ROOT_DIR@));
    law_join_adds_plain_name(
        joined(data_dir, encode_utf8(RAW_MIRROR_ROOT_DIR@)),
        encode_utf8(RAW_MIRROR_VERSION_DIR@),
    );
}

/// The path of the store under the data directory.
pub fn raw_mirror_root(data_dir: &MirrorPath) -> (root: MirrorPath)
    ensures
        root@ == root_path(data_dir@),
        path_parts(root@) == root_parts(data_dir@),
{
    proof {
        law_root_parts(data_dir@);
    }
    data_dir.join(RAW_MIRROR_ROOT_DIR).join(RAW_MIRROR_VERSION_DIR)
}

// ---------------------------------------------------------------------------
// Containment
// ---------------------------------------------------------------------------

/// Whether components end in the two directories of the store.
pub open spec fn ends_in_store_dirs(parts: Seq<Part>) -> bool {
    &&& parts.len() >= 2
    &&& parts[parts.len() - 1] == Part::Normal(encode_utf8(RAW_MIRROR_VERSION_DIR@))
    &&& parts[parts.len() - 2] == Part::Normal(encode_utf8(RAW_MIRROR_ROOT_DIR@))
}

/// Why a path is refused as the root of the store.
#[derive(Debug)]
pub enum ContainmentError {
    /// The path is not the store's path under the data directory.
    NotCanonical { root: MirrorPath, expected: MirrorPath },
    /// The path does not end in the two directories of the store.
    WrongEnding { root: MirrorPath },
}

impl ContainmentError {
    /// The error in words. A path that is well-formed UTF-8 is shown as the
    /// text that it encodes.
    pub fn message(&self) -> (text: String)
        ensures
            text@ == (match self {
                ContainmentError::NotCanonical { root, expected } => {
                    "refusing to purge raw mirror: resolved path "@ + lossy_text(root@)
                        + " is not the canonical root "@ + lossy_text(expected@)
                },
                ContainmentError::WrongEnding { root } => {
                    "refusing to purge raw mirror: path "@ + lossy_text(root@)
                        + " does not end in "@ + RAW_MIRROR_ROOT_DIR@ + "/"@
                        + RAW_MIRROR_VERSION_DIR@
                },
            }),
            match self {
                ContainmentError::NotCanonical { root, expected } => {
                    &&& valid_utf8(root@) ==> lossy_text(root@) == decode_utf8(root@)
                    &&& valid_utf8(expected@) ==> lossy_text(expected@) == decode_utf8(expected@)
                },
                ContainmentError::WrongEnding { root } => {
                    valid_utf8(root@) ==> lossy_text(root@) == decode_utf8(root@)
                },
            },
    {
        match self {
            ContainmentError::NotCanonical { root, expected } => {
                let mut text = "refusing to purge raw mirror: resolved path ".to_owned();
                text.append(root.display().as_str());
                text.append(" is not the canonical root ");
                text.append(expected.display().as_str());
                text
            },
            ContainmentError::WrongEnding { root } => {
                let mut text = "refusing to purge raw mirror: path ".to_owned();
                text.append(root.display().as_str());
                text.append(" does not end in ");
                text.append(RAW_MIRROR_ROOT_DIR);
                text.append("/");
                text.append(RAW_MIRROR_VERSION_DIR);
                text
            },
        }
    }
}

/// Whether a path ends in the two directories of the store.
pub fn has_store_ending(path: &MirrorPath) -> (ends: bool)
    ensures
        ends == ends_in_store_dirs(path_parts(path@)),
{
    let parts = path.parts();
    assert(part_views(parts@).len() == parts@.len());
    let n = parts.len();
    if n < 2 {
        return false;
    }
    assert(part_views(parts@)[n - 1] == parts@[n - 1]@);
    assert(part_views(parts@)[n - 2] == parts@[n - 2]@);
    is_named(&parts[n - 1], RAW_MIRROR_VERSION_DIR) && is_named(&parts[n - 2], RAW_MIRROR_ROOT_DIR)
}

/// Whether a component is the given name.
fn is_named(part: &PathPart, name: &str) -> (named: bool)
    ensures
        named == (part@ == Part::Normal(name.spec_bytes())),
{
    match part {
        PathPart::Normal(bytes) => same_bytes(bytes.as_slice(), name.as_bytes()),
        _ => false,
    }
}

/// Refuses every path but the store's own under the data directory. Paths are
/// compared by their components.
pub fn assert_raw_mirror_root_contained(data_dir: &MirrorPath, root: &MirrorPath) -> (verdict:
    Result<(), ContainmentError>)
    ensures
        verdict is Ok <==> path_parts(root@) == root_parts(data_dir@),
        verdict is Err ==> (verdict->Err_0 matches ContainmentError::NotCanonical {
            root: refused,
            expected,
        } && refused@ == root@ && expected@ == root_path(data_dir@)),
{
    let expected = raw_mirror_root(data_dir);
    if !root.same_path(&expected) {
        return Err(ContainmentError::NotCanonical { root: root.clone(), expected });
    }
    if !has_store_ending(root) {
        return Err(ContainmentError::WrongEnding { root: root.clone() });
    }
    Ok(())
}

/// The store's own path is never refused.
pub proof fn law_store_root_is_contained(data_dir: Seq<u8>)
    ensures
        path_parts(root_path(data_dir)) == root_parts(data_dir),
        ends_in_store_dirs(root_parts(data_dir)),
        is_within(root_parts(data_dir), path_parts(data_dir)),
{
    law_root_parts(data_dir);
    assert(root_parts(data_dir).take(path_parts(data_dir).len() as int) =~= path_parts(data_dir));
}

/// What lies beside the store in the data directory lies outside the store:
/// no path that leads through another name is within it.
pub proof fn law_siblings_are_outside(data_dir: Seq<u8>, name: Seq<u8>, below: Seq<Part>)
    requires
        is_plain_name(name),
        name != encode_utf8(RAW_MIRROR_ROOT_DIR@),
    ensures
        !is_within(path_parts(joined(data_dir, name)) + below, root_parts(data_dir)),
{
    law_join_adds_plain_name(data_dir, name);
    let k = path_parts(data_dir).len() as int;
    let path = path_parts(joined(data_dir, name)) + below;
    assert(path[k] == Part::Normal(name));
    assert(root_parts(data_dir)[k] == Part::Normal(encode_utf8(RAW_MIRROR_ROOT_DIR@)));
    if is_within(path, root_parts(data_dir)) {
        assert(path.take(root_parts(data_dir).len() as int)[k] == root_parts(data_dir)[k]);
    }
}

/// The stores of two data directories are the same only where the data
/// directories are.
pub proof fn law_foreign_root_is_refused(data_dir: Seq<u8>, other: Seq<u8>)
    requires
        path_parts(data_dir) != path_parts(other),
    ensures
        path_parts(root_path(other)) != root_parts(data_dir),
{
    law_root_parts(other);
    assert(root_parts(other).drop_last().drop_last() =~= path_parts(other));
    assert(root_parts(data_dir).drop_last().drop_last() =~= path_parts(data_dir));
}

/// The file whose lock an index run holds.
pub const INDEX_RUN_LOCK: &'static str = "index-run.lock";

/// The path of the lock file in the data directory.
pub fn index_run_lock_path(data_dir: &MirrorPath) -> (path: MirrorPath)
    ensures
        path@ == joined(data_dir@, encode_utf8(INDEX_RUN_LOCK@)),
        path_parts(path@) == path_parts(data_dir@).push(
            Part::Normal(encode_utf8(INDEX_RUN_LOCK@)),
        ),
        !is_within(path_parts(path@), root_parts(data_dir@)),
{
    proof {
        reveal_strlit("index-run.lock");
        reveal_strlit("raw-mirror");
        vstd::utf8::is_ascii_chars_encode_utf8(INDEX_RUN_LOCK@);
        vstd::utf8::is_ascii_chars_encode_utf8(RAW_MIRROR_ROOT_DIR@);
        let name = encode_utf8(INDEX_RUN_LOCK@);
        assert(name.len() == 14);
        assert(encode_utf8(RAW_MIRROR_ROOT_DIR@).len() == 10);
        law_join_adds_plain_name(data_dir@, name);
        law_siblings_are_outside(data_dir@, name, Seq::empty());
        let parts = path_parts(joined(data_dir@, name));
        assert(parts + Seq::<Part>::empty() =~= parts);
    }
    data_dir.join(INDEX_RUN_LOCK)
}

/// The store lies in `raw-mirror/v1` under the data directory, whatever that
/// is: those two names are put behind it, each behind one separator.
pub proof fn law_store_lies_under_data_dir(data_dir: Seq<u8>)
    ensures
        path_parts(root_path(data_dir)) == path_parts(data_dir) + seq![
            Part::Normal(encode_utf8("raw-mirror"@)),
            Part::Normal(encode_utf8("v1"@)),
        ],
        root_parts(data_dir) == path_parts(data_dir) + seq![
            Part::Normal(encode_utf8("raw-mirror"@)),
            Part::Normal(encode_utf8("v1"@)),
        ],
        root_path(Seq::<u8>::empty()) == encode_utf8("raw-mirror/v1"@),
        root_path(data_dir + seq![47u8]) == data_dir + encode_utf8("/raw-mirror/v1"@),
        data_dir.len() > 0 && data_dir.last() != 47u8 ==> root_path(data_dir) == data_dir
            + encode_utf8("/raw-mirror/v1"@),
{
    law_root_parts(data_dir);
    let names = seq![
        Part::Normal(encode_utf8("raw-mirror"@)),
        Part::Normal(encode_utf8("v1"@)),
    ];
    assert(root_parts(data_dir) =~= path_parts(data_dir) + names);
    reveal_strlit("raw-mirror");
    reveal_strlit("v1");
    reveal_strlit("/");
    reveal_strlit("raw-mirror/v1");
    reveal_strlit("/raw-mirror/v1");
    let outer = encode_utf8("raw-mirror"@);
    let inner = encode_utf8("v1"@);
    lemma_store_dirs_are_plain_names();
    law_plain_name_is_one_part(outer);
    law_plain_name_is_one_part(inner);
    vstd::utf8::is_ascii_chars_encode_utf8("raw-mirror"@);
    vstd::utf8::is_ascii_chars_encode_utf8("/"@);
    assert("raw-mirror"@[9] as u8 == outer[9]);
    assert(encode_utf8("/"@) =~= seq![47u8]) by {
        assert("/"@[0] as u8 == encode_utf8("/"@)[0]);
    }
    let tail = outer + seq![47u8] + inner;
    assert("raw-mirror/v1"@ =~= "raw-mirror"@ + "/"@ + "v1"@);
    assert("/raw-mirror/v1"@ =~= "/"@ + "raw-mirror/v1"@);
    law_encoding_of_concatenation("raw-mirror"@ + "/"@, "v1"@);
    law_encoding_of_concatenation("raw-mirror"@, "/"@);
    law_encoding_of_concatenation("/"@, "raw-mirror/v1"@);
    assert(encode_utf8("raw-mirror/v1"@) =~= tail);
    assert(root_path(Seq::<u8>::empty()) =~= tail);
    assert(root_path(data_dir + seq![47u8]) =~= data_dir + (seq![47u8] + tail));
    if data_dir.len() > 0 && data_dir.last() != 47u8 {
        assert(root_path(data_dir) =~= data_dir + (seq![47u8] + tail));
    }
}

/// A path ends as a store's does where its last two components are
/// `raw-mirror` and `v1`, and only there.
pub proof fn law_store_ending(front: Seq<Part>, parts: Seq<Part>)
    ensures
        ends_in_store_dirs(
            front + seq![
                Part::Normal(encode_utf8("raw-mirror"@)),
                Part::Normal(encode_utf8("v1"@)),
            ],
        ),
        ends_in_store_dirs(parts) ==> parts == parts.drop_last().drop_last() + seq![
            Part::Normal(encode_utf8("raw-mirror"@)),
            Part::Normal(encode_utf8("v1"@)),
        ],
{
    if ends_in_store_dirs(parts) {
        assert(parts =~= parts.drop_last().drop_last() + seq![
            Part::Normal(encode_utf8("raw-mirror"@)),
            Part::Normal(encode_utf8("v1"@)),
        ]);
    }
}

} // verus!
