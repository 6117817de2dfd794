//! The paths of manifests within the store.

use crate::path::{
    all_normal, is_absolute, is_plain_name, is_within, joined, law_join_adds_plain_name,
    law_join_concatenates_parts, law_plain_name_is_one_part, lemma_ascii_plain_name,
    lemma_ends_without_slash, lemma_slash_joins, part_views, path_parts, same_bytes, MirrorPath,
    Part, PathPart, SEPARATOR,
};
use crate::text::{concat3, law_encoding_of_concatenation};
use vstd::prelude::*;
use vstd::string::StringSliceAdditionalSpecFns;
use vstd::utf8::encode_utf8;

verus! {

/// The directory of the manifests, in the store.
pub const MANIFESTS_DIR: &'static str = "manifests";

/// How the name of a manifest file ends.
pub const MANIFEST_ENDING: &'static str = ".json";

/// The path, relative to the store, of the manifest with the given identifier.
pub open spec fn manifest_path(manifest_id: Seq<char>) -> Seq<char> {
    "manifests/"@ + manifest_id + ".json"@
}

/// The path of a manifest, relative to the store.
pub fn raw_mirror_manifest_relative_path(manifest_id: &str) -> (path: String)
    ensures
        path@ == manifest_path(manifest_id@),
{
    concat3("manifests/", manifest_id, ".json")
}

/// Whether a file name has the extension `json`: it ends in `.json`, and
/// something stands before that.
pub open spec fn has_json_extension(name: Seq<u8>) -> bool {
    let ending = encode_utf8(MANIFEST_ENDING@);
    name.len() > ending.len() && name.skip(name.len() - ending.len()) == ending
}

/// Whether components are those of a manifest: the manifest directory, then a
/// file with the extension `json`.
pub open spec fn is_manifest_parts(parts: Seq<Part>) -> bool {
    &&& parts.len() == 2
    &&& parts[0] == Part::Normal(encode_utf8(MANIFESTS_DIR@))
    &&& parts[1] is Normal
    &&& has_json_extension(parts[1]->Normal_0)
}

/// Why a relative path is refused as that of a manifest. Each holds the path.
#[derive(Debug, PartialEq, Eq)]
pub enum ManifestPathError {
    /// The path is absolute.
    Absolute(String),
    /// A component is no plain name.
    NotNormal(String),
    /// The path is not of the form `manifests/<id>.json`.
    WrongShape(String),
}

impl ManifestPathError {
    /// The error in words.
    pub fn message(&self) -> (text: String)
        ensures
            text@ == (match self {
                ManifestPathError::Absolute(path) => {
                    "raw mirror manifest path must be relative: "@ + path@
                },
                ManifestPathError::NotNormal(path) => {
                    "raw mirror manifest path must use only normal relative components: "@ + path@
                },
                ManifestPathError::WrongShape(path) => {
                    "raw mirror manifest path must match manifests/<id>.json: "@ + path@
                },
            }),
    {
        match self {
            ManifestPathError::Absolute(path) => {
                "raw mirror manifest path must be relative: ".to_owned().concat(path.as_str())
            },
            ManifestPathError::NotNormal(path) => {
                "raw mirror manifest path must use only normal relative components: ".to_owned().concat(
                    path.as_str(),
                )
            },
            ManifestPathError::WrongShape(path) => {
                "raw mirror manifest path must match manifests/<id>.json: ".to_owned().concat(
                    path.as_str(),
                )
            },
        }
    }
}

/// Whether a file name has the extension `json`.
fn ends_in_json(name: &[u8]) -> (ends: bool)
    ensures
        ends == has_json_extension(name@),
{
    let ending = MANIFEST_ENDING.as_bytes();
    let n = name.len();
    let k = ending.len();
    if n <= k {
        return false;
    }
    assert(name@.subrange(n - k, n as int) =~= name@.skip(n - k));
    same_bytes(&name[n - k..n], ending)
}

/// Whether every component is a name.
fn only_names(parts: &Vec<PathPart>) -> (only: bool)
    ensures
        only == all_normal(part_views(parts@)),
{
    assert(part_views(parts@).len() == parts@.len());
    let mut i: usize = 0;
    while i < parts.len()
        invariant
            i <= parts@.len(),
            part_views(parts@).len() == parts@.len(),
            forall|k: int| 0 <= k < i ==> (#[trigger] part_views(parts@)[k]) is Normal,
        decreases parts@.len() - i,
    {
        assert(part_views(parts@)[i as int] == parts@[i as int]@);
        match &parts[i] {
            PathPart::Normal(_) => {},
            _ => {
                return false;
            },
        }
        i += 1;
    }
    true
}

/// Whether components are those of a manifest.
fn are_manifest_parts(parts: &Vec<PathPart>) -> (are: bool)
    ensures
        are == is_manifest_parts(part_views(parts@)),
{
    assert(part_views(parts@).len() == parts@.len());
    if parts.len() != 2 {
        return false;
    }
    assert(part_views(parts@)[0] == parts@[0]@);
    assert(part_views(parts@)[1] == parts@[1]@);
    match (&parts[0], &parts[1]) {
        (PathPart::Normal(dir), PathPart::Normal(file)) => {
            same_bytes(dir.as_slice(), MANIFESTS_DIR.as_bytes()) && ends_in_json(file.as_slice())
        },
        _ => false,
    }
}

/// Whether a path, given by its components on whatever system, is that of a
/// manifest relative to the store. Any but `manifests/<id>.json` is refused.
pub fn admit_manifest_parts(
    relative_path: &str,
    is_absolute: bool,
    parts: &Vec<PathPart>,
) -> (verdict: Result<(), ManifestPathError>)
    ensures
        match verdict {
            Ok(()) => !is_absolute && is_manifest_parts(part_views(parts@)),
            Err(ManifestPathError::Absolute(refused)) => {
                &&& refused@ == relative_path@
                &&& is_absolute
            },
            Err(ManifestPathError::NotNormal(refused)) => {
                &&& refused@ == relative_path@
                &&& !is_absolute
                &&& !all_normal(part_views(parts@))
            },
            Err(ManifestPathError::WrongShape(refused)) => {
                &&& refused@ == relative_path@
                &&& !is_absolute
                &&& all_normal(part_views(parts@))
                &&& !is_manifest_parts(part_views(parts@))
            },
        },
        verdict is Ok <==> !is_absolute && is_manifest_parts(part_views(parts@)),
{
    if is_absolute {
        return Err(ManifestPathError::Absolute(relative_path.to_owned()));
    }
    if !only_names(parts) {
        return Err(ManifestPathError::NotNormal(relative_path.to_owned()));
    }
    if !are_manifest_parts(parts) {
        return Err(ManifestPathError::WrongShape(relative_path.to_owned()));
    }
    Ok(())
}

/// The path of a manifest, from the POSIX path that a record gives relative to
/// the store. Any path but `manifests/<id>.json` is refused.
pub fn raw_mirror_manifest_path_from_relative(root: &MirrorPath, relative_path: &str) -> (path:
    Result<MirrorPath, ManifestPathError>)
    ensures
        match path {
            Ok(found) => {
                &&& !is_absolute(relative_path.spec_bytes())
                &&& is_manifest_parts(path_parts(relative_path.spec_bytes()))
                &&& found@ == joined(root@, relative_path.spec_bytes())
                &&& path_parts(found@) == path_parts(root@) + path_parts(
                    relative_path.spec_bytes(),
                )
                &&& is_within(path_parts(found@), path_parts(root@))
            },
            Err(ManifestPathError::Absolute(refused)) => {
                &&& refused@ == relative_path@
                &&& is_absolute(relative_path.spec_bytes())
            },
            Err(ManifestPathError::NotNormal(refused)) => {
                &&& refused@ == relative_path@
                &&& !is_absolute(relative_path.spec_bytes())
                &&& !all_normal(path_parts(relative_path.spec_bytes()))
            },
            Err(ManifestPathError::WrongShape(refused)) => {
                &&& refused@ == relative_path@
                &&& !is_absolute(relative_path.spec_bytes())
                &&& all_normal(path_parts(relative_path.spec_bytes()))
                &&& !is_manifest_parts(path_parts(relative_path.spec_bytes()))
            },
        },
        path is Ok <==> !is_absolute(relative_path.spec_bytes()) && is_manifest_parts(
            path_parts(relative_path.spec_bytes()),
        ),
{
    let relative = MirrorPath::from_text(relative_path);
    admit_manifest_parts(relative_path, relative.is_absolute(), &relative.parts())?;
    proof {
        law_manifest_lies_in_store(root@, relative@);
    }
    Ok(root.join(relative_path))
}

/// A path that is accepted as that of a manifest leads to a place within the
/// store, two components below its root.
pub proof fn law_manifest_lies_in_store(root: Seq<u8>, rel: Seq<u8>)
    requires
        is_manifest_parts(path_parts(rel)),
    ensures
        path_parts(joined(root, rel)) == path_parts(root) + path_parts(rel),
        is_within(path_parts(joined(root, rel)), path_parts(root)),
{
    assert(path_parts(rel)[0] is Normal);
    if rel.len() == 0 {
        assert(path_parts(rel) =~= Seq::<Part>::empty());
    }
    law_join_concatenates_parts(root, rel);
    assert((path_parts(root) + path_parts(rel)).take(path_parts(root).len() as int) =~= path_parts(
        root,
    ));
}

/// The path that is made for an identifier is accepted, and leads to the file
/// of that name: for every identifier that is not empty and has no slash.
pub proof fn law_manifest_path_round_trip(manifest_id: Seq<char>)
    requires
        manifest_id.len() > 0,
        !encode_utf8(manifest_id).contains(SEPARATOR),
    ensures
        !is_absolute(encode_utf8(manifest_path(manifest_id))),
        is_manifest_parts(path_parts(encode_utf8(manifest_path(manifest_id)))),
        path_parts(encode_utf8(manifest_path(manifest_id))) == seq![
            Part::Normal(encode_utf8(MANIFESTS_DIR@)),
            Part::Normal(encode_utf8(manifest_id + MANIFEST_ENDING@)),
        ],
{
    reveal_strlit("manifests/");
    reveal_strlit("manifests");
    reveal_strlit(".json");
    reveal_strlit("/");
    let dir = MANIFESTS_DIR@;
    let ending = encode_utf8(MANIFEST_ENDING@);
    let file = encode_utf8(manifest_id + MANIFEST_ENDING@);
    law_encoding_of_concatenation(manifest_id, MANIFEST_ENDING@);
    vstd::utf8::is_ascii_chars_encode_utf8(MANIFEST_ENDING@);
    assert forall|i: int| 0 <= i < ending.len() implies ending[i] != SEPARATOR by {
        assert(MANIFEST_ENDING@[i] as u8 == ending[i]);
    }
    assert(!file.contains(SEPARATOR)) by {
        if file.contains(SEPARATOR) {
            let i = choose|i: int| 0 <= i < file.len() && file[i] == SEPARATOR;
            let n = encode_utf8(manifest_id).len();
            if i < n {
                assert(encode_utf8(manifest_id)[i] == SEPARATOR);
            } else {
                assert(ending[i - n] == SEPARATOR);
            }
        }
    }
    assert(encode_utf8(manifest_id).len() > 0);
    assert(file.len() > 5);
    assert(is_plain_name(file));
    lemma_ascii_plain_name(dir);
    lemma_ends_without_slash(dir);
    lemma_slash_joins(dir, manifest_id + MANIFEST_ENDING@);
    assert(dir + "/"@ + (manifest_id + MANIFEST_ENDING@) =~= manifest_path(manifest_id));
    law_plain_name_is_one_part(encode_utf8(dir));
    law_join_adds_plain_name(encode_utf8(dir), file);
    let parts = path_parts(encode_utf8(manifest_path(manifest_id)));
    assert(parts =~= seq![Part::Normal(encode_utf8(dir)), Part::Normal(file)]);
    assert(file.skip(file.len() - ending.len()) =~= ending);
    if is_absolute(encode_utf8(manifest_path(manifest_id))) {
        assert(parts[0] is RootDir);
    }
}

/// The path of a manifest spells its identifier, whatever that is, between the
/// manifest directory and the ending.
pub proof fn law_manifest_path_spelling(manifest_id: Seq<char>)
    ensures
        manifest_path(manifest_id).len() == manifest_id.len() + 15,
        manifest_path(manifest_id).take(10) == "manifests/"@,
        manifest_path(manifest_id).subrange(10, 10 + manifest_id.len() as int) == manifest_id,
        manifest_path(manifest_id).skip(10 + manifest_id.len() as int) == ".json"@,
{
    reveal_strlit("manifests/");
    reveal_strlit(".json");
    let path = manifest_path(manifest_id);
    assert(path.take(10) =~= "manifests/"@);
    assert(path.subrange(10, 10 + manifest_id.len() as int) =~= manifest_id);
    assert(path.skip(10 + manifest_id.len() as int) =~= ".json"@);
}

/// The components of a manifest are the manifest directory and a file name
/// that is some stem, whatever its bytes, and `.json`; nothing else is one.
pub proof fn law_manifest_components(stem: Seq<u8>, parts: Seq<Part>)
    ensures
        stem.len() > 0 ==> is_manifest_parts(
            seq![
                Part::Normal(encode_utf8("manifests"@)),
                Part::Normal(stem + encode_utf8(".json"@)),
            ],
        ),
        is_manifest_parts(parts) ==> exists|held: Seq<u8>|
            held.len() > 0 && parts == seq![
                Part::Normal(encode_utf8("manifests"@)),
                Part::Normal(#[trigger] (held + encode_utf8(".json"@))),
            ],
{
    let ending = encode_utf8(".json"@);
    let file = stem + ending;
    assert(file.skip(file.len() - ending.len()) =~= ending);
    if is_manifest_parts(parts) {
        let name = parts[1]->Normal_0;
        let held = name.take(name.len() - ending.len());
        assert(name =~= held + ending);
        assert(parts =~= seq![
            Part::Normal(encode_utf8("manifests"@)),
            Part::Normal(held + ending),
        ]);
    }
}

} // verus!
