use raw_mirror::blob::raw_mirror_blob_relative_path;
use raw_mirror::manifest::raw_mirror_manifest_id;
use raw_mirror::manifest_path::{
    admit_manifest_parts, raw_mirror_manifest_path_from_relative, raw_mirror_manifest_relative_path, ManifestPathError,
};
use raw_mirror::path::{MirrorPath, PathPart};
use raw_mirror::redaction::{redacted_file_name, redacted_original_path};
use std::path::{Component, Path};

const SPELLINGS: [&str; 30] = [
    "", ".", "..", "/", "//", "/.", "./", "./.", "a", "a/", "a//b", "a/./b", "./a", ".//a", "/a",
    "//a", "/./a", "/../a", "a/..", "../a", "a/.", "...", ".a", "a.", "..a/b", "a/b/c", "/a/b/",
    "é/ü", "a b/c", "././a/./.",
];

fn std_parts(text: &str) -> Vec<PathPart> {
    Path::new(text)
        .components()
        .map(|c| match c {
            Component::RootDir => PathPart::RootDir,
            Component::CurDir => PathPart::CurDir,
            Component::ParentDir => PathPart::ParentDir,
            Component::Normal(name) => PathPart::Normal(name.to_str().unwrap().as_bytes().to_vec()),
            Component::Prefix(_) => unreachable!(),
        })
        .collect()
}

#[test]
fn parts_agree_with_std() {
    for text in SPELLINGS {
        let path = MirrorPath::from_text(text);
        assert_eq!(path.parts(), std_parts(text), "{text:?}");
        assert_eq!(path.is_absolute(), Path::new(text).is_absolute(), "{text:?}");
        let name = Path::new(text).file_name().map(|n| n.to_str().unwrap().as_bytes().to_vec());
        assert_eq!(path.file_name(), name, "{text:?}");
        assert_eq!(path.display(), Path::new(text).display().to_string());
    }
}

#[test]
fn joins_and_comparisons_agree_with_std() {
    for a in SPELLINGS {
        for b in SPELLINGS {
            let ours = MirrorPath::from_text(a).join(b);
            let theirs = Path::new(a).join(b);
            assert_eq!(ours.as_bytes(), theirs.to_str().unwrap().as_bytes(), "{a:?} {b:?}");
            let same = MirrorPath::from_text(a).same_path(&MirrorPath::from_text(b));
            assert_eq!(same, Path::new(a) == Path::new(b), "{a:?} {b:?}");
        }
    }
}

#[test]
fn joining_appends_the_parts() {
    let joined = MirrorPath::from_text("/a/b/").join("c/d");
    assert_eq!(joined.parts(), std_parts("/a/b/c/d"));
}

#[test]
fn cloned_paths_are_equal() {
    let path = MirrorPath::from_text("a/b");
    assert_eq!(path.clone().as_bytes(), b"a/b");
}

#[test]
fn blob_paths() {
    let name = "AB".to_string() + &"0f".repeat(31);
    let expected = format!("blobs/blake3/ab/{}.raw", name.to_ascii_lowercase());
    assert_eq!(raw_mirror_blob_relative_path(&name), Some(expected.clone()));
    assert_eq!(raw_mirror_blob_relative_path(&name.to_ascii_lowercase()), Some(expected));
    assert_eq!(raw_mirror_blob_relative_path(""), None);
    assert_eq!(raw_mirror_blob_relative_path(&"a".repeat(63)), None);
    assert_eq!(raw_mirror_blob_relative_path(&"a".repeat(65)), None);
    assert_eq!(raw_mirror_blob_relative_path(&"g".repeat(64)), None);
    assert_eq!(raw_mirror_blob_relative_path(&"é".repeat(32)), None);
    assert_eq!(raw_mirror_blob_relative_path(&("a".repeat(63) + "/")), None);
}

#[test]
fn blob_path_parts() {
    let name = "c".repeat(64);
    let path = raw_mirror_blob_relative_path(&name).unwrap();
    let file = format!("{name}.raw");
    assert_eq!(
        MirrorPath::from_text("/root").join(&path).parts(),
        std_parts(&format!("/root/blobs/blake3/cc/{file}"))
    );
}

#[test]
fn manifest_relative_paths() {
    assert_eq!(raw_mirror_manifest_relative_path("m1"), "manifests/m1.json");
    assert_eq!(raw_mirror_manifest_relative_path(""), "manifests/.json");
}

#[test]
fn manifest_paths_are_accepted() {
    let root = MirrorPath::from_text("/data/raw-mirror/v1");
    for (rel, found) in [
        ("manifests/m.json", "/data/raw-mirror/v1/manifests/m.json"),
        ("manifests//m.json", "/data/raw-mirror/v1/manifests//m.json"),
        ("manifests/a.b.json", "/data/raw-mirror/v1/manifests/a.b.json"),
        ("manifests/..json", "/data/raw-mirror/v1/manifests/..json"),
        ("manifests/m.json/", "/data/raw-mirror/v1/manifests/m.json/"),
    ] {
        let path = raw_mirror_manifest_path_from_relative(&root, rel).unwrap();
        assert_eq!(path.as_bytes(), found.as_bytes());
    }
}

#[test]
fn manifest_paths_are_refused() {
    let root = MirrorPath::from_text("/data");
    let refuse = |rel: &str| raw_mirror_manifest_path_from_relative(&root, rel).unwrap_err();
    for rel in ["/manifests/m.json", "/"] {
        assert_eq!(refuse(rel), ManifestPathError::Absolute(rel.to_string()));
    }
    for rel in ["./manifests/m.json", "manifests/../m.json", "..", "."] {
        assert_eq!(refuse(rel), ManifestPathError::NotNormal(rel.to_string()));
    }
    for rel in [
        "", "manifests", "manifests/m", "manifests/.json", "manifests/m.JSON", "manifests/mjson",
        "other/m.json", "manifests/a/m.json", "m.json",
    ] {
        assert_eq!(refuse(rel), ManifestPathError::WrongShape(rel.to_string()), "{rel:?}");
    }
    assert_eq!(
        refuse("/m.json").message(),
        "raw mirror manifest path must be relative: /m.json"
    );
    assert_eq!(
        refuse("../m.json").message(),
        "raw mirror manifest path must use only normal relative components: ../m.json"
    );
    assert_eq!(
        refuse("m.json").message(),
        "raw mirror manifest path must match manifests/<id>.json: m.json"
    );
}

#[test]
fn manifest_ids_give_manifest_paths() {
    let root = MirrorPath::from_text("/data");
    let id = raw_mirror_manifest_id("p/q", "s", "k", None, "o", "b");
    let rel = raw_mirror_manifest_relative_path(&id);
    let path = raw_mirror_manifest_path_from_relative(&root, &rel).unwrap();
    assert_eq!(path.as_bytes(), format!("/data/manifests/{id}.json").as_bytes());
}

#[test]
fn extension_rule_agrees_with_std() {
    let root = MirrorPath::from_text("r");
    for name in ["m.json", ".json", "..json", "json", "a.json.", "a..json", "x.jsonl", "é.json"] {
        let expected = Path::new(name).extension().and_then(|e| e.to_str()) == Some("json");
        let rel = format!("manifests/{name}");
        let found = raw_mirror_manifest_path_from_relative(&root, &rel).is_ok();
        assert_eq!(found, expected, "{name:?}");
    }
}

#[test]
fn redaction() {
    let show = |path: &str| redacted_original_path("codex", &MirrorPath::from_text(path));
    assert_eq!(show("/home/me/secret/rollout.jsonl"), "[codex]/rollout.jsonl");
    assert_eq!(show("/elsewhere/rollout.jsonl"), "[codex]/rollout.jsonl");
    assert_eq!(show("/home/me/ü.jsonl/"), "[codex]/ü.jsonl");
    assert_eq!(show("/"), "[codex]/session");
    assert_eq!(show(""), "[codex]/session");
    assert_eq!(show("/a/.."), "[codex]/session");
    let odd = MirrorPath::from_bytes(vec![b'/', b'a', b'/', 0xff]);
    assert_eq!(redacted_original_path("codex", &odd), "[codex]/session");
}

#[test]
fn manifest_components_of_any_system() {
    let name = |text: &str| PathPart::Normal(text.as_bytes().to_vec());
    let drive = || PathPart::Prefix(b"C:".to_vec());
    let path = "manifests\\m.json";
    assert!(admit_manifest_parts(path, false, &vec![name("manifests"), name("m.json")]).is_ok());
    assert_eq!(
        admit_manifest_parts(path, true, &vec![drive(), PathPart::RootDir, name("m.json")]),
        Err(ManifestPathError::Absolute(path.to_string()))
    );
    assert_eq!(
        admit_manifest_parts(path, false, &vec![drive(), name("manifests"), name("m.json")]),
        Err(ManifestPathError::NotNormal(path.to_string()))
    );
    assert_eq!(
        admit_manifest_parts(path, false, &vec![name("manifests\\m.json")]),
        Err(ManifestPathError::WrongShape(path.to_string()))
    );
}

#[test]
fn redaction_of_file_names() {
    let show = |name: Option<&[u8]>| redacted_file_name("codex", name.map(|n| n.to_vec()));
    let name = Path::new("/x/a.jsonl").file_name().map(|n| n.as_encoded_bytes());
    assert_eq!(show(name), "[codex]/a.jsonl");
    assert_eq!(show(None), "[codex]/session");
    assert_eq!(show(Some(&[0xff])), "[codex]/session");
}
