use raw_mirror::layout::{
    assert_raw_mirror_root_contained, has_store_ending, index_run_lock_path, raw_mirror_root,
    ContainmentError,
};
use raw_mirror::path::MirrorPath;
use raw_mirror::purge::{PurgeAction, PurgeEvent, PurgeRun, RawMirrorPurgeStats, Removal};
use raw_mirror::tally::{tally_dir_best_effort, TreeEntry, TreeListing};

/// Files by path, with their sizes; a directory is there while a file is below it.
/// Links by path, with what they lead to.
struct Disk {
    files: Vec<(String, u64)>,
    links: Vec<(String, String)>,
    locked_by_other: bool,
    removal: Removal,
    removed_paths: Vec<String>,
}

fn text(path: &MirrorPath) -> String {
    String::from_utf8(path.as_bytes().to_vec()).unwrap()
}

impl Disk {
    fn new() -> Disk {
        Disk {
            files: Vec::new(),
            links: Vec::new(),
            locked_by_other: false,
            removal: Removal::Removed,
            removed_paths: Vec::new(),
        }
    }

    fn write(&mut self, path: &MirrorPath, size: u64) {
        self.files.push((text(path), size));
    }

    /// The path with the first link on it followed.
    fn resolved(&self, path: &MirrorPath) -> MirrorPath {
        let path = text(path);
        for (link, target) in &self.links {
            if path == *link {
                return MirrorPath::from_text(target);
            }
            if let Some(rest) = path.strip_prefix(&format!("{link}/")) {
                return MirrorPath::from_text(&format!("{target}/{rest}"));
            }
        }
        MirrorPath::from_text(&path)
    }

    fn holds(&self, path: &MirrorPath) -> bool {
        let path = text(&self.resolved(path));
        let below = format!("{path}/");
        self.files.iter().any(|f| f.0 == path || f.0.starts_with(&below))
    }

    fn list(&self, dir: &str) -> TreeListing {
        let below = format!("{dir}/");
        let mut names: Vec<String> = Vec::new();
        let mut entries: Vec<TreeEntry> = Vec::new();
        for (path, size) in &self.files {
            if let Some(rest) = path.strip_prefix(&below) {
                let name = rest.split('/').next().unwrap().to_string();
                if names.contains(&name) {
                    continue;
                }
                if name == rest {
                    entries.push(TreeEntry::Leaf(Some(*size)));
                } else {
                    entries.push(TreeEntry::Directory(self.list(&format!("{below}{name}"))));
                }
                names.push(name);
            }
        }
        TreeListing::Entries(entries)
    }

    fn purge(
        &mut self,
        data_dir: &MirrorPath,
        dry_run: bool,
    ) -> Result<RawMirrorPurgeStats, ContainmentError> {
        let mut run = PurgeRun::start(data_dir, dry_run);
        loop {
            let event = match run.action() {
                PurgeAction::Locate { data_dir, root } => {
                    if self.holds(&root) {
                        PurgeEvent::Found {
                            resolved_dir: self.resolved(&data_dir),
                            resolved_root: self.resolved(&root),
                        }
                    } else {
                        PurgeEvent::Absent
                    }
                }
                PurgeAction::TallyTree(path) => {
                    let listing = self.list(&text(&self.resolved(&path)));
                    let (bytes, entries) = tally_dir_best_effort(&listing);
                    PurgeEvent::Tallied { bytes, entries }
                }
                PurgeAction::TakeLock(path) => {
                    assert_eq!(path.as_bytes(), index_run_lock_path(data_dir).as_bytes());
                    PurgeEvent::Locked(!self.locked_by_other)
                }
                PurgeAction::RemoveTree(path) => {
                    self.removed_paths.push(text(&path));
                    if self.removal != Removal::Failed {
                        let below = format!("{}/", text(&self.resolved(&path)));
                        self.files.retain(|f| !f.0.starts_with(&below));
                    }
                    PurgeEvent::Removal(self.removal)
                }
                PurgeAction::Finish(stats) => return Ok(stats),
            };
            run = run.step(event)?;
        }
    }
}

fn seed_raw_mirror_store(disk: &mut Disk, data_dir: &MirrorPath) -> (MirrorPath, u64) {
    let root = raw_mirror_root(data_dir);
    let blob_dir = root.join("blobs/blake3/ab");
    let blob = blob_dir.join(&format!("{}.raw", "a".repeat(64)));
    let bytes = vec![0u8; 4096];
    disk.write(&blob, bytes.len() as u64);
    disk.write(&root.join("manifests").join("m.json"), 2);
    (root, bytes.len() as u64)
}

#[test]
fn purge_removes_root_and_is_idempotent() {
    let mut disk = Disk::new();
    let data_dir = MirrorPath::from_text("/tmp/t").join("cass-data");
    let (root, _) = seed_raw_mirror_store(&mut disk, &data_dir);
    assert!(disk.holds(&root));

    let stats = disk.purge(&data_dir, false).expect("purge");
    assert!(stats.removed, "store removed");
    assert!(!stats.dry_run);
    assert!(!disk.holds(&root), "raw-mirror root gone after purge");
    assert!(stats.bytes_reclaimed >= 4096);
    assert!(stats.entries_removed > 0);

    // Idempotent: a second purge is a clean no-op.
    let again = disk.purge(&data_dir, false).expect("re-purge");
    assert!(!again.removed);
    assert_eq!(again.bytes_reclaimed, 0);
    assert_eq!(again.entries_removed, 0);
}

#[test]
fn purge_dry_run_is_non_destructive() {
    let mut disk = Disk::new();
    let data_dir = MirrorPath::from_text("/tmp/t").join("cass-data");
    let (root, _) = seed_raw_mirror_store(&mut disk, &data_dir);

    let stats = disk.purge(&data_dir, true).expect("dry-run purge");
    assert!(stats.dry_run);
    assert!(!stats.removed, "dry run never removes");
    assert!(disk.holds(&root), "dry run must not delete the store");
    assert!(stats.bytes_reclaimed > 0, "dry run still tallies bytes");
    assert!(stats.entries_removed > 0, "dry run still tallies entries");
}

#[test]
fn purge_refuses_path_outside_root() {
    let temp = MirrorPath::from_text("/tmp/t");
    let data_dir = temp.join("cass-data");

    // The canonical root is accepted by the containment guard.
    let canonical = raw_mirror_root(&data_dir);
    assert_raw_mirror_root_contained(&data_dir, &canonical)
        .expect("canonical root must pass containment");

    // A path that is NOT the canonical raw-mirror root is refused, even though
    // it is under data_dir (e.g. the sibling SQLite DB / Tantivy index dir).
    let hostile = data_dir.join("agent_search.db");
    let err = assert_raw_mirror_root_contained(&data_dir, &hostile)
        .expect_err("non-raw-mirror path must be refused");
    assert!(
        err.message().contains("refusing to purge raw mirror"),
        "unexpected containment error: {}",
        err.message()
    );

    // A raw-mirror root for a DIFFERENT data_dir is likewise refused.
    let other = raw_mirror_root(&temp.join("other-data"));
    let err = assert_raw_mirror_root_contained(&data_dir, &other)
        .expect_err("foreign raw-mirror root must be refused");
    assert!(err.message().contains("refusing to purge raw mirror"));
}

#[test]
fn purge_reports_exact_totals_and_spares_siblings() {
    let mut disk = Disk::new();
    let data_dir = MirrorPath::from_text("/tmp/t/cass-data");
    let (root, _) = seed_raw_mirror_store(&mut disk, &data_dir);
    disk.write(&data_dir.join("agent_search.db"), 77);
    disk.write(&data_dir.join("raw-mirror").join("v2/kept"), 5);
    let dry = disk.purge(&data_dir, true).unwrap();
    assert_eq!(
        dry,
        RawMirrorPurgeStats {
            removed: false,
            bytes_reclaimed: 4098,
            entries_removed: 6,
            dry_run: true
        }
    );
    let stats = disk.purge(&data_dir, false).unwrap();
    assert_eq!(
        stats,
        RawMirrorPurgeStats {
            removed: true,
            bytes_reclaimed: 4098,
            entries_removed: 6,
            dry_run: false
        }
    );
    assert_eq!(disk.removed_paths, vec![text(&root)]);
    assert!(disk.holds(&data_dir.join("agent_search.db")));
    assert!(disk.holds(&data_dir.join("raw-mirror/v2/kept")));
}

#[test]
fn purge_refuses_a_store_that_resolves_elsewhere() {
    for dry_run in [false, true] {
        let mut disk = Disk::new();
        let data_dir = MirrorPath::from_text("/home/u/data");
        disk.links.push(("/home/u/data/raw-mirror".to_string(), "/elsewhere".to_string()));
        let kept = MirrorPath::from_text("/elsewhere/v1/kept");
        disk.write(&kept, 9);
        let err = disk.purge(&data_dir, dry_run).unwrap_err();
        assert_eq!(
            err.message(),
            "refusing to purge raw mirror: resolved path /elsewhere/v1 \
             is not the canonical root /home/u/data/raw-mirror/v1"
        );
        assert!(disk.holds(&kept));
        assert!(disk.removed_paths.is_empty());
    }
}

#[test]
fn purge_refuses_a_store_that_resolves_to_another_place_inside() {
    let mut disk = Disk::new();
    let data_dir = MirrorPath::from_text("/d");
    disk.links.push(("/d/raw-mirror/v1".to_string(), "/d/agent_search.db".to_string()));
    disk.write(&MirrorPath::from_text("/d/agent_search.db"), 7);
    assert!(matches!(
        disk.purge(&data_dir, false),
        Err(ContainmentError::NotCanonical { .. })
    ));
    assert!(disk.holds(&MirrorPath::from_text("/d/agent_search.db")));
}

#[test]
fn purge_follows_a_data_dir_that_is_a_link() {
    let mut disk = Disk::new();
    let (real_root, _) = seed_raw_mirror_store(&mut disk, &MirrorPath::from_text("/mnt/data"));
    disk.links.push(("/home/u/data".to_string(), "/mnt/data".to_string()));
    let data_dir = MirrorPath::from_text("/home/u/data");
    let stats = disk.purge(&data_dir, false).unwrap();
    assert!(stats.removed);
    assert_eq!(stats.bytes_reclaimed, 4098);
    assert!(!disk.holds(&real_root));
}

#[test]
fn purge_skips_while_the_lock_is_taken() {
    let mut disk = Disk::new();
    let data_dir = MirrorPath::from_text("data");
    let (root, _) = seed_raw_mirror_store(&mut disk, &data_dir);
    disk.locked_by_other = true;
    assert_eq!(disk.purge(&data_dir, false).unwrap(), RawMirrorPurgeStats::default());
    assert!(disk.holds(&root));
    assert!(disk.removed_paths.is_empty());
}

#[test]
fn purge_failure_reports_nothing_reclaimed() {
    let mut disk = Disk::new();
    let data_dir = MirrorPath::from_text("data");
    let (root, _) = seed_raw_mirror_store(&mut disk, &data_dir);
    disk.removal = Removal::Failed;
    assert_eq!(disk.purge(&data_dir, false).unwrap(), RawMirrorPurgeStats::default());
    assert!(disk.holds(&root));
    disk.removal = Removal::Absent;
    let stats = disk.purge(&data_dir, false).unwrap();
    assert!(stats.removed);
    assert_eq!(stats.bytes_reclaimed, 4098);
}

#[test]
fn purge_ignores_an_answer_to_another_question() {
    let data_dir = MirrorPath::from_text("data");
    let run = PurgeRun::start(&data_dir, false);
    let run = run.step(PurgeEvent::Removal(Removal::Removed)).unwrap();
    let run = run.step(PurgeEvent::Locked(true)).unwrap();
    assert!(matches!(run.action(), PurgeAction::Locate { .. }));
}

#[test]
fn containment_compares_components() {
    let data_dir = MirrorPath::from_text("/d//x/");
    let spelled = MirrorPath::from_text("/d/./x/raw-mirror//v1/");
    assert!(assert_raw_mirror_root_contained(&data_dir, &spelled).is_ok());
    let climbing = MirrorPath::from_text("/d/x/../x/raw-mirror/v1");
    let err = assert_raw_mirror_root_contained(&data_dir, &climbing).unwrap_err();
    assert_eq!(
        err.message(),
        "refusing to purge raw mirror: resolved path /d/x/../x/raw-mirror/v1 \
         is not the canonical root /d//x/raw-mirror/v1"
    );
}

#[test]
fn containment_messages() {
    let root = MirrorPath::from_bytes(vec![b'a', 0xff, b'b']);
    let err = ContainmentError::WrongEnding { root };
    assert_eq!(
        err.message(),
        "refusing to purge raw mirror: path a\u{fffd}b does not end in raw-mirror/v1"
    );
}

#[test]
fn store_ending() {
    assert!(has_store_ending(&MirrorPath::from_text("raw-mirror/v1")));
    assert!(has_store_ending(&MirrorPath::from_text("/x/raw-mirror/v1/.")));
    assert!(!has_store_ending(&MirrorPath::from_text("v1")));
    assert!(!has_store_ending(&MirrorPath::from_text("raw-mirror/x/v1")));
    assert!(!has_store_ending(&MirrorPath::from_text("raw-mirror/v1/..")));
}

#[test]
fn roots_and_locks() {
    let data_dir = MirrorPath::from_text("/var/cass");
    assert_eq!(raw_mirror_root(&data_dir).as_bytes(), b"/var/cass/raw-mirror/v1");
    assert_eq!(index_run_lock_path(&data_dir).as_bytes(), b"/var/cass/index-run.lock");
    assert_eq!(raw_mirror_root(&MirrorPath::from_text("")).as_bytes(), b"raw-mirror/v1");
}

#[test]
fn tally_counts_best_effort() {
    let listing = TreeListing::Entries(vec![
        TreeEntry::Leaf(Some(10)),
        TreeEntry::Leaf(None),
        TreeEntry::Unknown,
        TreeEntry::Directory(TreeListing::Unreadable),
        TreeEntry::Directory(TreeListing::Entries(vec![TreeEntry::Leaf(Some(5))])),
    ]);
    assert_eq!(tally_dir_best_effort(&listing), (15, 6));
    assert_eq!(tally_dir_best_effort(&TreeListing::Unreadable), (0, 0));
    assert_eq!(tally_dir_best_effort(&TreeListing::Entries(vec![])), (0, 0));
}

#[test]
fn tally_saturates() {
    let listing = TreeListing::Entries(vec![
        TreeEntry::Leaf(Some(u64::MAX)),
        TreeEntry::Directory(TreeListing::Entries(vec![TreeEntry::Leaf(Some(5))])),
    ]);
    assert_eq!(tally_dir_best_effort(&listing), (u64::MAX, 3));
}

#[test]
fn tally_does_not_depend_on_the_order() {
    let dir = || TreeEntry::Directory(TreeListing::Entries(vec![TreeEntry::Leaf(Some(9))]));
    let a = TreeListing::Entries(vec![TreeEntry::Leaf(Some(1)), dir(), TreeEntry::Unknown]);
    let b = TreeListing::Entries(vec![TreeEntry::Unknown, TreeEntry::Leaf(Some(1)), dir()]);
    assert_eq!(tally_dir_best_effort(&a), (10, 4));
    assert_eq!(tally_dir_best_effort(&b), (10, 4));
}

#[test]
fn tally_does_not_depend_on_the_order_below() {
    let dir = |a: u64, b: u64| {
        TreeEntry::Directory(TreeListing::Entries(vec![
            TreeEntry::Leaf(Some(a)),
            TreeEntry::Directory(TreeListing::Unreadable),
            TreeEntry::Leaf(Some(b)),
        ]))
    };
    let a = TreeListing::Entries(vec![dir(1, 2), TreeEntry::Unknown, dir(3, 4)]);
    let b = TreeListing::Entries(vec![dir(4, 3), dir(2, 1), TreeEntry::Unknown]);
    assert_eq!(tally_dir_best_effort(&a), (10, 9));
    assert_eq!(tally_dir_best_effort(&b), (10, 9));
}
