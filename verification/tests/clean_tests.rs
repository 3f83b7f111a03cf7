use std::collections::BTreeMap;

use ccooler::aggregate::{DirEntry, EntryKind, Listing};
use ccooler::clean::{
    clean_files, validate_selection, CleanAction, CleanError, CleanEvent, CleanResult, Cleaner,
    Failure, FailureReason,
};
use ccooler::registry::{Category, PathSpec, Registry};
use ccooler::resolve::{retain_existing, Host, Variable};

struct FakeEntry {
    name: String,
    kind: EntryKind,
    size: u64,
    locked: bool,
}

struct FakeFs {
    dirs: BTreeMap<String, Vec<FakeEntry>>,
    deleted: Vec<String>,
    removed: Vec<String>,
}

fn file(name: &str, size: u64) -> FakeEntry {
    FakeEntry { name: name.to_string(), kind: EntryKind::File, size, locked: false }
}

fn locked(name: &str, size: u64) -> FakeEntry {
    FakeEntry { name: name.to_string(), kind: EntryKind::File, size, locked: true }
}

fn dir(name: &str) -> FakeEntry {
    FakeEntry { name: name.to_string(), kind: EntryKind::Directory, size: 0, locked: false }
}

fn link(name: &str) -> FakeEntry {
    FakeEntry { name: name.to_string(), kind: EntryKind::Symlink, size: 0, locked: false }
}

fn split(path: &str) -> (String, String) {
    let at = path.rfind('\\').unwrap();
    (path[..at].to_string(), path[at + 1..].to_string())
}

impl FakeFs {
    fn new() -> FakeFs {
        FakeFs { dirs: BTreeMap::new(), deleted: Vec::new(), removed: Vec::new() }
    }

    fn with(mut self, path: &str, entries: Vec<FakeEntry>) -> FakeFs {
        self.dirs.insert(path.to_string(), entries);
        self
    }

    fn list(&self, path: &str) -> Listing {
        match self.dirs.get(path) {
            None => Listing::Unreadable,
            Some(entries) => Listing::Entries {
                entries: entries
                    .iter()
                    .map(|e| DirEntry { name: e.name.clone(), kind: e.kind, size: e.size })
                    .collect(),
            },
        }
    }

    fn delete(&mut self, path: &str) -> CleanEvent {
        let (parent, name) = split(path);
        let entries = match self.dirs.get_mut(&parent) {
            None => return CleanEvent::NotDeleted { reason: FailureReason::Vanished },
            Some(entries) => entries,
        };
        match entries.iter().position(|e| e.name == name && e.kind == EntryKind::File) {
            None => CleanEvent::NotDeleted { reason: FailureReason::Vanished },
            Some(at) => {
                if entries[at].locked {
                    CleanEvent::NotDeleted { reason: FailureReason::Locked }
                } else {
                    entries.remove(at);
                    self.deleted.push(path.to_string());
                    CleanEvent::Deleted
                }
            }
        }
    }

    fn remove_dir(&mut self, path: &str) -> CleanEvent {
        match self.dirs.get(path) {
            Some(entries) if entries.is_empty() => {}
            _ => return CleanEvent::DirKept,
        }
        self.dirs.remove(path);
        let (parent, name) = split(path);
        if let Some(entries) = self.dirs.get_mut(&parent) {
            entries.retain(|e| e.name != name);
        }
        self.removed.push(path.to_string());
        CleanEvent::DirRemoved
    }
}

fn run_clean(roots: Vec<String>, fs: &mut FakeFs) -> CleanResult {
    let mut cleaner = Cleaner::new(roots);
    let mut steps = 0;
    loop {
        steps += 1;
        assert!(steps < 10_000);
        let event = match cleaner.next_action() {
            CleanAction::Done => break,
            CleanAction::List { path } => CleanEvent::Listed { listing: fs.list(&path) },
            CleanAction::Delete { path } => fs.delete(&path),
            CleanAction::RemoveDir { path } => fs.remove_dir(&path),
        };
        cleaner = cleaner.advance(&event);
    }
    assert!(cleaner.is_done());
    cleaner.into_result()
}

fn recycle_bin_registry() -> Registry {
    let category = Category {
        id: 3,
        name: "recycle bin".to_string(),
        path_specs: vec![PathSpec::Literal { path: "C:\\$Recycle.Bin".to_string() }],
        sub_breakdown: None,
    };
    Registry::new(vec![category]).unwrap()
}

fn no_host() -> Host {
    Host { variables: Vec::new(), installed: Vec::new() }
}

fn paths_of(failures: &[Failure]) -> Vec<String> {
    failures.iter().map(|f| f.path.clone()).collect()
}

#[test]
fn recycle_bin_with_a_locked_file() {
    let registry = recycle_bin_registry();
    let mut fs = FakeFs::new().with(
        "C:\\$Recycle.Bin",
        vec![file("a.tmp", 1024), file("b.tmp", 2048), locked("c.tmp", 5120)],
    );
    let candidates = clean_files(&registry, &vec![3], &no_host()).unwrap();
    assert_eq!(candidates, vec!["C:\\$Recycle.Bin".to_string()]);
    let roots = retain_existing(candidates, &vec![true]);
    let result = run_clean(roots, &mut fs);
    assert_eq!(result.freed_bytes, 3072);
    assert_eq!(result.deleted_item_count, 2);
    assert_eq!(result.failed_item_count, 1);
    assert!(!result.success);
    assert_eq!(paths_of(&result.failures), vec!["C:\\$Recycle.Bin\\c.tmp".to_string()]);
    assert_eq!(result.failures[0].reason, FailureReason::Locked);
    assert_eq!(fs.deleted.len(), 2);
    assert_eq!(fs.dirs["C:\\$Recycle.Bin"].len(), 1);
}

#[test]
fn empty_selection_cleans_nothing() {
    let registry = Registry::builtin();
    let candidates = clean_files(&registry, &Vec::new(), &no_host()).unwrap();
    assert!(candidates.is_empty());
    let roots = retain_existing(candidates, &Vec::new());
    let cleaner = Cleaner::new(roots);
    assert!(cleaner.is_done());
    assert!(matches!(cleaner.next_action(), CleanAction::Done));
    let result = cleaner.into_result();
    assert_eq!(result.freed_bytes, 0);
    assert_eq!(result.deleted_item_count, 0);
    assert_eq!(result.failed_item_count, 0);
    assert!(result.success);
    assert!(result.failures.is_empty());
}

#[test]
fn unknown_id_is_refused_before_anything_is_resolved() {
    let registry = Registry::builtin();
    let selection = vec![1, 99, 3];
    assert_eq!(validate_selection(&registry, &selection), Err(CleanError::InvalidCategoryId(99)));
    let outcome = clean_files(&registry, &selection, &no_host());
    assert_eq!(outcome, Err(CleanError::InvalidCategoryId(99)));
}

#[test]
fn first_unknown_id_is_the_one_named() {
    let registry = Registry::builtin();
    assert_eq!(
        clean_files(&registry, &vec![7, 42, 43], &no_host()),
        Err(CleanError::InvalidCategoryId(42))
    );
    assert_eq!(validate_selection(&registry, &vec![1, 2, 3, 4, 5, 6, 7]), Ok(()));
}

#[test]
fn cleaning_twice_frees_nothing_the_second_time() {
    let root = "C:\\Temp".to_string();
    let mut fs = FakeFs::new()
        .with("C:\\Temp", vec![file("a", 10), dir("sub"), link("elsewhere")])
        .with("C:\\Temp\\sub", vec![file("b", 20), dir("deep")])
        .with("C:\\Temp\\sub\\deep", vec![file("c", 30)]);
    let first = run_clean(vec![root.clone()], &mut fs);
    assert_eq!(first.freed_bytes, 60);
    assert_eq!(first.deleted_item_count, 3);
    assert_eq!(first.failed_item_count, 0);
    assert!(first.success);
    assert_eq!(fs.removed, vec!["C:\\Temp\\sub\\deep".to_string(), "C:\\Temp\\sub".to_string()]);
    assert!(fs.dirs.contains_key("C:\\Temp"));
    let second = run_clean(vec![root], &mut fs);
    assert_eq!(second.freed_bytes, 0);
    assert_eq!(second.deleted_item_count, 0);
    assert_eq!(second.failed_item_count, 0);
    assert!(second.success);
    assert!(second.failures.is_empty());
}

#[test]
fn a_failure_takes_nothing_back_and_the_clean_goes_on() {
    let mut fs = FakeFs::new()
        .with("C:\\Temp", vec![file("first", 7), locked("held", 100), file("last", 5)]);
    let result = run_clean(vec!["C:\\Temp".to_string()], &mut fs);
    assert_eq!(result.freed_bytes, 12);
    assert_eq!(result.deleted_item_count, 2);
    assert_eq!(result.failed_item_count, 1);
    assert!(!result.success);
    assert_eq!(fs.deleted.len(), 2);
}

#[test]
fn a_directory_that_keeps_a_file_is_not_removed_and_not_counted() {
    let mut fs = FakeFs::new()
        .with("C:\\Temp", vec![dir("kept"), dir("gone")])
        .with("C:\\Temp\\kept", vec![locked("held", 1)])
        .with("C:\\Temp\\gone", vec![file("x", 2)]);
    let result = run_clean(vec!["C:\\Temp".to_string()], &mut fs);
    assert_eq!(result.deleted_item_count, 1);
    assert_eq!(result.failed_item_count, 1);
    assert_eq!(fs.removed, vec!["C:\\Temp\\gone".to_string()]);
    assert!(fs.dirs.contains_key("C:\\Temp\\kept"));
}

#[test]
fn an_entry_that_steps_out_of_the_root_is_left_alone() {
    let mut fs = FakeFs::new()
        .with("C:\\Temp", vec![file("..", 9), dir(".."), file("ok", 1)])
        .with("C:", vec![file("precious", 1000)]);
    let result = run_clean(vec!["C:\\Temp".to_string()], &mut fs);
    assert_eq!(result.freed_bytes, 1);
    assert_eq!(result.deleted_item_count, 1);
    assert_eq!(result.failed_item_count, 2);
    assert_eq!(result.failures[0].reason, FailureReason::OutsideRoot);
    assert_eq!(result.failures[1].reason, FailureReason::OutsideRoot);
    assert_eq!(fs.deleted, vec!["C:\\Temp\\ok".to_string()]);
    assert_eq!(fs.dirs["C:"].len(), 1);
}

#[test]
fn links_are_neither_followed_nor_deleted() {
    let mut fs = FakeFs::new()
        .with("C:\\Temp", vec![link("away")])
        .with("C:\\Temp\\away", vec![file("target", 50)]);
    let result = run_clean(vec!["C:\\Temp".to_string()], &mut fs);
    assert_eq!(result.freed_bytes, 0);
    assert_eq!(result.deleted_item_count, 0);
    assert!(result.success);
    assert_eq!(fs.dirs["C:\\Temp\\away"].len(), 1);
}

#[test]
fn an_unreadable_root_is_a_failure_of_the_clean() {
    let mut fs = FakeFs::new();
    let result = run_clean(vec!["C:\\Nowhere".to_string()], &mut fs);
    assert_eq!(result.failed_item_count, 1);
    assert!(!result.success);
    assert_eq!(result.failures[0].path, "C:\\Nowhere");
    assert_eq!(result.failures[0].reason, FailureReason::Unreadable);
}

#[test]
fn an_event_that_answers_nothing_changes_nothing() {
    let cleaner = Cleaner::new(vec!["C:\\Temp".to_string()]);
    let cleaner = cleaner.advance(&CleanEvent::Deleted);
    let cleaner = cleaner.advance(&CleanEvent::DirRemoved);
    assert!(matches!(cleaner.next_action(), CleanAction::List { path } if path == "C:\\Temp"));
    let result = cleaner.into_result();
    assert_eq!(result.deleted_item_count, 0);
    assert!(result.success);
}

#[test]
fn a_root_that_is_a_file_is_deleted_as_a_file() {
    let cleaner = Cleaner::new(vec!["C:\\old.log".to_string()]);
    let cleaner = cleaner.advance(&CleanEvent::Listed { listing: Listing::File { size: 77 } });
    assert!(matches!(cleaner.next_action(), CleanAction::Delete { path } if path == "C:\\old.log"));
    let cleaner = cleaner.advance(&CleanEvent::Deleted);
    assert!(cleaner.is_done());
    let result = cleaner.into_result();
    assert_eq!(result.freed_bytes, 77);
    assert_eq!(result.deleted_item_count, 1);
}

#[test]
fn selected_categories_resolve_in_registry_order_and_once() {
    let registry = Registry::builtin();
    let host = Host {
        variables: vec![
            Variable { name: "TEMP".to_string(), value: "C:\\Users\\u\\Temp".to_string() },
            Variable { name: "USERPROFILE".to_string(), value: "C:\\Users\\u".to_string() },
        ],
        installed: Vec::new(),
    };
    let candidates = clean_files(&registry, &vec![6, 1, 6], &host).unwrap();
    assert_eq!(
        candidates,
        vec![
            "C:\\Users\\u\\Temp".to_string(),
            "C:\\Windows\\Temp".to_string(),
            "C:\\Users\\u\\Downloads".to_string(),
        ]
    );
}

#[test]
fn partial_outcomes_merge() {
    let mut a = CleanResult::new();
    a.record_deleted(100);
    a.record_failed("x".to_string(), FailureReason::Locked);
    let mut b = CleanResult::new();
    b.record_deleted(11);
    b.record_deleted(1);
    let merged = a.merge(b);
    assert_eq!(merged.freed_bytes, 112);
    assert_eq!(merged.deleted_item_count, 3);
    assert_eq!(merged.failed_item_count, 1);
    assert!(!merged.success);
    assert_eq!(merged.failures.len(), 1);
}

#[test]
fn counters_stop_at_their_largest_value() {
    let mut r = CleanResult::new();
    r.record_deleted(u64::MAX);
    r.record_deleted(5);
    assert_eq!(r.freed_bytes, u64::MAX);
    assert_eq!(r.deleted_item_count, 2);
    let mut full = CleanResult::new();
    full.deleted_item_count = u32::MAX;
    full.record_deleted(1);
    assert_eq!(full.deleted_item_count, u32::MAX);
}

#[test]
fn a_root_that_is_a_link_is_left_alone() {
    let cleaner = Cleaner::new(vec!["C:\\Link".to_string()]);
    let cleaner = cleaner.advance(&CleanEvent::Listed { listing: Listing::Symlink });
    assert!(cleaner.is_done());
    let result = cleaner.into_result();
    assert!(result.success);
    assert_eq!(result.deleted_item_count, 0);
    assert_eq!(result.failed_item_count, 0);
}

#[test]
fn the_reason_of_a_failure_is_recorded_as_reported() {
    let reasons = [
        FailureReason::PermissionDenied,
        FailureReason::Locked,
        FailureReason::Vanished,
        FailureReason::Other,
    ];
    let mut cleaner = Cleaner::new(vec!["C:\\Temp".to_string()]);
    let entries = (0..reasons.len())
        .map(|k| DirEntry { name: format!("f{}", k), kind: EntryKind::File, size: 10 })
        .collect();
    cleaner = cleaner.advance(&CleanEvent::Listed { listing: Listing::Entries { entries } });
    let mut expected = Vec::new();
    for reason in reasons {
        match cleaner.next_action() {
            CleanAction::Delete { path } => expected.push((path, reason)),
            other => panic!("a file is still to delete, not {:?}", other),
        }
        cleaner = cleaner.advance(&CleanEvent::NotDeleted { reason });
    }
    assert!(cleaner.is_done());
    let result = cleaner.into_result();
    assert_eq!(result.freed_bytes, 0);
    assert_eq!(result.deleted_item_count, 0);
    assert_eq!(result.failed_item_count, 4);
    assert!(!result.success);
    let recorded: Vec<(String, FailureReason)> =
        result.failures.iter().map(|f| (f.path.clone(), f.reason)).collect();
    assert_eq!(recorded, expected);
    assert_eq!(recorded[0].0, "C:\\Temp\\f3");
}
