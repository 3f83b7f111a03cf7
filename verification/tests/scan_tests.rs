use std::collections::BTreeMap;

use ccooler::aggregate::{DirEntry, EntryKind, Listing, Totals, Walk};
use ccooler::registry::{Category, PathSpec, Registry};
use ccooler::scan::{scan_clean_items, CategoryScan};

fn entry(name: &str, kind: EntryKind, size: u64) -> DirEntry {
    DirEntry { name: name.to_string(), kind, size }
}

fn tree() -> BTreeMap<String, Vec<DirEntry>> {
    let mut t = BTreeMap::new();
    t.insert(
        "C:\\Temp".to_string(),
        vec![
            entry("a.log", EntryKind::File, 100),
            entry("sub", EntryKind::Directory, 0),
            entry("link", EntryKind::Symlink, 4096),
            entry("held", EntryKind::Unreadable, 0),
        ],
    );
    t.insert(
        "C:\\Temp\\sub".to_string(),
        vec![entry("b.log", EntryKind::File, 20), entry("c.log", EntryKind::File, 3)],
    );
    t.insert("C:\\Temp\\link".to_string(), vec![entry("far", EntryKind::File, 1_000_000)]);
    t
}

fn measure(roots: Vec<String>, tree: &BTreeMap<String, Vec<DirEntry>>) -> Totals {
    let mut walk = Walk::new(roots);
    let mut steps = 0;
    while let Some(dir) = walk.next() {
        steps += 1;
        assert!(steps < 10_000);
        let listing = match tree.get(&dir) {
            Some(entries) => Listing::Entries { entries: entries.clone() },
            None => Listing::Unreadable,
        };
        walk.step(&listing);
    }
    assert!(walk.is_done());
    walk.totals()
}

#[test]
fn walk_sums_files_and_skips_links() {
    let totals = measure(vec!["C:\\Temp".to_string()], &tree());
    assert_eq!(totals, Totals { total_bytes: 123, item_count: 3, unreadable_count: 1 });
}

#[test]
fn scanning_twice_gives_the_same_totals() {
    let t = tree();
    let first = measure(vec!["C:\\Temp".to_string()], &t);
    let second = measure(vec!["C:\\Temp".to_string()], &t);
    assert_eq!(first, second);
}

#[test]
fn a_root_that_vanished_counts_as_unreadable() {
    let totals = measure(vec!["C:\\Gone".to_string()], &tree());
    assert_eq!(totals, Totals { total_bytes: 0, item_count: 0, unreadable_count: 1 });
}

#[test]
fn a_vanished_root_does_not_stop_the_other_roots() {
    let totals = measure(vec!["C:\\Gone".to_string(), "C:\\Temp".to_string()], &tree());
    assert_eq!(totals, Totals { total_bytes: 123, item_count: 3, unreadable_count: 2 });
}

#[test]
fn a_walk_of_no_roots_is_over_at_once() {
    let walk = Walk::new(Vec::new());
    assert!(walk.is_done());
    assert_eq!(walk.next(), None);
    assert_eq!(walk.totals(), Totals { total_bytes: 0, item_count: 0, unreadable_count: 0 });
}

#[test]
fn a_listing_without_a_pending_directory_is_ignored() {
    let mut walk = Walk::new(Vec::new());
    walk.step(&Listing::File { size: 9 });
    assert_eq!(walk.totals(), Totals::new());
}

#[test]
fn a_root_that_is_a_file_counts_as_one_item() {
    let mut walk = Walk::new(vec!["C:\\pagefile.sys".to_string()]);
    walk.step(&Listing::File { size: 4096 });
    assert!(walk.is_done());
    assert_eq!(walk.totals(), Totals { total_bytes: 4096, item_count: 1, unreadable_count: 0 });
}

#[test]
fn a_directory_without_a_plain_name_is_not_entered() {
    let mut walk = Walk::new(vec!["C:\\Temp".to_string()]);
    walk.step(&Listing::Entries {
        entries: vec![
            entry("..", EntryKind::Directory, 0),
            entry(".", EntryKind::Directory, 0),
            entry("a\\b", EntryKind::Directory, 0),
            entry("", EntryKind::Directory, 0),
            entry("fine", EntryKind::Directory, 0),
        ],
    });
    assert_eq!(walk.totals().unreadable_count, 4);
    assert_eq!(walk.next(), Some("C:\\Temp\\fine".to_string()));
    walk.step(&Listing::Entries { entries: Vec::new() });
    assert!(walk.is_done());
}

#[test]
fn totals_stop_at_their_largest_value() {
    let t = Totals::new().add_file(u64::MAX).add_file(1);
    assert_eq!(t.total_bytes, u64::MAX);
    assert_eq!(t.item_count, 2);
    let full = Totals { total_bytes: 0, item_count: u32::MAX, unreadable_count: u32::MAX };
    assert_eq!(full.add_file(0).item_count, u32::MAX);
    assert_eq!(full.add_unreadable().unreadable_count, u32::MAX);
}

fn small_registry() -> Registry {
    let make = |id: u32, name: &str| Category {
        id,
        name: name.to_string(),
        path_specs: vec![PathSpec::Literal { path: format!("C:\\{}", name) }],
        sub_breakdown: None,
    };
    Registry::new(vec![make(10, "ten"), make(20, "twenty"), make(30, "thirty")]).unwrap()
}

fn scan_of(id: u32, bytes: u64) -> CategoryScan {
    CategoryScan {
        category_id: id,
        paths: vec![format!("C:\\{}", id)],
        totals: Totals { total_bytes: bytes, item_count: 1, unreadable_count: 0 },
    }
}

#[test]
fn entries_come_in_registry_order() {
    let registry = small_registry();
    let items = scan_clean_items(&registry, &vec![scan_of(30, 3), scan_of(10, 1), scan_of(20, 2)]);
    let ids: Vec<u32> = items.iter().map(|i| i.category_id).collect();
    assert_eq!(ids, vec![10, 20, 30]);
    let sizes: Vec<u64> = items.iter().map(|i| i.resolved_size_bytes).collect();
    assert_eq!(sizes, vec![1, 2, 3]);
    assert_eq!(items[1].name, "twenty");
    assert_eq!(items[1].paths, vec!["C:\\20".to_string()]);
    assert_eq!(items[1].resolved_item_count, 1);
}

#[test]
fn completion_order_does_not_show() {
    let registry = small_registry();
    let one = scan_clean_items(&registry, &vec![scan_of(10, 1), scan_of(20, 2), scan_of(30, 3)]);
    let other = scan_clean_items(&registry, &vec![scan_of(20, 2), scan_of(30, 3), scan_of(10, 1)]);
    assert_eq!(one.len(), other.len());
    for (a, b) in one.iter().zip(other.iter()) {
        assert_eq!(a.category_id, b.category_id);
        assert_eq!(a.name, b.name);
        assert_eq!(a.paths, b.paths);
        assert_eq!(a.resolved_size_bytes, b.resolved_size_bytes);
        assert_eq!(a.resolved_item_count, b.resolved_item_count);
        assert_eq!(a.unreadable_count, b.unreadable_count);
    }
}

#[test]
fn a_category_without_a_result_has_an_entry_of_zeros() {
    let registry = small_registry();
    let items = scan_clean_items(&registry, &vec![scan_of(20, 2)]);
    assert_eq!(items.len(), 3);
    assert_eq!(items[0].category_id, 10);
    assert_eq!(items[0].resolved_size_bytes, 0);
    assert_eq!(items[0].resolved_item_count, 0);
    assert_eq!(items[0].unreadable_count, 0);
    assert!(items[0].paths.is_empty());
    assert_eq!(items[1].resolved_size_bytes, 2);
}

#[test]
fn a_scan_with_nothing_resolvable_is_all_zero() {
    let registry = Registry::builtin();
    let items = scan_clean_items(&registry, &Vec::new());
    assert_eq!(items.len(), 7);
    for (k, item) in items.iter().enumerate() {
        assert_eq!(item.category_id as usize, k + 1);
        assert_eq!(item.resolved_size_bytes, 0);
        assert_eq!(item.resolved_item_count, 0);
        assert_eq!(item.unreadable_count, 0);
    }
}

#[test]
fn results_for_unknown_categories_are_left_out() {
    let registry = small_registry();
    let items = scan_clean_items(&registry, &vec![scan_of(99, 9), scan_of(10, 1), scan_of(10, 5)]);
    assert_eq!(items.len(), 3);
    assert_eq!(items[0].resolved_size_bytes, 1);
}

#[test]
fn a_root_that_is_a_link_is_passed_over() {
    let mut walk = Walk::new(vec!["C:\\Link".to_string()]);
    walk.step(&Listing::Symlink);
    assert!(walk.is_done());
    assert_eq!(walk.totals(), Totals::new());
}
