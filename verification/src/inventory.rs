//! The inventory of a data directory: every file below it, with its path
//! below the directory and its size.
//!
//! An inventory is driven like a walk: it names the next directory to list
//! and is handed the listing. It goes where a walk goes and finds the files
//! that a walk counts.

use vstd::prelude::*;
use crate::aggregate::{DirEntry, EntryKind, Listing, Totals, WalkView, sat32, sat64, subdirs, tally};
use crate::appdata::{DataFile, DataFileView, file_views, total_bytes};
use crate::paths::{is_plain_name, join, joined, plain_name};

verus! {

/// A directory that is still to be listed: its path, and its path below the
/// directory that the inventory is of.
pub struct PlaceView {
    pub path: Seq<char>,
    pub relative: Seq<char>,
}

/// The state of an inventory: the directories still to list, the next one
/// last, and the files found so far.
#[verifier::ext_equal]
pub struct InventoryView {
    pub pending: Seq<PlaceView>,
    pub files: Seq<DataFileView>,
}

/// The paths of the pending directories, in order.
pub open spec fn paths_of(pending: Seq<PlaceView>) -> Seq<Seq<char>> {
    pending.map_values(|p: PlaceView| p.path)
}

impl InventoryView {
    /// An inventory that has `root` to list and has found nothing.
    pub open spec fn start(root: Seq<char>) -> InventoryView {
        InventoryView {
            pending: seq![PlaceView { path: root, relative: Seq::empty() }],
            files: Seq::empty(),
        }
    }

    /// The path whose listing the inventory asks for, if any is left.
    pub open spec fn next(self) -> Option<Seq<char>> {
        if self.pending.len() == 0 {
            None
        } else {
            Some(self.pending.last().path)
        }
    }

    /// The state after one entry `e` of the directory `place`: a file is
    /// found, a directory with a plain name is queued, and anything else,
    /// a symbolic link above all, is passed over.
    pub open spec fn note_entry(self, place: PlaceView, e: DirEntry) -> InventoryView {
        match e.kind {
            EntryKind::File => InventoryView {
                files: self.files.push(
                    DataFileView {
                        relative_path: joined(place.relative, e.name@),
                        size: e.size,
                    },
                ),
                ..self
            },
            EntryKind::Directory => if plain_name(e.name@) {
                InventoryView {
                    pending: self.pending.push(
                        PlaceView {
                            path: joined(place.path, e.name@),
                            relative: joined(place.relative, e.name@),
                        },
                    ),
                    ..self
                }
            } else {
                self
            },
            _ => self,
        }
    }

    /// The state after all of `entries` of the directory `place`, in order.
    pub open spec fn note_entries(self, place: PlaceView, entries: Seq<DirEntry>) -> InventoryView
        decreases entries.len(),
    {
        if entries.len() == 0 {
            self
        } else {
            self.note_entries(place, entries.drop_last()).note_entry(place, entries.last())
        }
    }

    /// The inventory after the listing of `self.next()`. A path that cannot
    /// be opened, or that is a symbolic link, holds no file; a path that is
    /// a file is found as one.
    pub open spec fn step(self, listing: Listing) -> InventoryView {
        if self.pending.len() == 0 {
            self
        } else {
            let place = self.pending.last();
            let rest = InventoryView { pending: self.pending.drop_last(), ..self };
            match listing {
                Listing::Unreadable => rest,
                Listing::Symlink => rest,
                Listing::File { size } => InventoryView {
                    files: rest.files.push(
                        DataFileView { relative_path: place.relative, size },
                    ),
                    ..rest
                },
                Listing::Entries { entries } => rest.note_entries(place, entries@),
            }
        }
    }

    /// The inventory after `listings`, each the answer to the `next()`
    /// before it.
    pub open spec fn run(self, listings: Seq<Listing>) -> InventoryView
        decreases listings.len(),
    {
        if listings.len() == 0 {
            self
        } else {
            self.run(listings.drop_last()).step(listings.last())
        }
    }
}

/// The walk `pending` and `t` and the inventory `inv` stand at the same
/// place: the same directories are pending, and the walk has counted the
/// files that the inventory has found.
pub open spec fn agree(pending: Seq<Seq<char>>, t: Totals, inv: InventoryView) -> bool {
    &&& pending == paths_of(inv.pending)
    &&& t.total_bytes == sat64(total_bytes(inv.files) as int)
    &&& t.item_count == sat32(inv.files.len() as int)
}

proof fn lemma_found_file(files: Seq<DataFileView>, f: DataFileView)
    ensures
        total_bytes(files.push(f)) == total_bytes(files) + f.size,
{
    assert(files.push(f).drop_last() =~= files);
}

proof fn lemma_entries_agree(
    pending: Seq<Seq<char>>,
    t: Totals,
    inv: InventoryView,
    place: PlaceView,
    entries: Seq<DirEntry>,
)
    requires
        agree(pending, t, inv),
    ensures
        agree(
            pending + subdirs(place.path, entries),
            tally(t, entries),
            inv.note_entries(place, entries),
        ),
    decreases entries.len(),
{
    if entries.len() > 0 {
        let head = entries.drop_last();
        let e = entries.last();
        lemma_entries_agree(pending, t, inv, place, head);
        let before = inv.note_entries(place, head);
        let after = before.note_entry(place, e);
        if e.kind == EntryKind::File {
            lemma_found_file(
                before.files,
                DataFileView { relative_path: joined(place.relative, e.name@), size: e.size },
            );
        }
        if e.kind == EntryKind::Directory && plain_name(e.name@) {
            let sub = joined(place.path, e.name@);
            assert(paths_of(after.pending) =~= paths_of(before.pending).push(sub));
        }
    }
}

/// An inventory goes where a walk goes and finds what the walk counts:
/// given the same listings, the same directories are pending, the bytes
/// that the walk has counted are the bytes of the files found, and its item
/// count is their number.
pub proof fn lemma_inventory_agrees_with_walk(root: Seq<char>, listings: Seq<Listing>)
    ensures
        agree(
            WalkView::start(seq![root]).run(listings).pending,
            WalkView::start(seq![root]).run(listings).totals,
            InventoryView::start(root).run(listings),
        ),
    decreases listings.len(),
{
    if listings.len() == 0 {
        assert(seq![root] =~= paths_of(InventoryView::start(root).pending));
    } else {
        lemma_inventory_agrees_with_walk(root, listings.drop_last());
        let w = WalkView::start(seq![root]).run(listings.drop_last());
        let inv = InventoryView::start(root).run(listings.drop_last());
        if w.pending.len() > 0 {
            let place = inv.pending.last();
            let rest = InventoryView { pending: inv.pending.drop_last(), ..inv };
            assert(w.pending.drop_last() =~= paths_of(rest.pending));
            match listings.last() {
                Listing::Unreadable => {},
                Listing::Symlink => {},
                Listing::File { size } => {
                    lemma_found_file(
                        rest.files,
                        DataFileView { relative_path: place.relative, size },
                    );
                },
                Listing::Entries { entries } => {
                    lemma_entries_agree(w.pending.drop_last(), w.totals, rest, place, entries@);
                },
            }
        }
    }
}

struct Place {
    path: String,
    relative: String,
}

spec fn place_views(pending: Seq<Place>) -> Seq<PlaceView> {
    pending.map_values(|p: Place| PlaceView { path: p.path@, relative: p.relative@ })
}

/// An inventory in progress.
pub struct Inventory {
    pending: Vec<Place>,
    files: Vec<DataFile>,
}

impl View for Inventory {
    type V = InventoryView;

    closed spec fn view(&self) -> InventoryView {
        InventoryView { pending: place_views(self.pending@), files: file_views(self.files@) }
    }
}

impl Inventory {
    /// An inventory of what lies below `root`.
    pub fn new(root: String) -> (inv: Inventory)
        ensures
            inv@ == InventoryView::start(root@),
    {
        let mut pending: Vec<Place> = Vec::new();
        pending.push(Place { path: root, relative: String::new() });
        let inv = Inventory { pending, files: Vec::new() };
        inv
    }

    /// The path to list next; `None` once the inventory is complete.
    pub fn next(&self) -> (dir: Option<String>)
        ensures
            dir.deep_view() == self@.next(),
    {
        let n = self.pending.len();
        if n == 0 {
            None
        } else {
            Some(self.pending[n - 1].path.clone())
        }
    }

    /// Whether nothing is left to list.
    pub fn is_done(&self) -> (b: bool)
        ensures
            b == (self@.next() is None),
    {
        self.pending.len() == 0
    }

    /// The files found, in the order in which they were found.
    pub fn into_files(self) -> (files: Vec<DataFile>)
        ensures
            file_views(files@) == self@.files,
    {
        self.files
    }

    /// Takes in the listing of the path that `next` named.
    pub fn step(&mut self, listing: &Listing)
        ensures
            final(self)@ == old(self)@.step(*listing),
    {
        let place = match self.pending.pop() {
            None => {
                return ;
            },
            Some(p) => p,
        };
        let ghost pv = PlaceView { path: place.path@, relative: place.relative@ };
        let ghost rest = self@;
        assert(rest =~= InventoryView { pending: old(self)@.pending.drop_last(), ..old(self)@ });
        match listing {
            Listing::Unreadable => {},
            Listing::Symlink => {},
            Listing::File { size } => {
                self.files.push(DataFile { relative_path: place.relative, size: *size });
            },
            Listing::Entries { entries } => {
                let n = entries.len();
                let mut i: usize = 0;
                while i < n
                    invariant
                        i <= n,
                        n == entries.len(),
                        pv == (PlaceView { path: place.path@, relative: place.relative@ }),
                        self@ == rest.note_entries(pv, entries@.subrange(0, i as int)),
                    decreases n - i,
                {
                    let e = &entries[i];
                    let ghost seen = entries@.subrange(0, i as int);
                    let ghost now = entries@.subrange(0, i + 1);
                    assert(now.drop_last() =~= seen);
                    match e.kind {
                        EntryKind::File => {
                            let relative = join(place.relative.as_str(), e.name.as_str());
                            self.files.push(DataFile { relative_path: relative, size: e.size });
                        },
                        EntryKind::Directory => {
                            if is_plain_name(e.name.as_str()) {
                                let path = join(place.path.as_str(), e.name.as_str());
                                let relative = join(place.relative.as_str(), e.name.as_str());
                                self.pending.push(Place { path, relative });
                            }
                        },
                        _ => {},
                    }
                    i = i + 1;
                }
                assert(entries@.subrange(0, n as int) =~= entries@);
            },
        }
    }
}

} // verus!
