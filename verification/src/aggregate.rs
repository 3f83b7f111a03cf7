//! Size aggregation: a walk over directory trees that sums file sizes,
//! counts files, and counts what it could not read.
//!
//! The walk itself touches no file system. It names the next directory to
//! list, is handed that directory's listing, and accounts for it. Whoever
//! drives it lists directories without following symbolic links.

use vstd::prelude::*;
use crate::paths::{is_plain_name, join, joined, plain_name};

verus! {

/// What a directory entry is, found without following a symbolic link.
#[derive(Clone, Copy, Debug, PartialEq, Eq, Structural)]
pub enum EntryKind {
    /// A regular file.
    File,
    /// A directory that is not a symbolic link.
    Directory,
    /// A symbolic link, whatever it points to.
    Symlink,
    /// An entry whose kind or size could not be read.
    Unreadable,
}

/// One entry of a directory listing. `size` counts for files only.
#[derive(Clone, Debug)]
pub struct DirEntry {
    pub name: String,
    pub kind: EntryKind,
    pub size: u64,
}

/// What listing one path gave.
#[derive(Clone, Debug)]
pub enum Listing {
    /// The path could not be opened.
    Unreadable,
    /// The path is a symbolic link. It is not followed.
    Symlink,
    /// The path is a regular file of this size.
    File { size: u64 },
    /// The path is a directory with these entries.
    Entries { entries: Vec<DirEntry> },
}

/// Byte total, file count and count of unreadable entries. Each counter
/// stops at the largest value of its type.
#[derive(Clone, Copy, Debug, PartialEq, Eq, Structural)]
pub struct Totals {
    pub total_bytes: u64,
    pub item_count: u32,
    pub unreadable_count: u32,
}

/// `x`, or the largest `u64` where `x` is beyond it.
pub open spec fn sat64(x: int) -> u64 {
    if x > u64::MAX {
        u64::MAX
    } else if x < 0 {
        0
    } else {
        x as u64
    }
}

/// `x`, or the largest `u32` where `x` is beyond it.
pub open spec fn sat32(x: int) -> u32 {
    if x > u32::MAX {
        u32::MAX
    } else if x < 0 {
        0
    } else {
        x as u32
    }
}

impl Totals {
    /// Nothing counted.
    pub open spec fn zero() -> Totals {
        Totals { total_bytes: 0, item_count: 0, unreadable_count: 0 }
    }

    /// One more file of `size` bytes.
    pub open spec fn with_file(self, size: u64) -> Totals {
        Totals {
            total_bytes: sat64(self.total_bytes + size),
            item_count: sat32(self.item_count + 1),
            unreadable_count: self.unreadable_count,
        }
    }

    /// One more entry that could not be read.
    pub open spec fn with_unreadable(self) -> Totals {
        Totals {
            total_bytes: self.total_bytes,
            item_count: self.item_count,
            unreadable_count: sat32(self.unreadable_count + 1),
        }
    }

    /// Totals of nothing.
    pub fn new() -> (t: Totals)
        ensures
            t == Totals::zero(),
    {
        Totals { total_bytes: 0, item_count: 0, unreadable_count: 0 }
    }

    /// Counts one more file of `size` bytes.
    pub fn add_file(self, size: u64) -> (t: Totals)
        ensures
            t == self.with_file(size),
    {
        Totals {
            total_bytes: self.total_bytes.saturating_add(size),
            item_count: self.item_count.saturating_add(1),
            unreadable_count: self.unreadable_count,
        }
    }

    /// Counts one more entry that could not be read.
    pub fn add_unreadable(self) -> (t: Totals)
        ensures
            t == self.with_unreadable(),
    {
        Totals {
            total_bytes: self.total_bytes,
            item_count: self.item_count,
            unreadable_count: self.unreadable_count.saturating_add(1),
        }
    }
}

/// The walk goes down into `e`: a directory, not a link, with a plain name.
pub open spec fn descends(e: DirEntry) -> bool {
    e.kind == EntryKind::Directory && plain_name(e.name@)
}

/// `t` after one entry: a file adds its size and counts as an item; an
/// unreadable entry, or a directory whose name is not plain, counts as
/// unreadable; symbolic links and other directories leave `t` as it is.
pub open spec fn count_entry(t: Totals, e: DirEntry) -> Totals {
    match e.kind {
        EntryKind::File => t.with_file(e.size),
        EntryKind::Directory => if plain_name(e.name@) {
            t
        } else {
            t.with_unreadable()
        },
        EntryKind::Symlink => t,
        EntryKind::Unreadable => t.with_unreadable(),
    }
}

/// `t` after all of `entries`, in order.
pub open spec fn tally(t: Totals, entries: Seq<DirEntry>) -> Totals
    decreases entries.len(),
{
    if entries.len() == 0 {
        t
    } else {
        count_entry(tally(t, entries.drop_last()), entries.last())
    }
}

/// The directories below `dir` that the walk goes down into, in the order of
/// `entries`.
pub open spec fn subdirs(dir: Seq<char>, entries: Seq<DirEntry>) -> Seq<Seq<char>>
    decreases entries.len(),
{
    if entries.len() == 0 {
        Seq::empty()
    } else if descends(entries.last()) {
        subdirs(dir, entries.drop_last()).push(joined(dir, entries.last().name@))
    } else {
        subdirs(dir, entries.drop_last())
    }
}

/// The state of a walk: the directories still to list, the next one last,
/// and the totals so far.
pub struct WalkView {
    pub pending: Seq<Seq<char>>,
    pub totals: Totals,
}

impl WalkView {
    /// A walk that has `roots` to list and has counted nothing.
    pub open spec fn start(roots: Seq<Seq<char>>) -> WalkView {
        WalkView { pending: roots, totals: Totals::zero() }
    }

    /// The path whose listing the walk asks for, if any is left.
    pub open spec fn next(self) -> Option<Seq<char>> {
        if self.pending.len() == 0 {
            None
        } else {
            Some(self.pending.last())
        }
    }

    /// The walk after the listing of `self.next()`. A path that cannot be
    /// opened counts as one unreadable entry and ends there; a path that is
    /// a symbolic link is passed over; a walk with nothing left to list
    /// ignores the listing.
    pub open spec fn step(self, listing: Listing) -> WalkView {
        if self.pending.len() == 0 {
            self
        } else {
            let dir = self.pending.last();
            let rest = self.pending.drop_last();
            match listing {
                Listing::Unreadable => WalkView {
                    pending: rest,
                    totals: self.totals.with_unreadable(),
                },
                Listing::Symlink => WalkView { pending: rest, totals: self.totals },
                Listing::File { size } => WalkView {
                    pending: rest,
                    totals: self.totals.with_file(size),
                },
                Listing::Entries { entries } => WalkView {
                    pending: rest + subdirs(dir, entries@),
                    totals: tally(self.totals, entries@),
                },
            }
        }
    }

    /// The walk after `listings`, each the answer to the `next()` before it.
    pub open spec fn run(self, listings: Seq<Listing>) -> WalkView
        decreases listings.len(),
    {
        if listings.len() == 0 {
            self
        } else {
            self.run(listings.drop_last()).step(listings.last())
        }
    }
}

/// The bytes of the files among `entries`.
pub open spec fn file_bytes(entries: Seq<DirEntry>) -> nat
    decreases entries.len(),
{
    if entries.len() == 0 {
        0
    } else if entries.last().kind == EntryKind::File {
        file_bytes(entries.drop_last()) + entries.last().size as nat
    } else {
        file_bytes(entries.drop_last())
    }
}

/// How many of `entries` are files.
pub open spec fn file_count(entries: Seq<DirEntry>) -> nat
    decreases entries.len(),
{
    if entries.len() == 0 {
        0
    } else if entries.last().kind == EntryKind::File {
        file_count(entries.drop_last()) + 1
    } else {
        file_count(entries.drop_last())
    }
}

/// The entry is counted as unreadable: its kind says so, or it is a
/// directory without a plain name.
pub open spec fn unread(e: DirEntry) -> bool {
    e.kind == EntryKind::Unreadable || (e.kind == EntryKind::Directory && !plain_name(e.name@))
}

/// How many of `entries` are counted as unreadable.
pub open spec fn unread_count(entries: Seq<DirEntry>) -> nat
    decreases entries.len(),
{
    if entries.len() == 0 {
        0
    } else if unread(entries.last()) {
        unread_count(entries.drop_last()) + 1
    } else {
        unread_count(entries.drop_last())
    }
}

/// The tally of a listing is the sum over its entries: the bytes of its
/// files, the number of its files and the number of its unreadable entries
/// are added to what was counted before, each counter stopping at its
/// largest value. Symbolic links add nothing.
pub proof fn lemma_tally_is_sum(t: Totals, entries: Seq<DirEntry>)
    ensures
        tally(t, entries) == (Totals {
            total_bytes: sat64(t.total_bytes + file_bytes(entries)),
            item_count: sat32(t.item_count + file_count(entries)),
            unreadable_count: sat32(t.unreadable_count + unread_count(entries)),
        }),
    decreases entries.len(),
{
    if entries.len() > 0 {
        lemma_tally_is_sum(t, entries.drop_last());
    }
}

/// A path that cannot be opened when the walk comes to it is no error: the
/// walk counts one unreadable entry for it, adds no bytes and no items, and
/// goes on with what else is pending.
pub proof fn lemma_unreadable_path_is_counted(w: WalkView)
    requires
        w.pending.len() > 0,
    ensures
        w.step(Listing::Unreadable).pending == w.pending.drop_last(),
        w.step(Listing::Unreadable).totals == w.totals.with_unreadable(),
        w.step(Listing::Unreadable).totals.total_bytes == w.totals.total_bytes,
        w.step(Listing::Unreadable).totals.item_count == w.totals.item_count,
{
}

/// A root that was removed after it was resolved: the walk of that root
/// alone ends at once, with zero counts and an unreadable count of one.
pub proof fn lemma_vanished_root(root: Seq<char>)
    ensures
        WalkView::start(seq![root]).step(Listing::Unreadable) == (WalkView {
            pending: Seq::empty(),
            totals: Totals { total_bytes: 0, item_count: 0, unreadable_count: 1 },
        }),
{
    assert(seq![root].drop_last() =~= Seq::<Seq<char>>::empty());
}

/// Two lists of entries that say the same: names, kinds and sizes agree.
pub open spec fn same_entries(a: Seq<DirEntry>, b: Seq<DirEntry>) -> bool {
    &&& a.len() == b.len()
    &&& forall|i: int|
        0 <= i < a.len() ==> (#[trigger] a[i]).name@ == b[i].name@ && a[i].kind == b[i].kind
            && a[i].size == b[i].size
}

/// Two listings that say the same.
pub open spec fn same_listing(a: Listing, b: Listing) -> bool {
    match (a, b) {
        (Listing::Unreadable, Listing::Unreadable) => true,
        (Listing::Symlink, Listing::Symlink) => true,
        (Listing::File { size: x }, Listing::File { size: y }) => x == y,
        (Listing::Entries { entries: x }, Listing::Entries { entries: y }) => same_entries(
            x@,
            y@,
        ),
        _ => false,
    }
}

/// Two runs of listings that say the same, one by one.
pub open spec fn same_listings(a: Seq<Listing>, b: Seq<Listing>) -> bool {
    &&& a.len() == b.len()
    &&& forall|i: int| 0 <= i < a.len() ==> same_listing(#[trigger] a[i], b[i])
}

proof fn lemma_same_entries(t: Totals, dir: Seq<char>, a: Seq<DirEntry>, b: Seq<DirEntry>)
    requires
        same_entries(a, b),
    ensures
        tally(t, a) == tally(t, b),
        subdirs(dir, a) == subdirs(dir, b),
    decreases a.len(),
{
    if a.len() > 0 {
        lemma_same_entries(t, dir, a.drop_last(), b.drop_last());
    }
}

/// A scan has no hidden state: two walks of the same roots that are given
/// listings which say the same end in the same state, with the same totals.
pub proof fn lemma_same_listings_same_totals(
    roots: Seq<Seq<char>>,
    a: Seq<Listing>,
    b: Seq<Listing>,
)
    requires
        same_listings(a, b),
    ensures
        WalkView::start(roots).run(a) == WalkView::start(roots).run(b),
    decreases a.len(),
{
    if a.len() > 0 {
        lemma_same_listings_same_totals(roots, a.drop_last(), b.drop_last());
        let w = WalkView::start(roots).run(a.drop_last());
        if w.pending.len() > 0 {
            match (a.last(), b.last()) {
                (Listing::Entries { entries: x }, Listing::Entries { entries: y }) => {
                    lemma_same_entries(w.totals, w.pending.last(), x@, y@);
                },
                _ => {},
            }
        }
    }
}

/// A walk over the trees below some roots.
pub struct Walk {
    pending: Vec<String>,
    totals: Totals,
}

impl View for Walk {
    type V = WalkView;

    closed spec fn view(&self) -> WalkView {
        WalkView { pending: self.pending.deep_view(), totals: self.totals }
    }
}

impl Walk {
    /// A walk of what lies below `roots`. The root that stands last is
    /// listed first.
    pub fn new(roots: Vec<String>) -> (w: Walk)
        ensures
            w@ == WalkView::start(roots.deep_view()),
    {
        Walk { pending: roots, totals: Totals::new() }
    }

    /// The path to list next; `None` once the walk is over.
    pub fn next(&self) -> (dir: Option<String>)
        ensures
            dir.deep_view() == self@.next(),
    {
        let n = self.pending.len();
        if n == 0 {
            None
        } else {
            Some(self.pending[n - 1].clone())
        }
    }

    /// Whether nothing is left to list.
    pub fn is_done(&self) -> (b: bool)
        ensures
            b == (self@.next() is None),
    {
        self.pending.len() == 0
    }

    /// What the walk has counted so far.
    pub fn totals(&self) -> (t: Totals)
        ensures
            t == self@.totals,
    {
        self.totals
    }

    /// Accounts for the listing of the path that `next` named.
    pub fn step(&mut self, listing: &Listing)
        ensures
            final(self)@ == old(self)@.step(*listing),
    {
        let dir = match self.pending.pop() {
            None => {
                return ;
            },
            Some(d) => d,
        };
        let ghost rest = self.pending.deep_view();
        let ghost before = self.totals;
        assert(rest =~= old(self)@.pending.drop_last());
        match listing {
            Listing::Unreadable => {
                self.totals = self.totals.add_unreadable();
            },
            Listing::Symlink => {},
            Listing::File { size } => {
                self.totals = self.totals.add_file(*size);
            },
            Listing::Entries { entries } => {
                let n = entries.len();
                let mut i: usize = 0;
                while i < n
                    invariant
                        i <= n,
                        n == entries.len(),
                        self.pending.deep_view() == rest + subdirs(
                            dir@,
                            entries@.subrange(0, i as int),
                        ),
                        self.totals == tally(before, entries@.subrange(0, i as int)),
                    decreases n - i,
                {
                    let e = &entries[i];
                    let ghost seen = entries@.subrange(0, i as int);
                    let ghost now = entries@.subrange(0, i + 1);
                    assert(now.drop_last() =~= seen);
                    match e.kind {
                        EntryKind::File => {
                            self.totals = self.totals.add_file(e.size);
                        },
                        EntryKind::Directory => {
                            if is_plain_name(e.name.as_str()) {
                                let sub = join(dir.as_str(), e.name.as_str());
                                self.pending.push(sub);
                                assert(rest + subdirs(dir@, now) =~= (rest + subdirs(
                                    dir@,
                                    seen,
                                )).push(joined(dir@, e.name@)));
                            } else {
                                self.totals = self.totals.add_unreadable();
                            }
                        },
                        EntryKind::Symlink => {},
                        EntryKind::Unreadable => {
                            self.totals = self.totals.add_unreadable();
                        },
                    }
                    i = i + 1;
                }
                assert(entries@.subrange(0, n as int) =~= entries@);
            },
        }
    }
}

} // verus!
