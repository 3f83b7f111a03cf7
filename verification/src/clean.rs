//! The clean executor.
//!
//! A clean begins with `clean_files`, which checks the selection against the
//! registry and resolves what is to be cleaned. Deleting is then driven
//! through a `Cleaner`: it names one action at a time (list a directory,
//! delete a file, remove a directory), the caller performs it and reports
//! what happened, and the cleaner keeps the account. It never names a path
//! outside the roots it was made with.

use vstd::prelude::*;
use crate::aggregate::{DirEntry, EntryKind, Listing, sat32, sat64};
use crate::paths::{is_within, join, joined, lemma_entry_within, plain_name, within};
use crate::registry::{Category, Registry, has_id, valid};
use crate::resolve::{Host, candidates, resolve_category};

verus! {

/// Why an item was not cleaned.
#[derive(Clone, Copy, Debug, PartialEq, Eq, Structural)]
pub enum FailureReason {
    /// The host denied the deletion.
    PermissionDenied,
    /// The file is in use.
    Locked,
    /// The file was gone when its deletion was tried.
    Vanished,
    /// The entry or directory could not be read.
    Unreadable,
    /// The path does not lie within the root it was found under.
    OutsideRoot,
    /// Any other failure of the host.
    Other,
}

/// One item that was not cleaned.
#[derive(Clone, Debug)]
pub struct Failure {
    pub path: String,
    pub reason: FailureReason,
}

/// A failure as plain values.
pub struct FailureView {
    pub path: Seq<char>,
    pub reason: FailureReason,
}

impl View for Failure {
    type V = FailureView;

    open spec fn view(&self) -> FailureView {
        FailureView { path: self.path@, reason: self.reason }
    }
}

/// The outcome of a clean. The counters stop at the largest value of their
/// type.
#[derive(Clone, Debug)]
pub struct CleanResult {
    pub success: bool,
    pub freed_bytes: u64,
    pub deleted_item_count: u32,
    pub failed_item_count: u32,
    pub failures: Vec<Failure>,
}

/// An outcome as plain values.
#[verifier::ext_equal]
pub struct CleanResultView {
    pub success: bool,
    pub freed_bytes: u64,
    pub deleted_item_count: u32,
    pub failed_item_count: u32,
    pub failures: Seq<FailureView>,
}

impl View for CleanResult {
    type V = CleanResultView;

    open spec fn view(&self) -> CleanResultView {
        CleanResultView {
            success: self.success,
            freed_bytes: self.freed_bytes,
            deleted_item_count: self.deleted_item_count,
            failed_item_count: self.failed_item_count,
            failures: self.failures@.map_values(|f: Failure| f@),
        }
    }
}

impl CleanResultView {
    /// Nothing deleted, nothing failed.
    pub open spec fn zero() -> CleanResultView {
        CleanResultView {
            success: true,
            freed_bytes: 0,
            deleted_item_count: 0,
            failed_item_count: 0,
            failures: Seq::empty(),
        }
    }

    /// `success` says exactly that nothing failed, and the failures that are
    /// counted are the failures that are listed.
    pub open spec fn consistent(self) -> bool {
        &&& self.success <==> self.failed_item_count == 0
        &&& self.failed_item_count == sat32(self.failures.len() as int)
    }

    /// After the confirmed deletion of a file of `size` bytes.
    pub open spec fn deleted(self, size: u64) -> CleanResultView {
        CleanResultView {
            freed_bytes: sat64(self.freed_bytes + size),
            deleted_item_count: sat32(self.deleted_item_count + 1),
            ..self
        }
    }

    /// After an item at `path` was not cleaned. What was freed stays freed.
    pub open spec fn failed(self, path: Seq<char>, reason: FailureReason) -> CleanResultView {
        CleanResultView {
            success: false,
            failed_item_count: sat32(self.failed_item_count + 1),
            failures: self.failures.push(FailureView { path, reason }),
            ..self
        }
    }

    /// The sum of two partial outcomes: the counters add up and the failures
    /// of `other` follow those of `self`.
    pub open spec fn plus(self, other: CleanResultView) -> CleanResultView {
        CleanResultView {
            success: self.success && other.success,
            freed_bytes: sat64(self.freed_bytes + other.freed_bytes),
            deleted_item_count: sat32(self.deleted_item_count + other.deleted_item_count),
            failed_item_count: sat32(self.failed_item_count + other.failed_item_count),
            failures: self.failures + other.failures,
        }
    }
}

/// Merging partial outcomes keeps the account: an outcome of zero adds
/// nothing, it does not matter which two of three outcomes are merged first,
/// and where the parts are consistent, so is the whole.
pub proof fn lemma_merge_keeps_account(a: CleanResultView, b: CleanResultView, c: CleanResultView)
    ensures
        CleanResultView::zero().plus(a) == a,
        a.plus(CleanResultView::zero()) == a,
        a.plus(b).plus(c) == a.plus(b.plus(c)),
        a.consistent() && b.consistent() ==> a.plus(b).consistent(),
{
}

impl CleanResult {
    /// The outcome of a clean that has done nothing yet.
    pub fn new() -> (r: CleanResult)
        ensures
            r@ == CleanResultView::zero(),
    {
        let r = CleanResult {
            success: true,
            freed_bytes: 0,
            deleted_item_count: 0,
            failed_item_count: 0,
            failures: Vec::new(),
        };
        r
    }

    /// Accounts for a file of `size` bytes whose deletion was confirmed.
    pub fn record_deleted(&mut self, size: u64)
        ensures
            final(self)@ == old(self)@.deleted(size),
    {
        self.freed_bytes = self.freed_bytes.saturating_add(size);
        self.deleted_item_count = self.deleted_item_count.saturating_add(1);
    }

    /// Accounts for an item that was not cleaned.
    pub fn record_failed(&mut self, path: String, reason: FailureReason)
        ensures
            final(self)@ == old(self)@.failed(path@, reason),
    {
        self.success = false;
        self.failed_item_count = self.failed_item_count.saturating_add(1);
        self.failures.push(Failure { path, reason });
    }

    /// Merges the partial outcome of another worker into this one.
    pub fn merge(self, other: CleanResult) -> (r: CleanResult)
        ensures
            r@ == self@.plus(other@),
    {
        let mut failures = self.failures;
        let mut more = other.failures;
        failures.append(&mut more);
        let r = CleanResult {
            success: self.success && other.success,
            freed_bytes: self.freed_bytes.saturating_add(other.freed_bytes),
            deleted_item_count: self.deleted_item_count.saturating_add(other.deleted_item_count),
            failed_item_count: self.failed_item_count.saturating_add(other.failed_item_count),
            failures,
        };
        r
    }
}

/// Why a clean was refused.
#[derive(Clone, Copy, Debug, PartialEq, Eq, Structural)]
pub enum CleanError {
    /// The selection names this id, which the registry does not know.
    InvalidCategoryId(u32),
}

/// The registry knows every id of the selection.
pub open spec fn all_known(categories: Seq<Category>, ids: Seq<u32>) -> bool {
    forall|i: int| 0 <= i < ids.len() ==> has_id(categories, #[trigger] ids[i])
}

/// `id` is the first id of the selection that the registry does not know.
pub open spec fn is_first_unknown(categories: Seq<Category>, ids: Seq<u32>, id: u32) -> bool {
    exists|i: int|
        0 <= i < ids.len() && #[trigger] ids[i] == id && !has_id(categories, id) && forall|j: int|
            0 <= j < i ==> has_id(categories, #[trigger] ids[j])
}

/// The candidate roots of the selected categories, category by category in
/// registry order. A category that is selected twice counts once.
pub open spec fn selected_candidates(
    categories: Seq<Category>,
    ids: Seq<u32>,
    host: Host,
) -> Seq<Seq<char>>
    decreases categories.len(),
{
    if categories.len() == 0 {
        Seq::empty()
    } else if ids.contains(categories.last().id) {
        selected_candidates(categories.drop_last(), ids, host) + candidates(
            categories.last().path_specs@,
            host,
        )
    } else {
        selected_candidates(categories.drop_last(), ids, host)
    }
}

/// Checks that the registry knows every selected id.
pub fn validate_selection(registry: &Registry, item_ids: &Vec<u32>) -> (r: Result<(), CleanError>)
    ensures
        r is Ok <==> all_known(registry@, item_ids@),
        r matches Err(CleanError::InvalidCategoryId(id)) ==> is_first_unknown(
            registry@,
            item_ids@,
            id,
        ),
{
    let mut i: usize = 0;
    while i < item_ids.len()
        invariant
            i <= item_ids.len(),
            forall|j: int| 0 <= j < i ==> has_id(registry@, #[trigger] item_ids@[j]),
        decreases item_ids.len() - i,
    {
        if !registry.contains(item_ids[i]) {
            return Err(CleanError::InvalidCategoryId(item_ids[i]));
        }
        i = i + 1;
    }
    Ok(())
}

fn selects(item_ids: &Vec<u32>, id: u32) -> (b: bool)
    ensures
        b == item_ids@.contains(id),
{
    let mut i: usize = 0;
    while i < item_ids.len()
        invariant
            i <= item_ids.len(),
            forall|j: int| 0 <= j < i ==> item_ids@[j] != id,
        decreases item_ids.len() - i,
    {
        if item_ids[i] == id {
            return true;
        }
        i = i + 1;
    }
    false
}

/// Begins a clean: the selection is checked as a whole, and only a selection
/// that is known in full is resolved. On `Err` nothing has been resolved and
/// there is nothing to delete. On `Ok` the result holds the candidate roots
/// of the selected categories; those that exist are what a `Cleaner` is made
/// with.
pub fn clean_files(registry: &Registry, item_ids: &Vec<u32>, host: &Host) -> (r: Result<
    Vec<String>,
    CleanError,
>)
    ensures
        r is Ok <==> all_known(registry@, item_ids@),
        r matches Ok(roots) ==> roots.deep_view() == selected_candidates(
            registry@,
            item_ids@,
            *host,
        ),
        r matches Err(CleanError::InvalidCategoryId(id)) ==> is_first_unknown(
            registry@,
            item_ids@,
            id,
        ),
{
    match validate_selection(registry, item_ids) {
        Err(e) => {
            return Err(e);
        },
        Ok(_) => {},
    }
    let mut out: Vec<String> = Vec::new();
    let n = registry.len();
    let mut i: usize = 0;
    while i < n
        invariant
            i <= n,
            n == registry@.len(),
            valid(registry@),
            out.deep_view() == selected_candidates(
                registry@.subrange(0, i as int),
                item_ids@,
                *host,
            ),
        decreases n - i,
    {
        let ghost seen = registry@.subrange(0, i as int);
        let ghost now = registry@.subrange(0, i + 1);
        assert(now.drop_last() =~= seen);
        if let Some(c) = registry.get(i) {
            if selects(item_ids, c.id) {
                match resolve_category(c, host) {
                    Ok(mut paths) => {
                        out.append(&mut paths);
                    },
                    Err(_) => {
                        // every path spec of a registry is well formed
                        assert(false);
                    },
                }
            }
        }
        i = i + 1;
    }
    assert(registry@.subrange(0, n as int) =~= registry@);
    Ok(out)
}

/// A directory that is still to be listed, and the root it was reached from.
pub struct PendingView {
    pub root: int,
    pub path: Seq<char>,
}

/// A file that was found and whose deletion has not been tried yet.
pub struct FoundView {
    pub path: Seq<char>,
    pub size: u64,
}

/// What the caller is to do next.
#[derive(Clone, Debug)]
pub enum CleanAction {
    /// List this path and report the listing.
    List { path: String },
    /// Delete this one file and report whether it went.
    Delete { path: String },
    /// Remove this directory if it is empty, never what is in it.
    RemoveDir { path: String },
    /// Nothing is left to do.
    Done,
}

/// An action as plain values.
pub enum CleanActionView {
    List { path: Seq<char> },
    Delete { path: Seq<char> },
    RemoveDir { path: Seq<char> },
    Done,
}

impl View for CleanAction {
    type V = CleanActionView;

    open spec fn view(&self) -> CleanActionView {
        match *self {
            CleanAction::List { path } => CleanActionView::List { path: path@ },
            CleanAction::Delete { path } => CleanActionView::Delete { path: path@ },
            CleanAction::RemoveDir { path } => CleanActionView::RemoveDir { path: path@ },
            CleanAction::Done => CleanActionView::Done,
        }
    }
}

/// What happened when the caller performed the action.
#[derive(Clone, Debug)]
pub enum CleanEvent {
    /// The answer to `List`.
    Listed { listing: Listing },
    /// The answer to `Delete`: the file is gone.
    Deleted,
    /// The answer to `Delete`: the file is still there, or was not there.
    NotDeleted { reason: FailureReason },
    /// The answer to `RemoveDir`: the directory is gone.
    DirRemoved,
    /// The answer to `RemoveDir`: the directory stays.
    DirKept,
}

/// `path` is one of `roots` or lies within one.
pub open spec fn covered(roots: Seq<Seq<char>>, path: Seq<char>) -> bool {
    exists|k: int| 0 <= k < roots.len() && (path == #[trigger] roots[k] || within(roots[k], path))
}

/// `path` lies within one of `roots`, and is none of them.
pub open spec fn below_roots(roots: Seq<Seq<char>>, path: Seq<char>) -> bool {
    exists|k: int| 0 <= k < roots.len() && within(#[trigger] roots[k], path)
}

/// The state of a clean. Of `pending`, `files` and `visited` the last
/// element is the next to be dealt with.
#[verifier::ext_equal]
pub struct CleanerView {
    /// The roots that the clean was made with.
    pub roots: Seq<Seq<char>>,
    /// The directories still to list.
    pub pending: Seq<PendingView>,
    /// The files found and not yet tried.
    pub files: Seq<FoundView>,
    /// The directories below the roots that were found, in the order in
    /// which they were found.
    pub visited: Seq<Seq<char>>,
    /// The account so far.
    pub result: CleanResultView,
}

impl CleanerView {
    /// A clean that has every root to list and has done nothing.
    pub open spec fn start(roots: Seq<Seq<char>>) -> CleanerView {
        CleanerView {
            roots,
            pending: Seq::new(roots.len(), |k: int| PendingView { root: k, path: roots[k] }),
            files: Seq::empty(),
            visited: Seq::empty(),
            result: CleanResultView::zero(),
        }
    }

    /// Found files are deleted first, then the next directory is listed;
    /// once nothing is left to list, the directories that were found are
    /// removed, the one found last first, so that a directory comes after
    /// all that was found in it.
    pub open spec fn action(self) -> CleanActionView {
        if self.files.len() > 0 {
            CleanActionView::Delete { path: self.files.last().path }
        } else if self.pending.len() > 0 {
            CleanActionView::List { path: self.pending.last().path }
        } else if self.visited.len() > 0 {
            CleanActionView::RemoveDir { path: self.visited.last() }
        } else {
            CleanActionView::Done
        }
    }

    /// The state after one entry `e` of the directory `dir`. The entry's
    /// path is checked against the root of `dir` before anything is queued:
    /// a file or directory outside it is recorded as a failure and left
    /// alone. Symbolic links are left alone without a record.
    pub open spec fn sort_entry(self, dir: PendingView, e: DirEntry) -> CleanerView {
        let path = joined(dir.path, e.name@);
        match e.kind {
            EntryKind::File => if within(self.roots[dir.root], path) {
                CleanerView { files: self.files.push(FoundView { path, size: e.size }), ..self }
            } else {
                CleanerView {
                    result: self.result.failed(path, FailureReason::OutsideRoot),
                    ..self
                }
            },
            EntryKind::Directory => if within(self.roots[dir.root], path) {
                CleanerView {
                    pending: self.pending.push(PendingView { root: dir.root, path }),
                    visited: self.visited.push(path),
                    ..self
                }
            } else {
                CleanerView {
                    result: self.result.failed(path, FailureReason::OutsideRoot),
                    ..self
                }
            },
            EntryKind::Symlink => self,
            EntryKind::Unreadable => CleanerView {
                result: self.result.failed(path, FailureReason::Unreadable),
                ..self
            },
        }
    }

    /// The state after all of `entries` of the directory `dir`, in order.
    pub open spec fn sort_entries(self, dir: PendingView, entries: Seq<DirEntry>) -> CleanerView
        decreases entries.len(),
    {
        if entries.len() == 0 {
            self
        } else {
            self.sort_entries(dir, entries.drop_last()).sort_entry(dir, entries.last())
        }
    }

    /// The state after the listing of the last pending directory. A path
    /// that cannot be opened is recorded as a failure; a path that is a
    /// symbolic link is left alone; a path that turns out to be a file is
    /// queued as a file.
    pub open spec fn listed(self, listing: Listing) -> CleanerView {
        let dir = self.pending.last();
        let rest = CleanerView { pending: self.pending.drop_last(), ..self };
        match listing {
            Listing::Unreadable => CleanerView {
                result: rest.result.failed(dir.path, FailureReason::Unreadable),
                ..rest
            },
            Listing::Symlink => rest,
            Listing::File { size } => CleanerView {
                files: rest.files.push(FoundView { path: dir.path, size }),
                ..rest
            },
            Listing::Entries { entries } => rest.sort_entries(dir, entries@),
        }
    }

    /// The state after `event`. An event that does not answer the current
    /// action changes nothing. A deleted file adds its size to the freed
    /// bytes; a file that was not deleted is recorded with its path and the
    /// reason, and takes nothing back. Whether a directory could be removed
    /// does not enter the account.
    pub open spec fn after(self, event: CleanEvent) -> CleanerView {
        match self.action() {
            CleanActionView::Delete { .. } => match event {
                CleanEvent::Deleted => CleanerView {
                    files: self.files.drop_last(),
                    result: self.result.deleted(self.files.last().size),
                    ..self
                },
                CleanEvent::NotDeleted { reason } => CleanerView {
                    files: self.files.drop_last(),
                    result: self.result.failed(self.files.last().path, reason),
                    ..self
                },
                _ => self,
            },
            CleanActionView::List { .. } => match event {
                CleanEvent::Listed { listing } => self.listed(listing),
                _ => self,
            },
            CleanActionView::RemoveDir { .. } => match event {
                CleanEvent::DirRemoved => CleanerView { visited: self.visited.drop_last(), ..self },
                CleanEvent::DirKept => CleanerView { visited: self.visited.drop_last(), ..self },
                _ => self,
            },
            CleanActionView::Done => self,
        }
    }

    /// The state after `events`, in order.
    pub open spec fn run(self, events: Seq<CleanEvent>) -> CleanerView
        decreases events.len(),
    {
        if events.len() == 0 {
            self
        } else {
            self.run(events.drop_last()).after(events.last())
        }
    }

    /// What holds of every state of a clean: each pending directory is its
    /// root or lies within it, each found file is covered by a root, each
    /// directory to remove lies within a root, and `success` says that
    /// nothing failed.
    pub open spec fn wf(self) -> bool {
        &&& forall|i: int|
            0 <= i < self.pending.len() ==> {
                let d = #[trigger] self.pending[i];
                &&& 0 <= d.root < self.roots.len()
                &&& (d.path == self.roots[d.root] || within(self.roots[d.root], d.path))
            }
        &&& forall|i: int|
            0 <= i < self.files.len() ==> covered(self.roots, (#[trigger] self.files[i]).path)
        &&& forall|i: int|
            0 <= i < self.visited.len() ==> below_roots(self.roots, #[trigger] self.visited[i])
        &&& self.result.consistent()
    }
}

/// A clean starts in a state of which `wf` holds.
pub proof fn lemma_start_wf(roots: Seq<Seq<char>>)
    ensures
        CleanerView::start(roots).wf(),
{
}

proof fn lemma_sort_entry_wf(s: CleanerView, dir: PendingView, e: DirEntry)
    requires
        s.wf(),
        0 <= dir.root < s.roots.len(),
    ensures
        s.sort_entry(dir, e).wf(),
        s.sort_entry(dir, e).roots == s.roots,
{
    let t = s.sort_entry(dir, e);
    assert forall|i: int| 0 <= i < t.pending.len() implies {
        let d = #[trigger] t.pending[i];
        &&& 0 <= d.root < t.roots.len()
        &&& (d.path == t.roots[d.root] || within(t.roots[d.root], d.path))
    } by {
        if i < s.pending.len() {
            assert(t.pending[i] == s.pending[i]);
        }
    }
}

proof fn lemma_sort_entries_wf(s: CleanerView, dir: PendingView, entries: Seq<DirEntry>)
    requires
        s.wf(),
        0 <= dir.root < s.roots.len(),
    ensures
        s.sort_entries(dir, entries).wf(),
        s.sort_entries(dir, entries).roots == s.roots,
    decreases entries.len(),
{
    if entries.len() > 0 {
        lemma_sort_entries_wf(s, dir, entries.drop_last());
        lemma_sort_entry_wf(s.sort_entries(dir, entries.drop_last()), dir, entries.last());
    }
}

/// Whatever is reported, `wf` goes on holding and the roots stay the same.
pub proof fn lemma_after_keeps_wf(s: CleanerView, event: CleanEvent)
    requires
        s.wf(),
    ensures
        s.after(event).wf(),
        s.after(event).roots == s.roots,
{
    if s.files.len() == 0 && s.pending.len() > 0 {
        if let CleanEvent::Listed { listing } = event {
            let dir = s.pending.last();
            let rest = CleanerView { pending: s.pending.drop_last(), ..s };
            assert forall|i: int| 0 <= i < rest.pending.len() implies {
                let d = #[trigger] rest.pending[i];
                &&& 0 <= d.root < rest.roots.len()
                &&& (d.path == rest.roots[d.root] || within(rest.roots[d.root], d.path))
            } by {
                assert(rest.pending[i] == s.pending[i]);
            }
            if let Listing::Entries { entries } = listing {
                lemma_sort_entries_wf(rest, dir, entries@);
            }
        }
    }
}

/// Whatever is reported, in whatever order, the clean stays within its
/// roots: `wf` holds after every run.
pub proof fn lemma_run_keeps_wf(roots: Seq<Seq<char>>, events: Seq<CleanEvent>)
    ensures
        CleanerView::start(roots).run(events).wf(),
        CleanerView::start(roots).run(events).roots == roots,
    decreases events.len(),
{
    if events.len() > 0 {
        lemma_run_keeps_wf(roots, events.drop_last());
        lemma_after_keeps_wf(CleanerView::start(roots).run(events.drop_last()), events.last());
    }
}

/// Only paths that the roots cover are named for deletion, and only
/// directories strictly within a root for removal.
pub proof fn lemma_actions_stay_inside(s: CleanerView)
    requires
        s.wf(),
    ensures
        match s.action() {
            CleanActionView::List { path } => covered(s.roots, path),
            CleanActionView::Delete { path } => covered(s.roots, path),
            CleanActionView::RemoveDir { path } => below_roots(s.roots, path),
            CleanActionView::Done => true,
        },
{
    if s.files.len() == 0 && s.pending.len() > 0 {
        let d = s.pending[s.pending.len() - 1];
        assert(d.path == s.roots[d.root] || within(s.roots[d.root], d.path));
    }
}

/// The account `after` goes on from the account `before`: no counter is
/// lower, and the failures of `before` are the first failures of `after`.
pub open spec fn goes_on_from(before: CleanResultView, after: CleanResultView) -> bool {
    &&& before.freed_bytes <= after.freed_bytes
    &&& before.deleted_item_count <= after.deleted_item_count
    &&& before.failed_item_count <= after.failed_item_count
    &&& before.failures.is_prefix_of(after.failures)
}

proof fn lemma_sorting_frees_nothing(s: CleanerView, dir: PendingView, entries: Seq<DirEntry>)
    ensures
        goes_on_from(s.result, s.sort_entries(dir, entries).result),
        s.sort_entries(dir, entries).result.freed_bytes == s.result.freed_bytes,
        s.sort_entries(dir, entries).result.deleted_item_count == s.result.deleted_item_count,
    decreases entries.len(),
{
    if entries.len() > 0 {
        lemma_sorting_frees_nothing(s, dir, entries.drop_last());
    }
}

/// Nothing is taken back: whatever is reported, no counter of the account
/// goes down and no recorded failure is lost. And only a confirmed deletion
/// adds to the freed bytes and to the count of deleted items.
pub proof fn lemma_nothing_is_taken_back(s: CleanerView, event: CleanEvent)
    ensures
        goes_on_from(s.result, s.after(event).result),
        !(event is Deleted) ==> s.after(event).result.freed_bytes == s.result.freed_bytes
            && s.after(event).result.deleted_item_count == s.result.deleted_item_count,
{
    if s.files.len() == 0 && s.pending.len() > 0 {
        if let CleanEvent::Listed { listing } = event {
            if let Listing::Entries { entries } = listing {
                let rest = CleanerView { pending: s.pending.drop_last(), ..s };
                lemma_sorting_frees_nothing(rest, s.pending.last(), entries@);
            }
        }
    }
}

/// The listing of a path that holds nothing to delete: a symbolic link, or
/// a directory with only links and directories with plain names in it.
pub open spec fn bare(listing: Listing) -> bool {
    match listing {
        Listing::Symlink => true,
        Listing::Entries { entries } => forall|i: int|
            0 <= i < entries@.len() ==> {
                let e = #[trigger] entries@[i];
                e.kind == EntryKind::Symlink || (e.kind == EntryKind::Directory && plain_name(
                    e.name@,
                ))
            },
        _ => false,
    }
}

/// Every listing among `events` is bare.
pub open spec fn nothing_left(events: Seq<CleanEvent>) -> bool {
    forall|i: int|
        0 <= i < events.len() ==> ((#[trigger] events[i]) matches CleanEvent::Listed { listing }
            ==> bare(listing))
}

/// No root is the empty path.
pub open spec fn roots_named(roots: Seq<Seq<char>>) -> bool {
    forall|k: int| 0 <= k < roots.len() ==> (#[trigger] roots[k]).len() > 0
}

/// Nothing was found and nothing was recorded.
pub open spec fn idle(s: CleanerView) -> bool {
    s.files.len() == 0 && s.result == CleanResultView::zero()
}

proof fn lemma_bare_entries_keep_idle(s: CleanerView, dir: PendingView, entries: Seq<DirEntry>)
    requires
        idle(s),
        0 <= dir.root < s.roots.len(),
        s.roots[dir.root].len() > 0,
        dir.path == s.roots[dir.root] || within(s.roots[dir.root], dir.path),
        forall|i: int|
            0 <= i < entries.len() ==> {
                let e = #[trigger] entries[i];
                e.kind == EntryKind::Symlink || (e.kind == EntryKind::Directory && plain_name(
                    e.name@,
                ))
            },
    ensures
        idle(s.sort_entries(dir, entries)),
        s.sort_entries(dir, entries).roots == s.roots,
    decreases entries.len(),
{
    if entries.len() > 0 {
        let head = entries.drop_last();
        let e = entries.last();
        assert forall|i: int| 0 <= i < head.len() implies {
            let e = #[trigger] head[i];
            e.kind == EntryKind::Symlink || (e.kind == EntryKind::Directory && plain_name(e.name@))
        } by {
            assert(head[i] == entries[i]);
        }
        lemma_bare_entries_keep_idle(s, dir, head);
        if e.kind == EntryKind::Directory {
            lemma_entry_within(s.roots[dir.root], dir.path, e.name@);
        }
    }
}

/// Cleaning what is already clean frees nothing and records nothing: where
/// every directory that is listed holds only links and directories, the
/// outcome is all zero, with no failure, whatever else is reported.
pub proof fn lemma_cleaned_tree_frees_nothing(roots: Seq<Seq<char>>, events: Seq<CleanEvent>)
    requires
        roots_named(roots),
        nothing_left(events),
    ensures
        CleanerView::start(roots).run(events).result == CleanResultView::zero(),
        CleanerView::start(roots).run(events).files.len() == 0,
    decreases events.len(),
{
    if events.len() > 0 {
        let head = events.drop_last();
        let event = events.last();
        lemma_cleaned_tree_frees_nothing(roots, head);
        lemma_run_keeps_wf(roots, head);
        let s = CleanerView::start(roots).run(head);
        if s.pending.len() > 0 {
            if let CleanEvent::Listed { listing } = event {
                if let Listing::Entries { entries } = listing {
                    let dir = s.pending.last();
                    let rest = CleanerView { pending: s.pending.drop_last(), ..s };
                    lemma_bare_entries_keep_idle(rest, dir, entries@);
                }
            }
        }
    }
}

/// Cleaning an empty selection: nothing is refused, nothing is resolved, and
/// a clean of no roots is done at once, with an outcome that is all zero and
/// a success, whatever is reported to it.
pub proof fn lemma_empty_selection(categories: Seq<Category>, host: Host, events: Seq<CleanEvent>)
    ensures
        all_known(categories, Seq::<u32>::empty()),
        selected_candidates(categories, Seq::<u32>::empty(), host) == Seq::<Seq<char>>::empty(),
        CleanerView::start(Seq::empty()).action() is Done,
        CleanerView::start(Seq::empty()).run(events) == CleanerView::start(Seq::empty()),
        CleanerView::start(Seq::empty()).result == CleanResultView::zero(),
        CleanResultView::zero().success,
    decreases categories.len() + events.len(),
{
    if categories.len() > 0 {
        lemma_empty_selection(categories.drop_last(), host, Seq::empty());
    }
    if events.len() > 0 {
        lemma_empty_selection(Seq::empty(), host, events.drop_last());
    }
}

/// A selection that holds an id which the registry does not know is not
/// known in full, so `clean_files` refuses it and resolves nothing.
pub proof fn lemma_unknown_id_is_refused(categories: Seq<Category>, ids: Seq<u32>, i: int)
    requires
        0 <= i < ids.len(),
        !has_id(categories, ids[i]),
    ensures
        !all_known(categories, ids),
{
}

struct PendingDir {
    root: usize,
    path: String,
}

struct FoundFile {
    path: String,
    size: u64,
}

spec fn pending_views(pending: Seq<PendingDir>) -> Seq<PendingView> {
    pending.map_values(|d: PendingDir| PendingView { root: d.root as int, path: d.path@ })
}

spec fn found_views(files: Seq<FoundFile>) -> Seq<FoundView> {
    files.map_values(|f: FoundFile| FoundView { path: f.path@, size: f.size })
}

spec fn state_of(
    roots: Vec<String>,
    pending: Vec<PendingDir>,
    files: Vec<FoundFile>,
    visited: Vec<String>,
    result: CleanResult,
) -> CleanerView {
    CleanerView {
        roots: roots.deep_view(),
        pending: pending_views(pending@),
        files: found_views(files@),
        visited: visited.deep_view(),
        result: result@,
    }
}

/// A clean in progress.
pub struct Cleaner {
    roots: Vec<String>,
    pending: Vec<PendingDir>,
    files: Vec<FoundFile>,
    visited: Vec<String>,
    result: CleanResult,
}

impl View for Cleaner {
    type V = CleanerView;

    closed spec fn view(&self) -> CleanerView {
        state_of(self.roots, self.pending, self.files, self.visited, self.result)
    }
}

impl Cleaner {
    #[verifier::type_invariant]
    spec fn holds(self) -> bool {
        self@.wf()
    }

    /// A clean of what lies below `roots`. The roots themselves are never
    /// removed.
    pub fn new(roots: Vec<String>) -> (c: Cleaner)
        ensures
            c@ == CleanerView::start(roots.deep_view()),
    {
        let mut pending: Vec<PendingDir> = Vec::new();
        let n = roots.len();
        let mut k: usize = 0;
        while k < n
            invariant
                k <= n,
                n == roots.len(),
                pending@.len() == k,
                forall|i: int|
                    0 <= i < k ==> (#[trigger] pending@[i]).root == i && pending@[i].path@
                        == roots@[i]@,
            decreases n - k,
        {
            pending.push(PendingDir { root: k, path: roots[k].clone() });
            k = k + 1;
        }
        let result = CleanResult::new();
        let files: Vec<FoundFile> = Vec::new();
        let visited: Vec<String> = Vec::new();
        proof {
            let s = state_of(roots, pending, files, visited, result);
            lemma_start_wf(roots.deep_view());
        }
        Cleaner { roots, pending, files, visited, result }
    }

    /// What the caller is to do next. A path named for deletion is covered
    /// by a root; a directory named for removal lies strictly within one.
    pub fn next_action(&self) -> (a: CleanAction)
        ensures
            a@ == self@.action(),
            self@.wf(),
            a@ matches CleanActionView::Delete { path } ==> covered(self@.roots, path),
            a@ matches CleanActionView::RemoveDir { path } ==> below_roots(self@.roots, path),
    {
        proof {
            use_type_invariant(self);
            lemma_actions_stay_inside(self@);
        }
        if self.files.len() > 0 {
            CleanAction::Delete { path: self.files[self.files.len() - 1].path.clone() }
        } else if self.pending.len() > 0 {
            CleanAction::List { path: self.pending[self.pending.len() - 1].path.clone() }
        } else if self.visited.len() > 0 {
            CleanAction::RemoveDir { path: self.visited[self.visited.len() - 1].clone() }
        } else {
            CleanAction::Done
        }
    }

    /// Whether nothing is left to do.
    pub fn is_done(&self) -> (b: bool)
        ensures
            b == (self@.action() is Done),
    {
        self.files.len() == 0 && self.pending.len() == 0 && self.visited.len() == 0
    }

    /// The account so far; once `next_action` says `Done`, the outcome of
    /// the clean.
    pub fn into_result(self) -> (r: CleanResult)
        ensures
            r@ == self@.result,
            r@.consistent(),
    {
        proof {
            use_type_invariant(&self);
        }
        self.result
    }

    /// The clean after `event`, the caller's report on the action that
    /// `next_action` named.
    pub fn advance(self, event: &CleanEvent) -> (next: Cleaner)
        ensures
            next@ == self@.after(*event),
    {
        proof {
            use_type_invariant(&self);
        }
        let ghost before = self@;
        let Cleaner { roots, mut pending, mut files, mut visited, mut result } = self;
        if files.len() > 0 {
            match event {
                CleanEvent::Deleted => {
                    if let Some(f) = files.pop() {
                        result.record_deleted(f.size);
                    }
                },
                CleanEvent::NotDeleted { reason } => {
                    if let Some(f) = files.pop() {
                        result.record_failed(f.path, *reason);
                    }
                },
                _ => {},
            }
        } else if pending.len() > 0 {
            if let CleanEvent::Listed { listing } = event {
                if let Some(dir) = pending.pop() {
                    let ghost dv = PendingView { root: dir.root as int, path: dir.path@ };
                    let ghost rest = state_of(roots, pending, files, visited, result);
                    assert(dv == before.pending.last());
                    assert(rest =~= CleanerView { pending: before.pending.drop_last(), ..before });
                    match listing {
                        Listing::Unreadable => {
                            result.record_failed(dir.path, FailureReason::Unreadable);
                        },
                        Listing::Symlink => {},
                        Listing::File { size } => {
                            files.push(FoundFile { path: dir.path, size: *size });
                        },
                        Listing::Entries { entries } => {
                            let n = entries.len();
                            let mut i: usize = 0;
                            while i < n
                                invariant
                                    i <= n,
                                    n == entries.len(),
                                    dv == (PendingView { root: dir.root as int, path: dir.path@ }),
                                    0 <= dv.root < roots@.len(),
                                    state_of(roots, pending, files, visited, result)
                                        == rest.sort_entries(dv, entries@.subrange(0, i as int)),
                                decreases n - i,
                            {
                                let e = &entries[i];
                                let ghost seen = entries@.subrange(0, i as int);
                                let ghost now = entries@.subrange(0, i + 1);
                                assert(now.drop_last() =~= seen);
                                match e.kind {
                                    EntryKind::File => {
                                        let path = join(dir.path.as_str(), e.name.as_str());
                                        if is_within(roots[dir.root].as_str(), path.as_str()) {
                                            files.push(FoundFile { path, size: e.size });
                                        } else {
                                            result.record_failed(path, FailureReason::OutsideRoot);
                                        }
                                    },
                                    EntryKind::Directory => {
                                        let path = join(dir.path.as_str(), e.name.as_str());
                                        if is_within(roots[dir.root].as_str(), path.as_str()) {
                                            visited.push(path.clone());
                                            pending.push(PendingDir { root: dir.root, path });
                                        } else {
                                            result.record_failed(path, FailureReason::OutsideRoot);
                                        }
                                    },
                                    EntryKind::Symlink => {},
                                    EntryKind::Unreadable => {
                                        let path = join(dir.path.as_str(), e.name.as_str());
                                        result.record_failed(path, FailureReason::Unreadable);
                                    },
                                }
                                i = i + 1;
                            }
                            assert(entries@.subrange(0, n as int) =~= entries@);
                        },
                    }
                }
            }
        } else if visited.len() > 0 {
            match event {
                CleanEvent::DirRemoved => {
                    visited.pop();
                },
                CleanEvent::DirKept => {
                    visited.pop();
                },
                _ => {},
            }
        }
        proof {
            assert(state_of(roots, pending, files, visited, result) =~= before.after(*event));
            lemma_after_keeps_wf(before, *event);
        }
        Cleaner { roots, pending, files, visited, result }
    }
}

} // verus!
