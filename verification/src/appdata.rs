//! The breakdown of an application's data into named buckets and a residual
//! bucket.
//!
//! A bucket claims the files whose path begins with one of its prefixes; a
//! file belongs to the first bucket that claims it, and to the residual
//! bucket where none does. So every file is counted once, and the buckets
//! add up to the total.

use vstd::prelude::*;
use crate::aggregate::sat64;
use crate::paths::{is_sep, is_separator};
use crate::registry::SubCategory;
use crate::text::{chars_of, has_prefix, starts_with};

verus! {

/// A file of the application's data: its path below the data directory, and
/// its size.
#[derive(Clone, Debug)]
pub struct DataFile {
    pub relative_path: String,
    pub size: u64,
}

/// A data file as plain values.
pub struct DataFileView {
    pub relative_path: Seq<char>,
    pub size: u64,
}

impl View for DataFile {
    type V = DataFileView;

    open spec fn view(&self) -> DataFileView {
        DataFileView { relative_path: self.relative_path@, size: self.size }
    }
}

/// The files as plain values, in order.
pub open spec fn file_views(files: Seq<DataFile>) -> Seq<DataFileView> {
    files.map_values(|f: DataFile| f@)
}

/// `path` is `prefix` or lies below it.
pub open spec fn claims_prefix(prefix: Seq<char>, path: Seq<char>) -> bool {
    &&& prefix.len() > 0
    &&& has_prefix(path, prefix)
    &&& (path.len() == prefix.len() || is_sep(prefix.last()) || is_sep(path[prefix.len() as int]))
}

/// One of `prefixes` claims `path`.
pub open spec fn claimed_by(prefixes: Seq<Seq<char>>, path: Seq<char>) -> bool {
    exists|k: int| 0 <= k < prefixes.len() && claims_prefix(#[trigger] prefixes[k], path)
}

/// The index of the first bucket of `table` that claims `path`; the number
/// of buckets, which stands for the residual bucket, where none does.
pub open spec fn bucket_of(table: Seq<Seq<Seq<char>>>, path: Seq<char>) -> int
    decreases table.len(),
{
    if table.len() == 0 {
        0
    } else if claimed_by(table[0], path) {
        0
    } else {
        1 + bucket_of(table.drop_first(), path)
    }
}

/// The bytes of the files that belong to bucket `k`.
pub open spec fn bucket_bytes(table: Seq<Seq<Seq<char>>>, files: Seq<DataFileView>, k: int) -> nat
    decreases files.len(),
{
    if files.len() == 0 {
        0
    } else if bucket_of(table, files.last().relative_path) == k {
        bucket_bytes(table, files.drop_last(), k) + files.last().size as nat
    } else {
        bucket_bytes(table, files.drop_last(), k)
    }
}

/// The bytes of all files.
pub open spec fn total_bytes(files: Seq<DataFileView>) -> nat
    decreases files.len(),
{
    if files.len() == 0 {
        0
    } else {
        total_bytes(files.drop_last()) + files.last().size as nat
    }
}

/// The bytes of the buckets `0` to `upto - 1` together.
pub open spec fn sum_buckets(table: Seq<Seq<Seq<char>>>, files: Seq<DataFileView>, upto: int) -> nat
    decreases upto,
{
    if upto <= 0 {
        0
    } else {
        sum_buckets(table, files, upto - 1) + bucket_bytes(table, files, upto - 1)
    }
}

/// The prefixes of each bucket as plain text.
pub open spec fn prefix_table(buckets: Seq<SubCategory>) -> Seq<Seq<Seq<char>>> {
    buckets.map_values(|b: SubCategory| b.prefixes.deep_view())
}

/// Every path belongs to one bucket: a named one or the residual one.
pub proof fn lemma_bucket_in_range(table: Seq<Seq<Seq<char>>>, path: Seq<char>)
    ensures
        0 <= bucket_of(table, path) <= table.len(),
    decreases table.len(),
{
    if table.len() > 0 {
        lemma_bucket_in_range(table.drop_first(), path);
    }
}

proof fn lemma_sum_after_file(table: Seq<Seq<Seq<char>>>, files: Seq<DataFileView>, upto: int)
    requires
        files.len() > 0,
    ensures
        sum_buckets(table, files, upto) == sum_buckets(table, files.drop_last(), upto) + (if 0
            <= bucket_of(table, files.last().relative_path) < upto {
            files.last().size as nat
        } else {
            0
        }),
    decreases upto,
{
    if upto > 0 {
        lemma_sum_after_file(table, files, upto - 1);
    }
}

/// The buckets add up: the bytes of the named buckets and of the residual
/// bucket together are the bytes of all files, no more and no less.
pub proof fn lemma_buckets_add_up(table: Seq<Seq<Seq<char>>>, files: Seq<DataFileView>)
    ensures
        sum_buckets(table, files, table.len() as int + 1) == total_bytes(files),
    decreases files.len(),
{
    if files.len() > 0 {
        lemma_buckets_add_up(table, files.drop_last());
        lemma_sum_after_file(table, files, table.len() as int + 1);
        lemma_bucket_in_range(table, files.last().relative_path);
    } else {
        assert(files =~= Seq::<DataFileView>::empty());
        lemma_sum_of_nothing(table, table.len() as int + 1);
    }
}

proof fn lemma_sum_of_nothing(table: Seq<Seq<Seq<char>>>, upto: int)
    ensures
        sum_buckets(table, Seq::empty(), upto) == 0,
    decreases upto,
{
    if upto > 0 {
        lemma_sum_of_nothing(table, upto - 1);
    }
}

/// No bucket holds more than all files together.
pub proof fn lemma_bucket_within_total(table: Seq<Seq<Seq<char>>>, files: Seq<DataFileView>, k: int)
    ensures
        bucket_bytes(table, files, k) <= total_bytes(files),
    decreases files.len(),
{
    if files.len() > 0 {
        lemma_bucket_within_total(table, files.drop_last(), k);
    }
}

/// Where all files together fit into a `u64`, so does every bucket, and the
/// sizes that are reported are the true ones: they add up to the total
/// exactly.
pub proof fn lemma_reported_sizes_are_exact(
    table: Seq<Seq<Seq<char>>>,
    files: Seq<DataFileView>,
    k: int,
)
    requires
        total_bytes(files) <= u64::MAX,
    ensures
        sat64(bucket_bytes(table, files, k) as int) == bucket_bytes(table, files, k),
        sat64(total_bytes(files) as int) == total_bytes(files),
        sum_buckets(table, files, table.len() as int + 1) == total_bytes(files),
{
    lemma_bucket_within_total(table, files, k);
    lemma_buckets_add_up(table, files);
}

fn prefix_claims(prefix: &str, path: &Vec<char>) -> (b: bool)
    ensures
        b == claims_prefix(prefix@, path@),
{
    let p = chars_of(prefix);
    let n = p.len();
    if n == 0 || !starts_with(path, &p) {
        return false;
    }
    path.len() == n || is_separator(p[n - 1]) || is_separator(path[n])
}

fn bucket_claims(bucket: &SubCategory, path: &Vec<char>) -> (b: bool)
    ensures
        b == claimed_by(bucket.prefixes.deep_view(), path@),
{
    let mut k: usize = 0;
    while k < bucket.prefixes.len()
        invariant
            k <= bucket.prefixes.len(),
            forall|j: int|
                0 <= j < k ==> !claims_prefix(#[trigger] bucket.prefixes.deep_view()[j], path@),
        decreases bucket.prefixes.len() - k,
    {
        if prefix_claims(bucket.prefixes[k].as_str(), path) {
            assert(claims_prefix(bucket.prefixes.deep_view()[k as int], path@));
            return true;
        }
        k = k + 1;
    }
    false
}

/// The bucket that the file at `path` belongs to.
pub fn bucket_index(buckets: &Vec<SubCategory>, path: &str) -> (k: usize)
    ensures
        k == bucket_of(prefix_table(buckets@), path@),
        k <= buckets@.len(),
{
    let chars = chars_of(path);
    let ghost table = prefix_table(buckets@);
    let mut k: usize = 0;
    assert(table.skip(0) =~= table);
    while k < buckets.len()
        invariant
            k <= buckets.len(),
            chars@ == path@,
            table == prefix_table(buckets@),
            bucket_of(table, path@) == k + bucket_of(table.skip(k as int), path@),
        decreases buckets.len() - k,
    {
        assert(table.skip(k as int).drop_first() =~= table.skip(k + 1));
        if bucket_claims(&buckets[k], &chars) {
            return k;
        }
        k = k + 1;
    }
    k
}

/// The bytes of each named bucket, in the order of the buckets, and of the
/// residual bucket. Each stops at the largest `u64`.
#[derive(Clone, Debug)]
pub struct Breakdown {
    pub named: Vec<u64>,
    pub residual: u64,
}

/// Sorts `files` into `buckets` and adds up each bucket.
pub fn breakdown(buckets: &Vec<SubCategory>, files: &Vec<DataFile>) -> (out: Breakdown)
    ensures
        out.named@.len() == buckets@.len(),
        forall|k: int|
            0 <= k < buckets@.len() ==> #[trigger] out.named@[k] == sat64(
                bucket_bytes(prefix_table(buckets@), file_views(files@), k) as int,
            ),
        out.residual == sat64(
            bucket_bytes(prefix_table(buckets@), file_views(files@), buckets@.len() as int) as int,
        ),
{
    let ghost table = prefix_table(buckets@);
    let ghost all = file_views(files@);
    let n = buckets.len();
    let mut named: Vec<u64> = Vec::new();
    let mut k: usize = 0;
    while k < n
        invariant
            k <= n,
            named@.len() == k,
            forall|j: int| 0 <= j < k ==> #[trigger] named@[j] == 0,
        decreases n - k,
    {
        named.push(0);
        k = k + 1;
    }
    let mut residual: u64 = 0;
    let m = files.len();
    let mut i: usize = 0;
    while i < m
        invariant
            i <= m,
            m == files.len(),
            n == buckets.len(),
            table == prefix_table(buckets@),
            all == file_views(files@),
            named@.len() == n,
            forall|j: int|
                0 <= j < n ==> #[trigger] named@[j] == sat64(
                    bucket_bytes(table, all.subrange(0, i as int), j) as int,
                ),
            residual == sat64(bucket_bytes(table, all.subrange(0, i as int), n as int) as int),
        decreases m - i,
    {
        let f = &files[i];
        let ghost seen = all.subrange(0, i as int);
        let ghost now = all.subrange(0, i + 1);
        assert(now.drop_last() =~= seen);
        let b = bucket_index(buckets, f.relative_path.as_str());
        if b < n {
            let sum = named[b].saturating_add(f.size);
            named.set(b, sum);
        } else {
            residual = residual.saturating_add(f.size);
        }
        i = i + 1;
    }
    assert(all.subrange(0, m as int) =~= all);
    Breakdown { named, residual }
}

} // verus!
