//! The scan orchestrator: one entry per registered category, in registry
//! order, whatever the order in which the categories were measured.
//!
//! Each category is measured on its own, by a `Walk` over its resolved
//! roots, and may be measured by a worker of its own. The workers' results
//! come in as they finish; `scan_clean_items` puts them in order.

use vstd::prelude::*;
use crate::aggregate::Totals;
use crate::registry::{Category, Registry};

verus! {

/// What one worker measured for one category.
#[derive(Clone, Debug)]
pub struct CategoryScan {
    pub category_id: u32,
    /// The roots that were walked.
    pub paths: Vec<String>,
    pub totals: Totals,
}

/// A worker's result as plain values.
pub struct CategoryScanView {
    pub category_id: u32,
    pub paths: Seq<Seq<char>>,
    pub totals: Totals,
}

impl View for CategoryScan {
    type V = CategoryScanView;

    open spec fn view(&self) -> CategoryScanView {
        CategoryScanView {
            category_id: self.category_id,
            paths: self.paths.deep_view(),
            totals: self.totals,
        }
    }
}

/// The scan entry of one category.
#[derive(Clone, Debug)]
pub struct CleanItem {
    pub category_id: u32,
    pub name: String,
    /// The roots that were walked.
    pub paths: Vec<String>,
    pub resolved_size_bytes: u64,
    pub resolved_item_count: u32,
    pub unreadable_count: u32,
}

/// A scan entry as plain values.
pub struct CleanItemView {
    pub category_id: u32,
    pub name: Seq<char>,
    pub paths: Seq<Seq<char>>,
    pub resolved_size_bytes: u64,
    pub resolved_item_count: u32,
    pub unreadable_count: u32,
}

impl View for CleanItem {
    type V = CleanItemView;

    open spec fn view(&self) -> CleanItemView {
        CleanItemView {
            category_id: self.category_id,
            name: self.name@,
            paths: self.paths.deep_view(),
            resolved_size_bytes: self.resolved_size_bytes,
            resolved_item_count: self.resolved_item_count,
            unreadable_count: self.unreadable_count,
        }
    }
}

/// The results as plain values, in order.
pub open spec fn scan_views(results: Seq<CategoryScan>) -> Seq<CategoryScanView> {
    results.map_values(|r: CategoryScan| r@)
}

/// The entries as plain values, in order.
pub open spec fn item_views(items: Seq<CleanItem>) -> Seq<CleanItemView> {
    items.map_values(|x: CleanItem| x@)
}

/// The first result for the category `id`.
pub open spec fn result_for(results: Seq<CategoryScanView>, id: u32) -> Option<CategoryScanView>
    decreases results.len(),
{
    if results.len() == 0 {
        None
    } else if results[0].category_id == id {
        Some(results[0])
    } else {
        result_for(results.drop_first(), id)
    }
}

/// The entry of the category `c`: what was measured for it, under its own id
/// and name. A category for which no result came in has an entry of zeros.
pub open spec fn entry_for(c: Category, results: Seq<CategoryScanView>) -> CleanItemView {
    match result_for(results, c.id) {
        Some(r) => CleanItemView {
            category_id: c.id,
            name: c.name@,
            paths: r.paths,
            resolved_size_bytes: r.totals.total_bytes,
            resolved_item_count: r.totals.item_count,
            unreadable_count: r.totals.unreadable_count,
        },
        None => CleanItemView {
            category_id: c.id,
            name: c.name@,
            paths: Seq::empty(),
            resolved_size_bytes: 0,
            resolved_item_count: 0,
            unreadable_count: 0,
        },
    }
}

/// One entry per category, in the order of the categories.
pub open spec fn assembled(categories: Seq<Category>, results: Seq<CategoryScanView>) -> Seq<
    CleanItemView,
> {
    Seq::new(categories.len(), |i: int| entry_for(categories[i], results))
}

fn find_result(results: &Vec<CategoryScan>, id: u32) -> (at: Option<usize>)
    ensures
        match at {
            Some(k) => k < results@.len() && result_for(scan_views(results@), id) == Some(
                results@[k as int]@,
            ),
            None => result_for(scan_views(results@), id) is None,
        },
{
    let ghost views = scan_views(results@);
    let mut k: usize = 0;
    assert(views.skip(0) =~= views);
    while k < results.len()
        invariant
            k <= results.len(),
            views == scan_views(results@),
            result_for(views, id) == result_for(views.skip(k as int), id),
        decreases results.len() - k,
    {
        assert(views.skip(k as int).drop_first() =~= views.skip(k + 1));
        if results[k].category_id == id {
            return Some(k);
        }
        k = k + 1;
    }
    None
}

fn copy_paths(paths: &Vec<String>) -> (out: Vec<String>)
    ensures
        out.deep_view() == paths.deep_view(),
{
    let mut out: Vec<String> = Vec::new();
    let mut i: usize = 0;
    while i < paths.len()
        invariant
            i <= paths.len(),
            out@.len() == i,
            forall|k: int| 0 <= k < i ==> (#[trigger] out@[k])@ == paths@[k]@,
        decreases paths.len() - i,
    {
        out.push(paths[i].clone());
        i = i + 1;
    }
    out
}

/// Puts the workers' results in registry order. The scan never fails: a
/// category without a result still has its entry, of zeros.
pub fn scan_clean_items(registry: &Registry, results: &Vec<CategoryScan>) -> (items: Vec<
    CleanItem,
>)
    ensures
        item_views(items@) == assembled(registry@, scan_views(results@)),
{
    let mut items: Vec<CleanItem> = Vec::new();
    let n = registry.len();
    let mut i: usize = 0;
    while i < n
        invariant
            i <= n,
            n == registry@.len(),
            items@.len() == i,
            forall|k: int|
                0 <= k < i ==> (#[trigger] items@[k])@ == entry_for(
                    registry@[k],
                    scan_views(results@),
                ),
        decreases n - i,
    {
        if let Some(c) = registry.get(i) {
            let item = match find_result(results, c.id) {
                Some(k) => CleanItem {
                    category_id: c.id,
                    name: c.name.clone(),
                    paths: copy_paths(&results[k].paths),
                    resolved_size_bytes: results[k].totals.total_bytes,
                    resolved_item_count: results[k].totals.item_count,
                    unreadable_count: results[k].totals.unreadable_count,
                },
                None => {
                    let paths: Vec<String> = Vec::new();
                    assert(paths.deep_view() =~= Seq::<Seq<char>>::empty());
                    CleanItem {
                        category_id: c.id,
                        name: c.name.clone(),
                        paths,
                        resolved_size_bytes: 0,
                        resolved_item_count: 0,
                        unreadable_count: 0,
                    }
                },
            };
            items.push(item);
        }
        i = i + 1;
    }
    items
}

/// No two results are for the same category.
pub open spec fn distinct_ids(results: Seq<CategoryScanView>) -> bool {
    forall|i: int, j: int|
        0 <= i < j < results.len() ==> (#[trigger] results[i]).category_id != (
        #[trigger] results[j]).category_id
}

/// The first result for `id` is one of the results and is for `id`; there is
/// none only where no result is for `id`.
pub proof fn lemma_result_for(results: Seq<CategoryScanView>, id: u32)
    ensures
        match result_for(results, id) {
            Some(r) => results.contains(r) && r.category_id == id,
            None => forall|i: int| 0 <= i < results.len() ==> (#[trigger] results[i]).category_id != id,
        },
    decreases results.len(),
{
    if results.len() > 0 {
        if results[0].category_id != id {
            let tail = results.drop_first();
            lemma_result_for(tail, id);
            match result_for(tail, id) {
                Some(r) => {
                    let k = choose|k: int| 0 <= k < tail.len() && tail[k] == r;
                    assert(results[k + 1] == r);
                },
                None => {
                    assert forall|i: int| 0 <= i < results.len() implies (
                    #[trigger] results[i]).category_id != id by {
                        if i > 0 {
                            assert(tail[i - 1] == results[i]);
                        }
                    }
                },
            }
        }
    }
}

/// The order in which the workers finish does not show: where each category
/// has at most one result, the same results in any order give the same
/// entries.
pub proof fn lemma_completion_order_does_not_show(
    categories: Seq<Category>,
    a: Seq<CategoryScanView>,
    b: Seq<CategoryScanView>,
)
    requires
        distinct_ids(a),
        distinct_ids(b),
        forall|r: CategoryScanView| a.contains(r) <==> b.contains(r),
    ensures
        assembled(categories, a) == assembled(categories, b),
{
    assert forall|id: u32| result_for(a, id) == result_for(b, id) by {
        lemma_result_for(a, id);
        lemma_result_for(b, id);
        match result_for(a, id) {
            Some(r) => {
                // `r` is among `b` too, and `b` has no second result for `id`
                let j = choose|j: int| 0 <= j < b.len() && b[j] == r;
                match result_for(b, id) {
                    Some(q) => {
                        let k = choose|k: int| 0 <= k < b.len() && b[k] == q;
                        assert(j == k);
                    },
                    None => {
                        assert(b[j].category_id != id);
                    },
                }
            },
            None => {
                // a result for `id` among `b` would be among `a` too
                if let Some(q) = result_for(b, id) {
                    let k = choose|k: int| 0 <= k < a.len() && a[k] == q;
                    assert(a[k].category_id != id);
                }
            },
        }
    }
}

} // verus!
