//! The category registry: the fixed table of cleanable categories.

use vstd::prelude::*;
use crate::builtin::{is_shipped_table, shipped_categories};
use crate::paths::{is_safe_relative, safe_relative};

verus! {

/// A location that is resolved only when a scan or a clean needs it.
#[derive(Clone, Debug)]
pub enum PathSpec {
    /// A path written out in full.
    Literal { path: String },
    /// A path below the directory that an environment variable names.
    EnvRelative { variable: String, relative: String },
    /// A path below the install directory of an application.
    InstalledApp { app: String, relative: String },
}

impl PathSpec {
    /// A literal path is not empty; a variable or application has a name, and
    /// the path below it never steps to `.` or `..`.
    pub open spec fn well_formed(self) -> bool {
        match self {
            PathSpec::Literal { path } => path@.len() > 0,
            PathSpec::EnvRelative { variable, relative } => variable@.len() > 0 && safe_relative(
                relative@,
            ),
            PathSpec::InstalledApp { app, relative } => app@.len() > 0 && safe_relative(
                relative@,
            ),
        }
    }

    /// Whether the spec is well formed.
    pub fn is_well_formed(&self) -> (b: bool)
        ensures
            b == self.well_formed(),
    {
        match self {
            PathSpec::Literal { path } => !path.as_str().is_empty(),
            PathSpec::EnvRelative { variable, relative } => !variable.as_str().is_empty()
                && is_safe_relative(relative.as_str()),
            PathSpec::InstalledApp { app, relative } => !app.as_str().is_empty()
                && is_safe_relative(relative.as_str()),
        }
    }
}

/// A path spec as plain text.
pub enum PathSpecView {
    Literal { path: Seq<char> },
    EnvRelative { variable: Seq<char>, relative: Seq<char> },
    InstalledApp { app: Seq<char>, relative: Seq<char> },
}

impl View for PathSpec {
    type V = PathSpecView;

    open spec fn view(&self) -> PathSpecView {
        match *self {
            PathSpec::Literal { path } => PathSpecView::Literal { path: path@ },
            PathSpec::EnvRelative { variable, relative } => PathSpecView::EnvRelative {
                variable: variable@,
                relative: relative@,
            },
            PathSpec::InstalledApp { app, relative } => PathSpecView::InstalledApp {
                app: app@,
                relative: relative@,
            },
        }
    }
}

/// The path specs of a category as plain text, in order.
pub open spec fn spec_views(specs: Seq<PathSpec>) -> Seq<PathSpecView> {
    specs.map_values(|s: PathSpec| s@)
}

/// A named bucket inside a category: it claims the files whose path below
/// the category's data directory begins with one of `prefixes`.
#[derive(Clone, Debug)]
pub struct SubCategory {
    pub name: String,
    pub prefixes: Vec<String>,
}

/// One cleanable category.
#[derive(Clone, Debug)]
pub struct Category {
    pub id: u32,
    pub name: String,
    pub path_specs: Vec<PathSpec>,
    pub sub_breakdown: Option<Vec<SubCategory>>,
}

/// Why a list of categories is no registry.
#[derive(Clone, Copy, Debug, PartialEq, Eq, Structural)]
pub enum RegistryError {
    /// Two categories have this id.
    DuplicateId(u32),
    /// The category with this id has no path spec.
    NoPathSpecs(u32),
    /// The category with this id has a path spec that is not well formed.
    MalformedSpec(u32),
}

/// Every path spec of `c` is well formed.
pub open spec fn specs_well_formed(c: Category) -> bool {
    forall|k: int| 0 <= k < c.path_specs@.len() ==> (#[trigger] c.path_specs@[k]).well_formed()
}

/// A category of `categories` has the id `id`.
pub open spec fn has_id(categories: Seq<Category>, id: u32) -> bool {
    exists|i: int| 0 <= i < categories.len() && (#[trigger] categories[i]).id == id
}

/// What a registry holds: no id twice, and for each category at least one
/// path spec, all of them well formed.
pub open spec fn valid(categories: Seq<Category>) -> bool {
    &&& forall|i: int, j: int|
        0 <= i < j < categories.len() ==> (#[trigger] categories[i]).id != (
        #[trigger] categories[j]).id
    &&& forall|i: int|
        0 <= i < categories.len() ==> (#[trigger] categories[i]).path_specs@.len() > 0
    &&& forall|i: int| 0 <= i < categories.len() ==> specs_well_formed(#[trigger] categories[i])
}

/// What is wrong with `c`, coming after `earlier`: a repeated id is named
/// first, then a missing path spec, then a malformed one.
pub open spec fn category_fault(earlier: Seq<Category>, c: Category) -> Option<RegistryError> {
    if has_id(earlier, c.id) {
        Some(RegistryError::DuplicateId(c.id))
    } else if c.path_specs@.len() == 0 {
        Some(RegistryError::NoPathSpecs(c.id))
    } else if !specs_well_formed(c) {
        Some(RegistryError::MalformedSpec(c.id))
    } else {
        None
    }
}

/// The fault of the first category that has one.
pub open spec fn first_fault(categories: Seq<Category>) -> Option<RegistryError>
    decreases categories.len(),
{
    if categories.len() == 0 {
        None
    } else {
        match first_fault(categories.drop_last()) {
            Some(e) => Some(e),
            None => category_fault(categories.drop_last(), categories.last()),
        }
    }
}

/// A list of categories is valid exactly when none of them has a fault.
pub proof fn lemma_valid_iff_no_fault(categories: Seq<Category>)
    ensures
        valid(categories) <==> first_fault(categories) is None,
    decreases categories.len(),
{
    if categories.len() > 0 {
        let head = categories.drop_last();
        let c = categories.last();
        lemma_valid_iff_no_fault(head);
        if valid(categories) && has_id(head, c.id) {
            // a category before `c` with the id of `c` would repeat it
            let i = choose|i: int| 0 <= i < head.len() && (#[trigger] head[i]).id == c.id;
            assert(head[i] == categories[i]);
        }
        if first_fault(categories) is None {
            assert forall|i: int, j: int| 0 <= i < j < categories.len() implies (
            #[trigger] categories[i]).id != (#[trigger] categories[j]).id by {
                assert(categories[i] == head[i]);
                if j < head.len() {
                    assert(categories[j] == head[j]);
                }
            }
            assert forall|i: int| 0 <= i < categories.len() implies (
            #[trigger] categories[i]).path_specs@.len() > 0 && specs_well_formed(categories[i]) by {
                if i < head.len() {
                    assert(categories[i] == head[i]);
                }
            }
        }
    }
}

/// The categories that can be scanned and cleaned, in a fixed order. It is
/// built once and handed to the scan and the clean; nothing changes it.
pub struct Registry {
    categories: Vec<Category>,
}

impl View for Registry {
    type V = Seq<Category>;

    closed spec fn view(&self) -> Seq<Category> {
        self.categories@
    }
}

/// The first index below `upto` whose category has the id `id`.
fn position(categories: &Vec<Category>, upto: usize, id: u32) -> (at: Option<usize>)
    requires
        upto <= categories.len(),
    ensures
        match at {
            Some(i) => i < upto && categories@[i as int].id == id && forall|j: int|
                0 <= j < i ==> (#[trigger] categories@[j]).id != id,
            None => forall|j: int| 0 <= j < upto ==> (#[trigger] categories@[j]).id != id,
        },
{
    let mut i: usize = 0;
    while i < upto
        invariant
            i <= upto <= categories.len(),
            forall|j: int| 0 <= j < i ==> (#[trigger] categories@[j]).id != id,
        decreases upto - i,
    {
        if categories[i].id == id {
            return Some(i);
        }
        i = i + 1;
    }
    None
}

fn all_well_formed(c: &Category) -> (b: bool)
    ensures
        b == specs_well_formed(*c),
{
    let mut k: usize = 0;
    while k < c.path_specs.len()
        invariant
            k <= c.path_specs.len(),
            forall|m: int| 0 <= m < k ==> (#[trigger] c.path_specs@[m]).well_formed(),
        decreases c.path_specs.len() - k,
    {
        if !c.path_specs[k].is_well_formed() {
            return false;
        }
        k = k + 1;
    }
    true
}

impl Registry {
    #[verifier::type_invariant]
    spec fn holds(self) -> bool {
        valid(self.categories@)
    }

    /// Makes a registry of `categories`, in their order, or names the first
    /// fault.
    pub fn new(categories: Vec<Category>) -> (r: Result<Registry, RegistryError>)
        ensures
            r is Ok <==> valid(categories@),
            match r {
                Ok(registry) => registry@ == categories@,
                Err(e) => first_fault(categories@) == Some(e),
            },
    {
        let n = categories.len();
        let mut i: usize = 0;
        while i < n
            invariant
                i <= n,
                n == categories.len(),
                first_fault(categories@.subrange(0, i as int)) is None,
            decreases n - i,
        {
            let c = &categories[i];
            let ghost earlier = categories@.subrange(0, i as int);
            let ghost now = categories@.subrange(0, i + 1);
            assert(now.drop_last() =~= earlier);
            let fault = match position(&categories, i, c.id) {
                Some(j) => {
                    assert(earlier[j as int] == categories@[j as int]);
                    Some(RegistryError::DuplicateId(c.id))
                },
                None => {
                    if c.path_specs.len() == 0 {
                        Some(RegistryError::NoPathSpecs(c.id))
                    } else if !all_well_formed(c) {
                        Some(RegistryError::MalformedSpec(c.id))
                    } else {
                        None
                    }
                },
            };
            if let Some(e) = fault {
                proof {
                    lemma_fault_stays(categories@, i + 1);
                    lemma_valid_iff_no_fault(categories@);
                }
                return Err(e);
            }
            i = i + 1;
        }
        proof {
            assert(categories@.subrange(0, n as int) =~= categories@);
            lemma_valid_iff_no_fault(categories@);
        }
        Ok(Registry { categories })
    }

    /// The registry of the categories that this tool ships with.
    pub fn builtin() -> (r: Registry)
        ensures
            valid(r@),
            is_shipped_table(r@),
    {
        Registry { categories: shipped_categories() }
    }

    /// The number of categories.
    pub fn len(&self) -> (n: usize)
        ensures
            n == self@.len(),
            valid(self@),
    {
        proof {
            use_type_invariant(self);
        }
        self.categories.len()
    }

    /// The category at `index`, in registry order.
    pub fn get(&self, index: usize) -> (c: Option<&Category>)
        ensures
            match c {
                Some(c) => index < self@.len() && *c == self@[index as int],
                None => index >= self@.len(),
            },
    {
        if index < self.categories.len() {
            Some(&self.categories[index])
        } else {
            None
        }
    }

    /// Where the category with the id `id` stands.
    pub fn find(&self, id: u32) -> (at: Option<usize>)
        ensures
            valid(self@),
            at is Some <==> has_id(self@, id),
            at matches Some(i) ==> i < self@.len() && self@[i as int].id == id,
    {
        proof {
            use_type_invariant(self);
        }
        position(&self.categories, self.categories.len(), id)
    }

    /// Whether a category has the id `id`.
    pub fn contains(&self, id: u32) -> (b: bool)
        ensures
            b == has_id(self@, id),
    {
        self.find(id).is_some()
    }
}

/// A fault among the first `k` categories is the fault of the whole list.
proof fn lemma_fault_stays(categories: Seq<Category>, k: int)
    requires
        0 <= k <= categories.len(),
        first_fault(categories.subrange(0, k)) is Some,
    ensures
        first_fault(categories) == first_fault(categories.subrange(0, k)),
    decreases categories.len() - k,
{
    if k < categories.len() {
        let next = categories.subrange(0, k + 1);
        assert(next.drop_last() =~= categories.subrange(0, k));
        lemma_fault_stays(categories, k + 1);
    } else {
        assert(categories.subrange(0, k) =~= categories);
    }
}

} // verus!
