//! The path resolver: from a path spec to a concrete path on this host.
//!
//! What the host knows (its environment variables and its install records)
//! is read by the caller and handed over as plain values. Whether a
//! candidate exists is probed by the caller too; `retain_existing` then
//! keeps the candidates that do.

use vstd::prelude::*;
use crate::aggregate::Totals;
use crate::paths::{join, joined};
use crate::registry::{Category, PathSpec, specs_well_formed};

verus! {

/// An environment variable of the host.
#[derive(Clone, Debug)]
pub struct Variable {
    pub name: String,
    pub value: String,
}

/// The install record of an application, with the size of what is installed.
#[derive(Clone, Debug)]
pub struct Software {
    pub name: String,
    pub path: String,
    pub size_bytes: u64,
}

/// An install record as the host keeps it.
#[derive(Clone, Debug)]
pub struct InstallRecord {
    pub name: String,
    pub path: String,
}

/// What path specs are resolved against.
#[derive(Clone, Debug)]
pub struct Host {
    pub variables: Vec<Variable>,
    pub installed: Vec<Software>,
}

/// The one way in which resolving fails.
#[derive(Clone, Copy, Debug, PartialEq, Eq, Structural)]
pub enum ResolveError {
    /// The path spec is not well formed.
    MalformedSpec,
}

/// The value of the first variable called `name`.
pub open spec fn variable_value(variables: Seq<Variable>, name: Seq<char>) -> Option<Seq<char>>
    decreases variables.len(),
{
    if variables.len() == 0 {
        None
    } else if variables[0].name@ == name {
        Some(variables[0].value@)
    } else {
        variable_value(variables.drop_first(), name)
    }
}

/// The install directory in the first record of the application `app`.
pub open spec fn install_path(installed: Seq<Software>, app: Seq<char>) -> Option<Seq<char>>
    decreases installed.len(),
{
    if installed.len() == 0 {
        None
    } else if installed[0].name@ == app {
        Some(installed[0].path@)
    } else {
        install_path(installed.drop_first(), app)
    }
}

/// `relative` below `base`, where there is a base and it is not empty.
pub open spec fn below(base: Option<Seq<char>>, relative: Seq<char>) -> Option<Seq<char>> {
    match base {
        Some(b) => if b.len() > 0 {
            Some(joined(b, relative))
        } else {
            None
        },
        None => None,
    }
}

/// The path that `spec` stands for on `host`. A variable that is not set, or
/// an application that is not installed, gives none.
pub open spec fn candidate(spec: PathSpec, host: Host) -> Option<Seq<char>> {
    match spec {
        PathSpec::Literal { path } => Some(path@),
        PathSpec::EnvRelative { variable, relative } => below(
            variable_value(host.variables@, variable@),
            relative@,
        ),
        PathSpec::InstalledApp { app, relative } => below(
            install_path(host.installed@, app@),
            relative@,
        ),
    }
}

/// The paths that `specs` stand for on `host`, in the order of the specs.
pub open spec fn candidates(specs: Seq<PathSpec>, host: Host) -> Seq<Seq<char>>
    decreases specs.len(),
{
    if specs.len() == 0 {
        Seq::empty()
    } else {
        match candidate(specs.last(), host) {
            Some(p) => candidates(specs.drop_last(), host).push(p),
            None => candidates(specs.drop_last(), host),
        }
    }
}

/// The candidates that were found present: `paths[i]` stays where
/// `present[i]` says so, and goes where it says no or says nothing.
pub open spec fn existing(paths: Seq<Seq<char>>, present: Seq<bool>) -> Seq<Seq<char>>
    decreases paths.len(),
{
    if paths.len() == 0 {
        Seq::empty()
    } else if paths.len() <= present.len() && present[paths.len() - 1] {
        existing(paths.drop_last(), present).push(paths.last())
    } else {
        existing(paths.drop_last(), present)
    }
}

/// Looks up the environment variable `name`.
pub fn lookup_variable(variables: &Vec<Variable>, name: &String) -> (value: Option<String>)
    ensures
        value.deep_view() == variable_value(variables@, name@),
{
    let mut i: usize = 0;
    assert(variables@.skip(0) =~= variables@);
    while i < variables.len()
        invariant
            i <= variables.len(),
            variable_value(variables@, name@) == variable_value(variables@.skip(i as int), name@),
        decreases variables.len() - i,
    {
        assert(variables@.skip(i as int).drop_first() =~= variables@.skip(i + 1));
        if variables[i].name == *name {
            return Some(variables[i].value.clone());
        }
        i = i + 1;
    }
    None
}

/// Looks up where the application `app` is installed.
pub fn find_installed(installed: &Vec<Software>, app: &String) -> (path: Option<String>)
    ensures
        path.deep_view() == install_path(installed@, app@),
{
    let mut i: usize = 0;
    assert(installed@.skip(0) =~= installed@);
    while i < installed.len()
        invariant
            i <= installed.len(),
            install_path(installed@, app@) == install_path(installed@.skip(i as int), app@),
        decreases installed.len() - i,
    {
        assert(installed@.skip(i as int).drop_first() =~= installed@.skip(i + 1));
        if installed[i].name == *app {
            return Some(installed[i].path.clone());
        }
        i = i + 1;
    }
    None
}

fn join_below(base: Option<String>, relative: &String) -> (path: Option<String>)
    ensures
        path.deep_view() == below(base.deep_view(), relative@),
{
    match base {
        Some(b) => if b.as_str().is_empty() {
            None
        } else {
            Some(join(b.as_str(), relative.as_str()))
        },
        None => None,
    }
}

/// Resolves one path spec. A spec that is not well formed is the only
/// error; a spec that names nothing on this host resolves to `None`.
pub fn resolve_spec(spec: &PathSpec, host: &Host) -> (r: Result<Option<String>, ResolveError>)
    ensures
        r is Ok <==> spec.well_formed(),
        r matches Ok(path) ==> path.deep_view() == candidate(*spec, *host),
        r matches Err(e) ==> e == ResolveError::MalformedSpec,
{
    if !spec.is_well_formed() {
        return Err(ResolveError::MalformedSpec);
    }
    match spec {
        PathSpec::Literal { path } => Ok(Some(path.clone())),
        PathSpec::EnvRelative { variable, relative } => Ok(
            join_below(lookup_variable(&host.variables, variable), relative),
        ),
        PathSpec::InstalledApp { app, relative } => Ok(
            join_below(find_installed(&host.installed, app), relative),
        ),
    }
}

/// Resolves every path spec of `category`, in order, leaving out those that
/// name nothing on this host.
pub fn resolve_category(category: &Category, host: &Host) -> (r: Result<
    Vec<String>,
    ResolveError,
>)
    ensures
        r is Ok <==> specs_well_formed(*category),
        r matches Ok(paths) ==> paths.deep_view() == candidates(category.path_specs@, *host),
        r matches Err(e) ==> e == ResolveError::MalformedSpec,
{
    let mut out: Vec<String> = Vec::new();
    let n = category.path_specs.len();
    let mut i: usize = 0;
    while i < n
        invariant
            i <= n,
            n == category.path_specs.len(),
            forall|k: int| 0 <= k < i ==> (#[trigger] category.path_specs@[k]).well_formed(),
            out.deep_view() == candidates(category.path_specs@.subrange(0, i as int), *host),
        decreases n - i,
    {
        let ghost seen = category.path_specs@.subrange(0, i as int);
        let ghost now = category.path_specs@.subrange(0, i + 1);
        assert(now.drop_last() =~= seen);
        match resolve_spec(&category.path_specs[i], host) {
            Err(e) => {
                return Err(e);
            },
            Ok(None) => {},
            Ok(Some(p)) => {
                out.push(p);
            },
        }
        i = i + 1;
    }
    assert(category.path_specs@.subrange(0, n as int) =~= category.path_specs@);
    Ok(out)
}

/// Keeps the candidates that the caller found present. `present[i]` is the
/// answer for `paths[i]`; a missing answer counts as absent.
pub fn retain_existing(paths: Vec<String>, present: &Vec<bool>) -> (out: Vec<String>)
    ensures
        out.deep_view() == existing(paths.deep_view(), present@),
{
    let mut out: Vec<String> = Vec::new();
    let n = paths.len();
    let mut i: usize = 0;
    while i < n
        invariant
            i <= n,
            n == paths.len(),
            out.deep_view() == existing(paths.deep_view().subrange(0, i as int), present@),
        decreases n - i,
    {
        let ghost seen = paths.deep_view().subrange(0, i as int);
        let ghost now = paths.deep_view().subrange(0, i + 1);
        assert(now.drop_last() =~= seen);
        if i < present.len() && present[i] {
            out.push(paths[i].clone());
        }
        i = i + 1;
    }
    assert(paths.deep_view().subrange(0, n as int) =~= paths.deep_view());
    out
}

/// The size that was measured for the record at `i`; zero where nothing was
/// measured for it.
pub open spec fn measured_bytes(sizes: Seq<Totals>, i: int) -> u64 {
    if 0 <= i < sizes.len() {
        sizes[i].total_bytes
    } else {
        0
    }
}

/// The installed applications, in the order of the host's records, each
/// with the size of its install directory. `sizes[i]` is what a walk of
/// `records[i].path` measured.
pub fn get_installed_software(records: &Vec<InstallRecord>, sizes: &Vec<Totals>) -> (out: Vec<
    Software,
>)
    ensures
        out@.len() == records@.len(),
        forall|i: int|
            0 <= i < records@.len() ==> {
                &&& (#[trigger] out@[i]).name@ == records@[i].name@
                &&& out@[i].path@ == records@[i].path@
                &&& out@[i].size_bytes == measured_bytes(sizes@, i)
            },
{
    let mut out: Vec<Software> = Vec::new();
    let mut i: usize = 0;
    while i < records.len()
        invariant
            i <= records.len(),
            out@.len() == i,
            forall|k: int|
                0 <= k < i ==> {
                    &&& (#[trigger] out@[k]).name@ == records@[k].name@
                    &&& out@[k].path@ == records@[k].path@
                    &&& out@[k].size_bytes == measured_bytes(sizes@, k)
                },
        decreases records.len() - i,
    {
        let size = if i < sizes.len() {
            sizes[i].total_bytes
        } else {
            0
        };
        out.push(
            Software {
                name: records[i].name.clone(),
                path: records[i].path.clone(),
                size_bytes: size,
            },
        );
        i = i + 1;
    }
    out
}

} // verus!
