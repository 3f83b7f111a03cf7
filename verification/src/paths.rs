//! Paths as text: separators, joining a directory with an entry name, and
//! containment of a path under a root.

use vstd::prelude::*;
use crate::text::{chars_of, has_prefix, starts_with};

verus! {

/// Both separators that the host accepts.
pub open spec fn is_sep(c: char) -> bool {
    c == '\\' || c == '/'
}

/// Whether `c` separates the components of a path.
pub fn is_separator(c: char) -> (b: bool)
    ensures
        b == is_sep(c),
{
    c == '\\' || c == '/'
}

/// The name of one directory entry: not empty, free of separators, and
/// neither `.` nor `..`.
pub open spec fn plain_name(name: Seq<char>) -> bool {
    &&& name.len() > 0
    &&& forall|i: int| 0 <= i < name.len() ==> !is_sep(#[trigger] name[i])
    &&& name != seq!['.']
    &&& name != seq!['.', '.']
}

/// Whether `name` can be the name of one directory entry.
pub fn is_plain_name(name: &str) -> (b: bool)
    ensures
        b == plain_name(name@),
{
    let chars = chars_of(name);
    let n = chars.len();
    if n == 0 {
        return false;
    }
    if n == 1 && chars[0] == '.' {
        assert(chars@ =~= seq!['.']);
        return false;
    }
    if n == 2 && chars[0] == '.' && chars[1] == '.' {
        assert(chars@ =~= seq!['.', '.']);
        return false;
    }
    assert(chars@ != seq!['.']);
    assert(chars@ != seq!['.', '.']);
    let mut i: usize = 0;
    while i < n
        invariant
            i <= n,
            n == chars.len(),
            chars@ == name@,
            forall|k: int| 0 <= k < i ==> !is_sep(#[trigger] chars@[k]),
        decreases n - i,
    {
        if is_separator(chars[i]) {
            return false;
        }
        i = i + 1;
    }
    true
}

/// `dir` followed by `name`, with one separator between them where `dir`
/// does not already end in one. An empty side leaves the other unchanged.
pub open spec fn joined(dir: Seq<char>, name: Seq<char>) -> Seq<char> {
    if dir.len() == 0 {
        name
    } else if name.len() == 0 {
        dir
    } else if is_sep(dir.last()) {
        dir + name
    } else {
        dir + seq!['\\'] + name
    }
}

/// Joins `dir` and `name`.
pub fn join(dir: &str, name: &str) -> (out: String)
    ensures
        out@ == joined(dir@, name@),
{
    let d = chars_of(dir);
    let n = chars_of(name);
    if d.len() == 0 {
        return String::from_str(name);
    }
    let mut out = String::from_str(dir);
    if n.len() == 0 {
        return out;
    }
    if !is_separator(d[d.len() - 1]) {
        proof {
            reveal_strlit("\\");
        }
        out.append("\\");
    }
    out.append(name);
    out
}

/// A path component of `s` begins at `i`, where the part of `s` from `from`
/// on is looked at.
pub open spec fn component_start(s: Seq<char>, from: int, i: int) -> bool {
    &&& from <= i < s.len()
    &&& !is_sep(s[i])
    &&& (i == from || is_sep(s[i - 1]))
}

/// `s` ends at `j`, or a separator stands there.
pub open spec fn component_end(s: Seq<char>, j: int) -> bool {
    j >= s.len() || is_sep(s[j])
}

/// The component of `s` that begins at `i` is `.` or `..`.
pub open spec fn dot_component(s: Seq<char>, from: int, i: int) -> bool {
    &&& component_start(s, from, i)
    &&& s[i] == '.'
    &&& (component_end(s, i + 1) || (s[i + 1] == '.' && component_end(s, i + 2)))
}

/// No component of `s`, from `from` on, is `.` or `..`.
pub open spec fn dot_free(s: Seq<char>, from: int) -> bool {
    forall|i: int| !#[trigger] dot_component(s, from, i)
}

/// `s` holds, from `from` on, a character that is no separator.
pub open spec fn names_something(s: Seq<char>, from: int) -> bool {
    exists|i: int| from <= i < s.len() && !is_sep(#[trigger] s[i])
}

/// A relative path that never steps to `.` or `..`.
pub open spec fn safe_relative(relative: Seq<char>) -> bool {
    dot_free(relative, 0)
}

/// `path` names something strictly below `root`: it is `root`, a separator,
/// and at least one further component, none of which is `.` or `..`. The
/// comparison is textual.
pub open spec fn within(root: Seq<char>, path: Seq<char>) -> bool {
    &&& root.len() > 0
    &&& has_prefix(path, root)
    &&& path.len() > root.len()
    &&& (is_sep(root.last()) || is_sep(path[root.len() as int]))
    &&& names_something(path, root.len() as int)
    &&& dot_free(path, root.len() as int)
}

fn is_dot_free(p: &Vec<char>, from: usize) -> (b: bool)
    requires
        from <= p.len(),
    ensures
        b == dot_free(p@, from as int),
{
    let n = p.len();
    let mut i: usize = from;
    while i < n
        invariant
            from <= i <= n,
            n == p.len(),
            forall|k: int| k < i ==> !#[trigger] dot_component(p@, from as int, k),
        decreases n - i,
    {
        if p[i] == '.' && (i == from || is_separator(p[i - 1])) {
            if i + 1 >= n || is_separator(p[i + 1]) {
                assert(dot_component(p@, from as int, i as int));
                return false;
            }
            if p[i + 1] == '.' && (i + 2 >= n || is_separator(p[i + 2])) {
                assert(dot_component(p@, from as int, i as int));
                return false;
            }
        }
        i = i + 1;
    }
    true
}

fn has_name(p: &Vec<char>, from: usize) -> (b: bool)
    requires
        from <= p.len(),
    ensures
        b == names_something(p@, from as int),
{
    let n = p.len();
    let mut i: usize = from;
    while i < n
        invariant
            from <= i <= n,
            n == p.len(),
            forall|k: int| from <= k < i ==> is_sep(#[trigger] p@[k]),
        decreases n - i,
    {
        if !is_separator(p[i]) {
            return true;
        }
        i = i + 1;
    }
    false
}

/// Whether `relative` never steps to `.` or `..`.
pub fn is_safe_relative(relative: &str) -> (b: bool)
    ensures
        b == safe_relative(relative@),
{
    let p = chars_of(relative);
    is_dot_free(&p, 0)
}

/// Whether `path` lies strictly below `root`. This is the test that a
/// path has to pass before it is deleted.
pub fn is_within(root: &str, path: &str) -> (b: bool)
    ensures
        b == within(root@, path@),
{
    let r = chars_of(root);
    let p = chars_of(path);
    let from = r.len();
    if from == 0 || p.len() <= from || !starts_with(&p, &r) {
        return false;
    }
    if !is_separator(r[from - 1]) && !is_separator(p[from]) {
        return false;
    }
    has_name(&p, from) && is_dot_free(&p, from)
}

/// What is found in a directory at or below a root, under a plain name, lies
/// within that root.
pub proof fn lemma_entry_within(root: Seq<char>, dir: Seq<char>, name: Seq<char>)
    requires
        root.len() > 0,
        dir == root || within(root, dir),
        plain_name(name),
    ensures
        within(root, joined(dir, name)),
{
    let p = joined(dir, name);
    let from = root.len() as int;
    let off: int = if is_sep(dir.last()) {
        dir.len() as int
    } else {
        dir.len() as int + 1
    };
    assert(dir.subrange(0, from) == root);
    assert(p.subrange(0, from) =~= dir.subrange(0, from));
    assert(!is_sep(p[off]));
    assert forall|i: int| !#[trigger] dot_component(p, from, i) by {
        if dot_component(p, from, i) {
            if i < dir.len() {
                // the component would be one of `dir`
                assert(dot_component(dir, from, i));
            } else if i == off {
                // the component would be `name`
                if name.len() == 1 {
                    assert(name =~= seq!['.']);
                } else if p[off + 1] == '.' && name.len() == 2 {
                    assert(name =~= seq!['.', '.']);
                }
            }
        }
    }
}

} // verus!
