//! Character-level access to strings.

use vstd::prelude::*;

verus! {

/// `prefix` stands at the start of `s`.
pub open spec fn has_prefix(s: Seq<char>, prefix: Seq<char>) -> bool {
    prefix.len() <= s.len() && s.subrange(0, prefix.len() as int) == prefix
}

/// The characters of `s`, in order.
pub fn chars_of(s: &str) -> (out: Vec<char>)
    ensures
        out@ == s@,
{
    let mut out: Vec<char> = Vec::new();
    for c in it: s.chars()
        invariant
            out@ == s@.subrange(0, it.index() as int),
            it.seq() == s@,
    {
        out.push(c);
    }
    out
}

/// Whether `prefix` stands at the start of `s`.
pub fn starts_with(s: &Vec<char>, prefix: &Vec<char>) -> (b: bool)
    ensures
        b == has_prefix(s@, prefix@),
{
    if prefix.len() > s.len() {
        return false;
    }
    let mut i: usize = 0;
    while i < prefix.len()
        invariant
            i <= prefix.len() <= s.len(),
            s@.subrange(0, i as int) == prefix@.subrange(0, i as int),
        decreases prefix.len() - i,
    {
        if s[i] != prefix[i] {
            return false;
        }
        i = i + 1;
    }
    assert(prefix@.subrange(0, prefix.len() as int) == prefix@);
    true
}

} // verus!
