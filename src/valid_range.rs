//! The comparable span of a translated sequence.

use vstd::prelude::*;
use crate::residue::{is_resolvable, resolvable};

verus! {

/// A half-open interval `[start, end)` of residue indices.
#[derive(Debug, Clone, Copy, PartialEq, Eq, Structural)]
pub struct ValidRange {
    pub start: usize,
    pub end: usize,
}

impl ValidRange {
    pub open spec fn spec_contains(self, i: int) -> bool {
        self.start <= i < self.end
    }

    /// Whether index `i` lies inside the interval.
    pub fn contains(&self, i: usize) -> (r: bool)
        ensures
            r == self.spec_contains(i as int),
    {
        self.start <= i && i < self.end
    }
}

/// Raised when a sequence that must be trimmed holds no resolvable residue.
#[derive(Debug, Clone, Copy, PartialEq, Eq, Structural)]
pub struct EmptySequenceError;

/// Whether some residue of `aa` is neither `X` nor `-`.
pub open spec fn has_resolvable(aa: Seq<u8>) -> bool {
    exists|k: int| 0 <= k < aa.len() && is_resolvable(#[trigger] aa[k])
}

/// `[s, e)` runs from the first to one past the last resolvable residue of `aa`.
pub open spec fn is_trimmed_range(aa: Seq<u8>, s: int, e: int) -> bool {
    &&& 0 <= s < e <= aa.len()
    &&& is_resolvable(aa[s])
    &&& is_resolvable(aa[e - 1])
    &&& forall|k: int| 0 <= k < s ==> !is_resolvable(#[trigger] aa[k])
    &&& forall|k: int| e <= k < aa.len() ==> !is_resolvable(#[trigger] aa[k])
}

/// The range that a sequence is compared over: the whole sequence, or with
/// restriction the span between its first and last resolvable residues.
pub open spec fn is_valid_range_of(aa: Seq<u8>, restrict: bool, r: ValidRange) -> bool {
    if restrict {
        is_trimmed_range(aa, r.start as int, r.end as int)
    } else {
        r.start == 0 && r.end == aa.len()
    }
}

/// Computes the comparable span of `aa`. Without restriction it is the whole
/// sequence; with restriction leading and trailing `X` and `-` are dropped,
/// and a sequence made only of those is an error.
pub fn get_valid_range(aa: &Vec<u8>, restrict: bool) -> (r: Result<ValidRange, EmptySequenceError>)
    ensures
        r is Err <==> (restrict && !has_resolvable(aa@)),
        r matches Ok(v) ==> is_valid_range_of(aa@, restrict, v),
{
    if !restrict {
        return Ok(ValidRange { start: 0, end: aa.len() });
    }
    let mut s: usize = 0;
    while s < aa.len() && !resolvable(aa[s])
        invariant
            s <= aa.len(),
            forall|k: int| 0 <= k < s ==> !is_resolvable(#[trigger] aa@[k]),
        decreases aa.len() - s,
    {
        s = s + 1;
    }
    if s == aa.len() {
        return Err(EmptySequenceError);
    }
    let mut e: usize = aa.len();
    while !resolvable(aa[e - 1])
        invariant
            s < e <= aa.len(),
            is_resolvable(aa@[s as int]),
            forall|k: int| e <= k < aa.len() ==> !is_resolvable(#[trigger] aa@[k]),
        decreases e,
    {
        e = e - 1;
    }
    Ok(ValidRange { start: s, end: e })
}

/// The trimmed range of a sequence is determined by its residues.
pub proof fn lemma_trimmed_range_unique(aa: Seq<u8>, s1: int, e1: int, s2: int, e2: int)
    requires
        is_trimmed_range(aa, s1, e1),
        is_trimmed_range(aa, s2, e2),
    ensures
        s1 == s2,
        e1 == e2,
{
}

} // verus!
