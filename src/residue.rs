//! The residue alphabet symbols that the comparison logic treats specially.

use vstd::prelude::*;

verus! {

/// The residue emitted for a codon whose translation is not a single amino acid (`X`).
pub const UNRESOLVED: u8 = 88;

/// The residue emitted for a fully gapped codon (`-`).
pub const GAP: u8 = 45;

/// A residue that can take part in a comparison: neither unresolved nor a gap.
pub open spec fn is_resolvable(aa: u8) -> bool {
    aa != UNRESOLVED && aa != GAP
}

/// Executable test for `is_resolvable`.
pub fn resolvable(aa: u8) -> (r: bool)
    ensures
        r == is_resolvable(aa),
{
    aa != UNRESOLVED && aa != GAP
}

} // verus!
