//! The reference and query records that a difference table is built from.

use vstd::prelude::*;
use crate::valid_range::{
    get_valid_range, has_resolvable, is_valid_range_of, EmptySequenceError, ValidRange,
};

verus! {

/// A translated sequence as handed over by the translator: its residues and
/// the nucleotides of their codons, three per residue.
#[derive(Debug, Clone)]
pub struct TranslatedRecord {
    pub name: String,
    pub residues: Vec<u8>,
    pub codons: Vec<u8>,
}

impl TranslatedRecord {
    /// The codons line up with the residues, three nucleotides each.
    pub open spec fn is_aligned(&self) -> bool {
        self.codons@.len() == 3 * self.residues@.len()
    }
}

/// A translated sequence together with the span it is compared over.
#[derive(Debug, Clone)]
pub struct SequenceRecord {
    pub name: String,
    pub residues: Vec<u8>,
    pub codons: Vec<u8>,
    pub valid_range: ValidRange,
}

impl SequenceRecord {
    /// Codons line up with residues and the range lies within the residues.
    pub open spec fn wf(&self) -> bool {
        &&& self.codons@.len() == 3 * self.residues@.len()
        &&& self.valid_range.start <= self.valid_range.end <= self.residues@.len()
    }

    /// `self` holds `t` with the range that `restrict` calls for.
    pub open spec fn holds(&self, t: &TranslatedRecord, restrict: bool) -> bool {
        &&& self.name@ == t.name@
        &&& self.residues@ == t.residues@
        &&& self.codons@ == t.codons@
        &&& is_valid_range_of(t.residues@, restrict, self.valid_range)
    }

    /// Attaches to `t` its valid range; fails when `restrict` is set and `t`
    /// has no resolvable residue.
    pub fn new(t: TranslatedRecord, restrict: bool) -> (r: Result<SequenceRecord, EmptySequenceError>)
        requires
            t.is_aligned(),
        ensures
            r is Err <==> (restrict && !has_resolvable(t.residues@)),
            r matches Ok(s) ==> s.wf() && s.holds(&t, restrict),
    {
        let valid_range = get_valid_range(&t.residues, restrict)?;
        let TranslatedRecord { name, residues, codons } = t;
        Ok(SequenceRecord { name, residues, codons, valid_range })
    }
}

/// One reference record and the query records compared against it, in input order.
#[derive(Debug, Clone)]
pub struct SequenceRegistry {
    pub reference: SequenceRecord,
    pub queries: Vec<SequenceRecord>,
}

impl SequenceRegistry {
    /// Every record is well formed and every query is as long as the reference.
    pub open spec fn wf(&self) -> bool {
        &&& self.reference.wf()
        &&& forall|j: int|
            0 <= j < self.queries@.len() ==> (#[trigger] self.queries@[j]).wf()
                && self.queries@[j].residues@.len() == self.reference.residues@.len()
    }

    /// Builds the registry from the reference and the queries, keeping the
    /// queries in input order. Every record must carry three nucleotides per
    /// residue, and every query must be exactly as long as the reference.
    /// With `restrict` set, a single record without any resolvable residue
    /// fails the whole build.
    pub fn build(
        reference: TranslatedRecord,
        queries: Vec<TranslatedRecord>,
        restrict: bool,
    ) -> (r: Result<SequenceRegistry, EmptySequenceError>)
        requires
            reference.is_aligned(),
            forall|j: int|
                0 <= j < queries@.len() ==> (#[trigger] queries@[j]).is_aligned()
                    && queries@[j].residues@.len() == reference.residues@.len(),
        ensures
            r is Err <==> restrict && (!has_resolvable(reference.residues@) || exists|j: int|
                0 <= j < queries@.len() && !has_resolvable(#[trigger] queries@[j].residues@)),
            r matches Ok(reg) ==> {
                &&& reg.wf()
                &&& reg.reference.holds(&reference, restrict)
                &&& reg.queries@.len() == queries@.len()
                &&& forall|j: int|
                    0 <= j < queries@.len() ==> (#[trigger] reg.queries@[j]).holds(&queries@[j], restrict)
            },
    {
        let ghost ref_residues = reference.residues@;
        let ghost input = queries@;
        let reference = SequenceRecord::new(reference, restrict)?;
        let mut records: Vec<SequenceRecord> = Vec::new();
        for t in it: queries.into_iter()
            invariant
                it.seq() == input,
                records@.len() == it.index(),
                reference.wf(),
                reference.residues@ == ref_residues,
                forall|j: int|
                    0 <= j < input.len() ==> (#[trigger] input[j]).is_aligned()
                        && input[j].residues@.len() == ref_residues.len(),
                forall|j: int| 0 <= j < it.index() ==> restrict ==> has_resolvable(#[trigger] input[j].residues@),
                forall|j: int|
                    0 <= j < records@.len() ==> (#[trigger] records@[j]).wf()
                        && records@[j].holds(&input[j], restrict)
                        && records@[j].residues@.len() == ref_residues.len(),
        {
            let record = SequenceRecord::new(t, restrict)?;
            records.push(record);
        }
        Ok(SequenceRegistry { reference, queries: records })
    }
}

} // verus!
