//! The scan of reference positions that yields the rows of a difference table.

use vstd::prelude::*;
use crate::codon_table::{degeneracy_label, AmbiguityCodonTable};
use crate::registry::{SequenceRecord, SequenceRegistry};
use crate::residue::{GAP, UNRESOLVED};

verus! {

/// The three nucleotides of the codon behind residue `i`.
pub open spec fn codon_of(codons: Seq<u8>, i: int) -> Seq<u8> {
    codons.subrange(3 * i, 3 * i + 3)
}

/// The text shown for a query residue `aa` that differs from the reference:
/// `del` for a gap; for `X`, the degeneracy label of its codon, or `X` when
/// there is none; otherwise the residue itself.
pub open spec fn display_token(aa: u8, codon: Seq<u8>) -> Seq<u8> {
    if aa == GAP {
        seq!['d' as u8, 'e' as u8, 'l' as u8]
    } else if aa == UNRESOLVED {
        match degeneracy_label(codon) {
            Some(label) => label,
            None => seq![UNRESOLVED],
        }
    } else {
        seq![aa]
    }
}

/// The field of query `q` at reference index `i`: empty unless `i` lies in
/// the query's valid range and its residue there differs from `ref_aa`.
pub open spec fn query_field(q: SequenceRecord, i: int, ref_aa: u8) -> Seq<u8> {
    if q.valid_range.spec_contains(i) && q.residues@[i] != ref_aa {
        display_token(q.residues@[i], codon_of(q.codons@, i))
    } else {
        Seq::empty()
    }
}

/// The fields of all queries at reference index `i`, in query order.
pub open spec fn row_fields(reg: SequenceRegistry, i: int) -> Seq<Seq<u8>> {
    Seq::new(
        reg.queries@.len(),
        |j: int| query_field(reg.queries@[j], i, reg.reference.residues@[i]),
    )
}

/// Whether some query differs from the reference at index `i`.
pub open spec fn differs_at(reg: SequenceRegistry, i: int) -> bool {
    exists|j: int| 0 <= j < reg.queries@.len() && (#[trigger] row_fields(reg, i)[j]).len() > 0
}

/// Where a query has a gap inside its valid range and the reference does
/// not, the query's field is `del`, and the position is a differing one.
pub proof fn lemma_gap_shows_del(reg: SequenceRegistry, i: int, j: int)
    requires
        0 <= j < reg.queries@.len(),
        reg.queries@[j].valid_range.spec_contains(i),
        reg.queries@[j].residues@[i] == GAP,
        reg.reference.residues@[i] != GAP,
    ensures
        row_fields(reg, i)[j] == seq!['d' as u8, 'e' as u8, 'l' as u8],
        differs_at(reg, i),
{
    assert(row_fields(reg, i)[j].len() > 0);
}

/// A row of the table: the 1-based reference position, the reference
/// residue, and one field per query.
pub struct RowModel {
    pub position: nat,
    pub reference_aa: u8,
    pub fields: Seq<Seq<u8>>,
}

/// The row for reference index `i`.
pub open spec fn row_at(reg: SequenceRegistry, i: int) -> RowModel {
    RowModel {
        position: (i + 1) as nat,
        reference_aa: reg.reference.residues@[i],
        fields: row_fields(reg, i),
    }
}

/// The rows for the differing indices of the reference's valid range below
/// `end`, in ascending order.
pub open spec fn rows_before(reg: SequenceRegistry, end: int) -> Seq<RowModel>
    decreases end - reg.reference.valid_range.start,
{
    if end <= reg.reference.valid_range.start {
        Seq::empty()
    } else {
        let earlier = rows_before(reg, end - 1);
        if differs_at(reg, end - 1) {
            earlier.push(row_at(reg, end - 1))
        } else {
            earlier
        }
    }
}

/// The rows of the whole table: one per differing index of the
/// reference's valid range, in ascending order.
pub open spec fn table_rows(reg: SequenceRegistry) -> Seq<RowModel> {
    rows_before(reg, reg.reference.valid_range.end as int)
}

/// Rows are listed in strictly increasing position, each at a differing
/// index of the reference's valid range, with one field per query; and
/// every differing index of that range has its row.
pub proof fn lemma_rows_before(reg: SequenceRegistry, end: int)
    requires
        end <= reg.reference.valid_range.end,
    ensures
        forall|k: int|
            0 <= k < rows_before(reg, end).len() ==> {
                let i = rows_before(reg, end)[k].position - 1;
                &&& reg.reference.valid_range.start <= i < end
                &&& differs_at(reg, i)
                &&& #[trigger] rows_before(reg, end)[k] == row_at(reg, i)
            },
        forall|k: int, l: int|
            0 <= k < l < rows_before(reg, end).len() ==> rows_before(reg, end)[k].position
                < rows_before(reg, end)[l].position,
        forall|i: int|
            reg.reference.valid_range.start <= i < end && differs_at(reg, i) ==> exists|k: int|
                0 <= k < rows_before(reg, end).len() && #[trigger] rows_before(reg, end)[k]
                    == row_at(reg, i),
    decreases end - reg.reference.valid_range.start,
{
    if end > reg.reference.valid_range.start {
        lemma_rows_before(reg, end - 1);
        let earlier = rows_before(reg, end - 1);
        if differs_at(reg, end - 1) {
            assert(rows_before(reg, end) == earlier.push(row_at(reg, end - 1)));
            assert forall|i: int|
                reg.reference.valid_range.start <= i < end && differs_at(reg, i) implies exists|k: int|
                    0 <= k < rows_before(reg, end).len() && #[trigger] rows_before(reg, end)[k]
                        == row_at(reg, i) by {
                if i < end - 1 {
                    let k = choose|k: int| 0 <= k < earlier.len() && #[trigger] earlier[k] == row_at(reg, i);
                    assert(rows_before(reg, end)[k] == row_at(reg, i));
                } else {
                    assert(rows_before(reg, end)[earlier.len() as int] == row_at(reg, i));
                }
            }
        } else {
            assert(rows_before(reg, end) == earlier);
            assert forall|i: int|
                reg.reference.valid_range.start <= i < end && differs_at(reg, i) implies exists|k: int|
                    0 <= k < rows_before(reg, end).len() && #[trigger] rows_before(reg, end)[k]
                        == row_at(reg, i) by {
                let k = choose|k: int| 0 <= k < earlier.len() && #[trigger] earlier[k] == row_at(reg, i);
                assert(rows_before(reg, end)[k] == row_at(reg, i));
            }
        }
    }
}

/// The table's rows: strictly ascending positions, exactly the differing
/// indices of the reference's valid range, each with one field per query.
pub proof fn lemma_table_rows(reg: SequenceRegistry)
    requires
        reg.wf(),
    ensures
        forall|k: int, l: int|
            0 <= k < l < table_rows(reg).len() ==> table_rows(reg)[k].position
                < table_rows(reg)[l].position,
        forall|k: int|
            0 <= k < table_rows(reg).len() ==> {
                let i = table_rows(reg)[k].position - 1;
                &&& reg.reference.valid_range.spec_contains(i)
                &&& differs_at(reg, i)
                &&& #[trigger] table_rows(reg)[k] == row_at(reg, i)
                &&& table_rows(reg)[k].fields.len() == reg.queries@.len()
            },
        forall|i: int|
            reg.reference.valid_range.spec_contains(i) && differs_at(reg, i) ==> exists|k: int|
                0 <= k < table_rows(reg).len() && #[trigger] table_rows(reg)[k] == row_at(reg, i),
{
    let end = reg.reference.valid_range.end as int;
    lemma_rows_before(reg, end);
    assert forall|i: int|
        reg.reference.valid_range.spec_contains(i) && differs_at(reg, i) implies exists|k: int|
            0 <= k < table_rows(reg).len() && #[trigger] table_rows(reg)[k] == row_at(reg, i) by {
        let k = choose|k: int|
            0 <= k < rows_before(reg, end).len() && #[trigger] rows_before(reg, end)[k] == row_at(reg, i);
        assert(table_rows(reg)[k] == row_at(reg, i));
    }
}

/// A row of the difference table.
#[derive(Debug, Clone)]
pub struct DiffRow {
    pub position: usize,
    pub reference_aa: u8,
    pub fields: Vec<Vec<u8>>,
}

impl View for DiffRow {
    type V = RowModel;

    open spec fn view(&self) -> RowModel {
        RowModel {
            position: self.position as nat,
            reference_aa: self.reference_aa,
            fields: self.fields@.map_values(|f: Vec<u8>| f@),
        }
    }
}

/// Scans a registry for the positions where a query differs from the reference.
pub struct DiffTableBuilder {
    table: AmbiguityCodonTable,
}

impl DiffTableBuilder {
    /// The builder's codon table is complete.
    pub closed spec fn wf(&self) -> bool {
        self.table.wf()
    }

    /// A builder with its codon table built.
    pub fn new() -> (b: Self)
        ensures
            b.wf(),
    {
        DiffTableBuilder { table: AmbiguityCodonTable::new() }
    }

    /// The text shown for the differing residue `aa` with codon `codon`.
    pub fn token(&self, aa: u8, codon: &[u8; 3]) -> (r: Vec<u8>)
        requires
            self.wf(),
        ensures
            r@ == display_token(aa, codon@),
    {
        if aa == GAP {
            vec!['d' as u8, 'e' as u8, 'l' as u8]
        } else if aa == UNRESOLVED {
            match self.table.resolve(codon) {
                Some(label) => label,
                None => vec![UNRESOLVED],
            }
        } else {
            vec![aa]
        }
    }

    /// The field of query `q` at reference index `i`.
    fn field(&self, q: &SequenceRecord, i: usize, ref_aa: u8) -> (r: Vec<u8>)
        requires
            self.wf(),
            q.wf(),
            i < q.residues@.len(),
        ensures
            r@ == query_field(*q, i as int, ref_aa),
    {
        let aa = q.residues[i];
        let n = q.codons.len();
        assert(3 * i + 3 <= n);
        if q.valid_range.contains(i) && aa != ref_aa {
            let codon: [u8; 3] = [q.codons[3 * i], q.codons[3 * i + 1], q.codons[3 * i + 2]];
            assert(codon@ =~= codon_of(q.codons@, i as int));
            self.token(aa, &codon)
        } else {
            Vec::new()
        }
    }

    /// The row for reference index `i` when some query differs there.
    pub fn row_at(&self, reg: &SequenceRegistry, i: usize) -> (r: Option<DiffRow>)
        requires
            self.wf(),
            reg.wf(),
            i < reg.reference.residues@.len(),
        ensures
            r is Some <==> differs_at(*reg, i as int),
            r matches Some(row) ==> row@ == row_at(*reg, i as int),
    {
        let ref_aa = reg.reference.residues[i];
        let mut fields: Vec<Vec<u8>> = Vec::new();
        let mut differs = false;
        let mut j: usize = 0;
        while j < reg.queries.len()
            invariant
                self.wf(),
                reg.wf(),
                i < reg.reference.residues@.len(),
                ref_aa == reg.reference.residues@[i as int],
                j <= reg.queries@.len(),
                fields@.len() == j,
                forall|k: int| 0 <= k < j ==> (#[trigger] fields@[k])@ == row_fields(*reg, i as int)[k],
                differs <==> exists|k: int| 0 <= k < j && (#[trigger] row_fields(*reg, i as int)[k]).len() > 0,
            decreases reg.queries@.len() - j,
        {
            let f = self.field(&reg.queries[j], i, ref_aa);
            assert(f@ == row_fields(*reg, i as int)[j as int]);
            if f.len() > 0 {
                differs = true;
            }
            fields.push(f);
            j = j + 1;
        }
        if differs {
            let row = DiffRow { position: i + 1, reference_aa: ref_aa, fields };
            assert(row@.fields =~= row_fields(*reg, i as int));
            Some(row)
        } else {
            None
        }
    }

    /// All rows of the table, in ascending position.
    pub fn rows(&self, reg: &SequenceRegistry) -> (r: Vec<DiffRow>)
        requires
            self.wf(),
            reg.wf(),
        ensures
            r@.len() == table_rows(*reg).len(),
            forall|k: int| 0 <= k < r@.len() ==> (#[trigger] r@[k])@ == table_rows(*reg)[k],
    {
        let mut rows: Vec<DiffRow> = Vec::new();
        let mut i: usize = reg.reference.valid_range.start;
        while i < reg.reference.valid_range.end
            invariant
                self.wf(),
                reg.wf(),
                reg.reference.valid_range.start <= i <= reg.reference.valid_range.end,
                rows@.len() == rows_before(*reg, i as int).len(),
                forall|k: int| 0 <= k < rows@.len() ==> (#[trigger] rows@[k])@ == rows_before(*reg, i as int)[k],
            decreases reg.reference.valid_range.end - i,
        {
            match self.row_at(reg, i) {
                Some(row) => {
                    rows.push(row);
                },
                None => {},
            }
            i = i + 1;
        }
        rows
    }
}

} // verus!
