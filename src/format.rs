//! The two encodings of a difference table: delimited text and a nested
//! JSON-like object.

use vstd::prelude::*;
use crate::diff::{table_rows, DiffRow, DiffTableBuilder, RowModel};
use crate::registry::{SequenceRecord, SequenceRegistry};
use crate::text::{char_bytes, decimal, decimal_bytes, push_bytes, push_str, utf8};

verus! {

/// How lines of delimited output end.
#[derive(Debug, Clone, Copy, PartialEq, Eq, Structural)]
pub enum LineEnding {
    /// `\n`
    Lf,
    /// `\r\n`
    CrLf,
}

/// Which encoding to write.
#[derive(Debug, Clone, Copy, PartialEq, Eq, Structural)]
pub enum OutputFormat {
    Delimited,
    Nested,
}

/// How a table is written out.
#[derive(Debug, Clone, Copy, PartialEq, Eq, Structural)]
pub struct OutputConfig {
    pub delimiter: char,
    pub line_ending: LineEnding,
    pub format: OutputFormat,
}

/// The double quote that encloses a token.
pub const QUOTE: u8 = 34;

/// The bytes that end a line.
pub open spec fn line_end(le: LineEnding) -> Seq<u8> {
    match le {
        LineEnding::Lf => seq![10u8],
        LineEnding::CrLf => seq![13u8, 10u8],
    }
}

/// The names of the first `n` queries, each preceded by the delimiter `d`.
pub open spec fn names_before(qs: Seq<SequenceRecord>, d: Seq<u8>, n: int) -> Seq<u8>
    decreases n,
{
    if n <= 0 {
        Seq::empty()
    } else {
        names_before(qs, d, n - 1) + d + utf8(qs[n - 1].name@)
    }
}

/// The header line: an empty first column, then the reference name and the
/// query names in input order, all separated by `d`.
pub open spec fn header_line(reg: SequenceRegistry, d: Seq<u8>, le: LineEnding) -> Seq<u8> {
    d + utf8(reg.reference.name@) + names_before(reg.queries@, d, reg.queries@.len() as int)
        + line_end(le)
}

/// The first `n` fields, each preceded by `d`; a non-empty field is quoted.
pub open spec fn fields_before(fs: Seq<Seq<u8>>, d: Seq<u8>, n: int) -> Seq<u8>
    decreases n,
{
    if n <= 0 {
        Seq::empty()
    } else {
        let f = fs[n - 1];
        fields_before(fs, d, n - 1) + d + if f.len() == 0 {
            Seq::empty()
        } else {
            seq![QUOTE] + f + seq![QUOTE]
        }
    }
}

/// One delimited row: position, reference residue, then the query fields.
pub open spec fn delimited_line(row: RowModel, d: Seq<u8>, le: LineEnding) -> Seq<u8> {
    decimal(row.position) + d + seq![row.reference_aa] + fields_before(
        row.fields,
        d,
        row.fields.len() as int,
    ) + line_end(le)
}

/// The first `n` rows as delimited lines.
pub open spec fn lines_before(rows: Seq<RowModel>, d: Seq<u8>, le: LineEnding, n: int) -> Seq<u8>
    decreases n,
{
    if n <= 0 {
        Seq::empty()
    } else {
        lines_before(rows, d, le, n - 1) + delimited_line(rows[n - 1], d, le)
    }
}

/// The whole delimited table.
pub open spec fn delimited_table(reg: SequenceRegistry, d: Seq<u8>, le: LineEnding) -> Seq<u8> {
    let rows = table_rows(reg);
    header_line(reg, d, le) + lines_before(rows, d, le, rows.len() as int)
}

/// `, "name": "field"` for each of the first `n` queries.
pub open spec fn members_before(qs: Seq<SequenceRecord>, fs: Seq<Seq<u8>>, n: int) -> Seq<u8>
    decreases n,
{
    if n <= 0 {
        Seq::empty()
    } else {
        members_before(qs, fs, n - 1) + seq![',' as u8, ' ' as u8, QUOTE] + utf8(qs[n - 1].name@)
            + seq![QUOTE, ':' as u8, ' ' as u8, QUOTE] + fs[n - 1] + seq![QUOTE]
    }
}

/// One entry of the nested object: the position maps to an object from
/// the reference name to its residue and from each query name to its field.
pub open spec fn nested_entry(reg: SequenceRegistry, row: RowModel) -> Seq<u8> {
    seq![QUOTE] + decimal(row.position) + seq![QUOTE, ':' as u8, ' ' as u8, '{' as u8, QUOTE]
        + utf8(reg.reference.name@) + seq![QUOTE, ':' as u8, QUOTE, row.reference_aa, QUOTE]
        + members_before(reg.queries@, row.fields, reg.queries@.len() as int) + seq!['}' as u8]
}

/// The entries of the first `n` rows, separated by `,`.
pub open spec fn entries_before(reg: SequenceRegistry, rows: Seq<RowModel>, n: int) -> Seq<u8>
    decreases n,
{
    if n <= 0 {
        Seq::empty()
    } else if n == 1 {
        nested_entry(reg, rows[0])
    } else {
        entries_before(reg, rows, n - 1) + seq![',' as u8] + nested_entry(reg, rows[n - 1])
    }
}

/// The whole nested object.
pub open spec fn nested_table(reg: SequenceRegistry) -> Seq<u8> {
    let rows = table_rows(reg);
    seq!['{' as u8] + entries_before(reg, rows, rows.len() as int) + seq!['}' as u8]
}

/// The full output for `reg` under `cfg`.
pub open spec fn rendered(reg: SequenceRegistry, cfg: OutputConfig) -> Seq<u8> {
    match cfg.format {
        OutputFormat::Delimited => delimited_table(reg, utf8(seq![cfg.delimiter]), cfg.line_ending),
        OutputFormat::Nested => nested_table(reg),
    }
}

/// Appends the bytes that end a line.
fn push_line_end(out: &mut Vec<u8>, le: LineEnding)
    ensures
        final(out)@ == old(out)@ + line_end(le),
{
    match le {
        LineEnding::Lf => {
            out.push(10);
        },
        LineEnding::CrLf => {
            out.push(13);
            out.push(10);
        },
    }
    assert(out@ =~= old(out)@ + line_end(le));
}

/// The header line of the delimited encoding.
pub fn delimited_header(reg: &SequenceRegistry, delimiter: char, le: LineEnding) -> (r: Vec<u8>)
    ensures
        r@ == header_line(*reg, utf8(seq![delimiter]), le),
{
    let d = char_bytes(delimiter);
    let mut out: Vec<u8> = Vec::new();
    push_bytes(&mut out, d.as_slice());
    push_str(&mut out, &reg.reference.name);
    let ghost start = out@;
    let mut k: usize = 0;
    while k < reg.queries.len()
        invariant
            k <= reg.queries@.len(),
            d@ == utf8(seq![delimiter]),
            out@ == start + names_before(reg.queries@, d@, k as int),
        decreases reg.queries@.len() - k,
    {
        push_bytes(&mut out, d.as_slice());
        push_str(&mut out, &reg.queries[k].name);
        k = k + 1;
        assert(out@ =~= start + names_before(reg.queries@, d@, k as int));
    }
    push_line_end(&mut out, le);
    assert(out@ =~= header_line(*reg, d@, le));
    out
}

/// One row of the delimited encoding.
pub fn delimited_row(row: &DiffRow, delimiter: char, le: LineEnding) -> (r: Vec<u8>)
    ensures
        r@ == delimited_line(row@, utf8(seq![delimiter]), le),
{
    let d = char_bytes(delimiter);
    let mut out = decimal_bytes(row.position);
    push_bytes(&mut out, d.as_slice());
    out.push(row.reference_aa);
    let ghost start = out@;
    let ghost fs = row@.fields;
    let mut k: usize = 0;
    while k < row.fields.len()
        invariant
            k <= row.fields@.len(),
            fs == row@.fields,
            d@ == utf8(seq![delimiter]),
            out@ == start + fields_before(fs, d@, k as int),
        decreases row.fields@.len() - k,
    {
        push_bytes(&mut out, d.as_slice());
        let f = &row.fields[k];
        assert(f@ == fs[k as int]);
        if f.len() > 0 {
            out.push(QUOTE);
            push_bytes(&mut out, f.as_slice());
            out.push(QUOTE);
        }
        k = k + 1;
        assert(out@ =~= start + fields_before(fs, d@, k as int));
    }
    push_line_end(&mut out, le);
    assert(out@ =~= delimited_line(row@, d@, le));
    out
}


/// One entry of the nested encoding.
pub fn nested_row(reg: &SequenceRegistry, row: &DiffRow) -> (r: Vec<u8>)
    requires
        row.fields@.len() == reg.queries@.len(),
    ensures
        r@ == nested_entry(*reg, row@),
{
    let mut out: Vec<u8> = vec![QUOTE];
    let digits = decimal_bytes(row.position);
    push_bytes(&mut out, digits.as_slice());
    push_bytes(&mut out, [QUOTE, ':' as u8, ' ' as u8, '{' as u8, QUOTE].as_slice());
    push_str(&mut out, &reg.reference.name);
    push_bytes(&mut out, [QUOTE, ':' as u8, QUOTE, row.reference_aa, QUOTE].as_slice());
    let ghost start = out@;
    let ghost fs = row@.fields;
    let mut k: usize = 0;
    while k < reg.queries.len()
        invariant
            k <= reg.queries@.len(),
            row.fields@.len() == reg.queries@.len(),
            fs == row@.fields,
            out@ == start + members_before(reg.queries@, fs, k as int),
        decreases reg.queries@.len() - k,
    {
        push_bytes(&mut out, [',' as u8, ' ' as u8, QUOTE].as_slice());
        push_str(&mut out, &reg.queries[k].name);
        push_bytes(&mut out, [QUOTE, ':' as u8, ' ' as u8, QUOTE].as_slice());
        assert(row.fields[k as int]@ == fs[k as int]);
        push_bytes(&mut out, row.fields[k].as_slice());
        out.push(QUOTE);
        k = k + 1;
        assert(out@ =~= start + members_before(reg.queries@, fs, k as int));
    }
    out.push('}' as u8);
    assert(out@ =~= nested_entry(*reg, row@));
    out
}

/// Writes the whole table for `reg` in the encoding that `cfg` selects.
pub fn render(reg: &SequenceRegistry, builder: &DiffTableBuilder, cfg: &OutputConfig) -> (r: Vec<u8>)
    requires
        reg.wf(),
        builder.wf(),
    ensures
        r@ == rendered(*reg, *cfg),
{
    let rows = builder.rows(reg);
    let ghost model = table_rows(*reg);
    proof {
        crate::diff::lemma_table_rows(*reg);
    }
    let mut out: Vec<u8>;
    match cfg.format {
        OutputFormat::Delimited => {
            let ghost d = utf8(seq![cfg.delimiter]);
            out = delimited_header(reg, cfg.delimiter, cfg.line_ending);
            let ghost start = out@;
            let mut k: usize = 0;
            while k < rows.len()
                invariant
                    k <= rows@.len(),
                    rows@.len() == model.len(),
                    forall|l: int| 0 <= l < rows@.len() ==> (#[trigger] rows@[l])@ == model[l],
                    d == utf8(seq![cfg.delimiter]),
                    out@ == start + lines_before(model, d, cfg.line_ending, k as int),
                decreases rows@.len() - k,
            {
                assert(rows@[k as int]@ == model[k as int]);
                let line = delimited_row(&rows[k], cfg.delimiter, cfg.line_ending);
                push_bytes(&mut out, line.as_slice());
                k = k + 1;
                assert(out@ =~= start + lines_before(model, d, cfg.line_ending, k as int));
            }
        },
        OutputFormat::Nested => {
            out = vec!['{' as u8];
            let mut k: usize = 0;
            while k < rows.len()
                invariant
                    k <= rows@.len(),
                    rows@.len() == model.len(),
                    forall|l: int| 0 <= l < rows@.len() ==> (#[trigger] rows@[l])@ == model[l],
                    forall|l: int| 0 <= l < model.len() ==> (#[trigger] model[l]).fields.len() == reg.queries@.len(),
                    out@ == seq!['{' as u8] + entries_before(*reg, model, k as int),
                decreases rows@.len() - k,
            {
                if k > 0 {
                    out.push(',' as u8);
                }
                assert(rows@[k as int]@ == model[k as int]);
                let entry = nested_row(reg, &rows[k]);
                push_bytes(&mut out, entry.as_slice());
                k = k + 1;
                assert(out@ =~= seq!['{' as u8] + entries_before(*reg, model, k as int));
            }
            out.push('}' as u8);
        },
    }
    assert(out@ =~= rendered(*reg, *cfg));
    out
}

/// Rendering depends on the registry and the configuration alone: two
/// renderings of one registry are byte for byte the same.
pub proof fn lemma_render_repeatable(reg: SequenceRegistry, cfg: OutputConfig, first: Seq<u8>, second: Seq<u8>)
    requires
        first == rendered(reg, cfg),
        second == rendered(reg, cfg),
    ensures
        first == second,
{
}

} // verus!
