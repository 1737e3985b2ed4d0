use aa_diff::{
    render, DiffTableBuilder, EmptySequenceError, LineEnding, OutputConfig, OutputFormat,
    SequenceRegistry, TranslatedRecord,
};

fn record(name: &str, residues: &str, codons: &str) -> TranslatedRecord {
    assert_eq!(codons.len(), 3 * residues.len());
    TranslatedRecord {
        name: name.to_string(),
        residues: residues.as_bytes().to_vec(),
        codons: codons.as_bytes().to_vec(),
    }
}

fn delimited(delimiter: char, line_ending: LineEnding) -> OutputConfig {
    OutputConfig { delimiter, line_ending, format: OutputFormat::Delimited }
}

fn nested() -> OutputConfig {
    OutputConfig { delimiter: ',', line_ending: LineEnding::Lf, format: OutputFormat::Nested }
}

fn text(reg: &SequenceRegistry, cfg: &OutputConfig) -> String {
    let builder = DiffTableBuilder::new();
    String::from_utf8(render(reg, &builder, cfg)).unwrap()
}

fn mad_mae() -> SequenceRegistry {
    SequenceRegistry::build(
        record("ref", "MAD", "ATGGCTGAT"),
        vec![record("q1", "MAE", "ATGGCTGAA")],
        false,
    )
    .unwrap()
}

#[test]
fn single_difference_gives_one_row() {
    let reg = mad_mae();
    let rows = DiffTableBuilder::new().rows(&reg);
    assert_eq!(rows.len(), 1);
    assert_eq!(rows[0].position, 3);
    assert_eq!(rows[0].reference_aa, b'D');
    assert_eq!(rows[0].fields, vec![b"E".to_vec()]);
}

#[test]
fn single_difference_delimited_text() {
    let reg = mad_mae();
    assert_eq!(text(&reg, &delimited(',', LineEnding::Lf)), ",ref,q1\n3,D,\"E\"\n");
    assert_eq!(text(&reg, &delimited(',', LineEnding::CrLf)), ",ref,q1\r\n3,D,\"E\"\r\n");
}

#[test]
fn single_difference_nested_text() {
    let reg = mad_mae();
    assert_eq!(text(&reg, &nested()), "{\"3\": {\"ref\":\"D\", \"q1\": \"E\"}}");
}

#[test]
fn gap_in_query_displays_del() {
    let reg = SequenceRegistry::build(
        record("ref", "MAD", "ATGGCTGAT"),
        vec![record("q1", "M-D", "ATG---GAT")],
        false,
    )
    .unwrap();
    let rows = DiffTableBuilder::new().rows(&reg);
    assert_eq!(rows.len(), 1);
    assert_eq!(rows[0].position, 2);
    assert_eq!(rows[0].fields, vec![b"del".to_vec()]);
    assert_eq!(text(&reg, &delimited(',', LineEnding::Lf)), ",ref,q1\n2,A,\"del\"\n");
}

#[test]
fn unresolved_query_residue_shows_degeneracy() {
    let reg = SequenceRegistry::build(
        record("ref", "MKD", "ATGAAAGAT"),
        vec![record("q1", "MXX", "ATGAABNNN")],
        false,
    )
    .unwrap();
    let rows = DiffTableBuilder::new().rows(&reg);
    assert_eq!(rows.len(), 2);
    assert_eq!(rows[0].fields, vec![b"K/N".to_vec()]);
    assert_eq!(rows[1].fields, vec![b"X".to_vec()]);
}

#[test]
fn columns_follow_query_order() {
    let reg = SequenceRegistry::build(
        record("ref", "MADK", "ATGGCTGATAAA"),
        vec![
            record("b", "MADK", "ATGGCTGATAAA"),
            record("a", "MGDR", "ATGGGTGATAGA"),
            record("c", "MADR", "ATGGCTGATAGA"),
        ],
        false,
    )
    .unwrap();
    assert_eq!(
        text(&reg, &delimited(',', LineEnding::Lf)),
        ",ref,b,a,c\n2,A,,\"G\",\n4,K,,\"R\",\"R\"\n"
    );
    assert_eq!(
        text(&reg, &nested()),
        "{\"2\": {\"ref\":\"A\", \"b\": \"\", \"a\": \"G\", \"c\": \"\"},\
         \"4\": {\"ref\":\"K\", \"b\": \"\", \"a\": \"R\", \"c\": \"R\"}}"
    );
}

#[test]
fn header_uses_configured_delimiter() {
    let reg = SequenceRegistry::build(
        record("reference", "M", "ATG"),
        vec![record("one", "M", "ATG"), record("two", "M", "ATG")],
        false,
    )
    .unwrap();
    assert_eq!(text(&reg, &delimited('\t', LineEnding::Lf)), "\treference\tone\ttwo\n");
    assert_eq!(text(&reg, &delimited(';', LineEnding::CrLf)), ";reference;one;two\r\n");
    assert_eq!(text(&reg, &delimited('§', LineEnding::Lf)), "§reference§one§two\n");
}

#[test]
fn no_difference_gives_empty_body() {
    let reg = SequenceRegistry::build(
        record("ref", "MAD", "ATGGCTGAT"),
        vec![record("q1", "MAD", "ATGGCCGAC")],
        false,
    )
    .unwrap();
    assert!(DiffTableBuilder::new().rows(&reg).is_empty());
    assert_eq!(text(&reg, &delimited(',', LineEnding::Lf)), ",ref,q1\n");
    assert_eq!(text(&reg, &nested()), "{}");
}

#[test]
fn no_queries_gives_header_only() {
    let reg = SequenceRegistry::build(record("ref", "MAD", "ATGGCTGAT"), Vec::new(), false).unwrap();
    assert_eq!(text(&reg, &delimited(',', LineEnding::Lf)), ",ref\n");
    assert_eq!(text(&reg, &nested()), "{}");
}

#[test]
fn rendering_twice_is_identical() {
    let reg = SequenceRegistry::build(
        record("ref", "MADK", "ATGGCTGATAAA"),
        vec![record("q1", "M-XR", "ATG---AABAGA"), record("q2", "MGDK", "ATGGGTGATAAA")],
        false,
    )
    .unwrap();
    let builder = DiffTableBuilder::new();
    for cfg in [delimited(',', LineEnding::CrLf), nested()] {
        let first = render(&reg, &builder, &cfg);
        let second = render(&reg, &builder, &cfg);
        assert_eq!(first, second);
    }
}

#[test]
fn restriction_hides_query_ends() {
    let reg = SequenceRegistry::build(
        record("ref", "MADKL", "ATGGCTGATAAACTG"),
        vec![record("q1", "X-DRX", "NNN---GATAGANNN")],
        true,
    )
    .unwrap();
    assert_eq!(reg.queries[0].valid_range.start, 2);
    assert_eq!(reg.queries[0].valid_range.end, 4);
    assert_eq!(text(&reg, &delimited(',', LineEnding::Lf)), ",ref,q1\n4,K,\"R\"\n");
}

#[test]
fn without_restriction_ends_are_compared() {
    let reg = SequenceRegistry::build(
        record("ref", "MADKL", "ATGGCTGATAAACTG"),
        vec![record("q1", "X-DRX", "NNN---GATAGANNN")],
        false,
    )
    .unwrap();
    assert_eq!(
        text(&reg, &delimited(',', LineEnding::Lf)),
        ",ref,q1\n1,M,\"X\"\n2,A,\"del\"\n4,K,\"R\"\n5,L,\"X\"\n"
    );
}

#[test]
fn restriction_trims_reference_and_keeps_absolute_positions() {
    let reg = SequenceRegistry::build(
        record("ref", "XMADK", "NNNATGGCTGATAAA"),
        vec![record("q1", "AMGDR", "GCTATGGGTGATAGA")],
        true,
    )
    .unwrap();
    assert_eq!(reg.reference.valid_range.start, 1);
    assert_eq!(reg.reference.valid_range.end, 5);
    assert_eq!(text(&reg, &delimited(',', LineEnding::Lf)), ",ref,q1\n3,A,\"G\"\n5,K,\"R\"\n");
}

#[test]
fn restriction_fails_on_unresolved_reference() {
    let r = SequenceRegistry::build(
        record("ref", "X-X", "NNN---NNN"),
        vec![record("q1", "MAD", "ATGGCTGAT")],
        true,
    );
    assert!(matches!(r, Err(EmptySequenceError)));
}

#[test]
fn restriction_fails_on_any_unresolved_query() {
    let r = SequenceRegistry::build(
        record("ref", "MAD", "ATGGCTGAT"),
        vec![record("q1", "MAD", "ATGGCTGAT"), record("q2", "--X", "------NNN")],
        true,
    );
    assert!(matches!(r, Err(EmptySequenceError)));
    let r = SequenceRegistry::build(
        record("ref", "MAD", "ATGGCTGAT"),
        vec![record("q2", "--X", "------NNN")],
        false,
    );
    assert!(r.is_ok());
}

#[test]
fn positions_past_nine_are_written_in_full() {
    let reg = SequenceRegistry::build(
        record("ref", "MAAAAAAAAAAD", "ATGGCTGCTGCTGCTGCTGCTGCTGCTGCTGCTGAT"),
        vec![record("q1", "MAAAAAAAAAAE", "ATGGCTGCTGCTGCTGCTGCTGCTGCTGCTGCTGAA")],
        false,
    )
    .unwrap();
    assert_eq!(text(&reg, &delimited(',', LineEnding::Lf)), ",ref,q1\n12,D,\"E\"\n");
    assert_eq!(text(&reg, &nested()), "{\"12\": {\"ref\":\"D\", \"q1\": \"E\"}}");
}
