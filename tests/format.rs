use aa_diff::diff::DiffRow;
use aa_diff::format::{delimited_header, delimited_row, nested_row};
use aa_diff::text::{char_bytes, decimal_bytes};
use aa_diff::{DiffTableBuilder, LineEnding, SequenceRegistry, TranslatedRecord};

fn record(name: &str, residues: &str, codons: &str) -> TranslatedRecord {
    TranslatedRecord {
        name: name.to_string(),
        residues: residues.as_bytes().to_vec(),
        codons: codons.as_bytes().to_vec(),
    }
}

fn two_queries() -> SequenceRegistry {
    SequenceRegistry::build(
        record("ref", "MA", "ATGGCT"),
        vec![record("x", "MA", "ATGGCT"), record("y", "MG", "ATGGGT")],
        false,
    )
    .unwrap()
}

#[test]
fn decimal_digits() {
    assert_eq!(decimal_bytes(0), b"0".to_vec());
    assert_eq!(decimal_bytes(7), b"7".to_vec());
    assert_eq!(decimal_bytes(10), b"10".to_vec());
    assert_eq!(decimal_bytes(305), b"305".to_vec());
    assert_eq!(decimal_bytes(usize::MAX), usize::MAX.to_string().into_bytes());
}

#[test]
fn char_utf8_bytes() {
    for c in [',', '\t', 'é', '§', '→', '😀'] {
        assert_eq!(char_bytes(c), c.to_string().into_bytes());
    }
}

#[test]
fn header_line_bytes() {
    let reg = two_queries();
    assert_eq!(delimited_header(&reg, ',', LineEnding::CrLf), b",ref,x,y\r\n".to_vec());
    assert_eq!(delimited_header(&reg, '|', LineEnding::Lf), b"|ref|x|y\n".to_vec());
}

#[test]
fn row_line_bytes() {
    let row = DiffRow { position: 2, reference_aa: b'A', fields: vec![Vec::new(), b"G".to_vec()] };
    assert_eq!(delimited_row(&row, ',', LineEnding::Lf), b"2,A,,\"G\"\n".to_vec());
    assert_eq!(delimited_row(&row, '\t', LineEnding::CrLf), b"2\tA\t\t\"G\"\r\n".to_vec());
}

#[test]
fn nested_entry_bytes() {
    let reg = two_queries();
    let row = DiffRow { position: 2, reference_aa: b'A', fields: vec![Vec::new(), b"G".to_vec()] };
    assert_eq!(
        String::from_utf8(nested_row(&reg, &row)).unwrap(),
        "\"2\": {\"ref\":\"A\", \"x\": \"\", \"y\": \"G\"}"
    );
}

#[test]
fn row_at_positions() {
    let reg = two_queries();
    let builder = DiffTableBuilder::new();
    assert!(builder.row_at(&reg, 0).is_none());
    let row = builder.row_at(&reg, 1).unwrap();
    assert_eq!(row.position, 2);
    assert_eq!(row.reference_aa, b'A');
    assert_eq!(row.fields, vec![Vec::new(), b"G".to_vec()]);
}

#[test]
fn display_tokens() {
    let builder = DiffTableBuilder::new();
    assert_eq!(builder.token(b'-', b"---"), b"del".to_vec());
    assert_eq!(builder.token(b'X', b"AAB"), b"K/N".to_vec());
    assert_eq!(builder.token(b'X', b"NNN"), b"X".to_vec());
    assert_eq!(builder.token(b'X', b"AA-"), b"X".to_vec());
    assert_eq!(builder.token(b'W', b"TGG"), b"W".to_vec());
    assert_eq!(builder.token(b'*', b"TAA"), b"*".to_vec());
}
