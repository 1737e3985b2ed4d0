use aa_diff::AmbiguityCodonTable;

fn label(table: &AmbiguityCodonTable, codon: &[u8; 3]) -> Option<String> {
    table.resolve(codon).map(|l| String::from_utf8(l).unwrap())
}

#[test]
fn resolve_two_way_codon() {
    let table = AmbiguityCodonTable::new();
    assert_eq!(label(&table, b"AAB"), Some("K/N".to_string()));
    assert_eq!(label(&table, b"RAY"), Some("D/N".to_string()));
    assert_eq!(label(&table, b"ATN"), Some("I/M".to_string()));
}

#[test]
fn resolve_three_way_codon() {
    let table = AmbiguityCodonTable::new();
    assert_eq!(label(&table, b"AVG"), Some("K/R/T".to_string()));
}

#[test]
fn resolve_stop_sorts_first() {
    let table = AmbiguityCodonTable::new();
    assert_eq!(label(&table, b"TGR"), Some("*/W".to_string()));
}

#[test]
fn resolve_definite_codons_have_no_label() {
    let table = AmbiguityCodonTable::new();
    for codon in [b"ATG", b"AAA", b"TAA", b"GCT", b"TGG"] {
        assert_eq!(table.resolve(codon), None);
    }
}

#[test]
fn resolve_single_outcome_ambiguity_has_no_label() {
    let table = AmbiguityCodonTable::new();
    assert_eq!(table.resolve(b"GCN"), None);
    assert_eq!(table.resolve(b"MGR"), None);
    assert_eq!(table.resolve(b"TAR"), None);
}

#[test]
fn resolve_wide_ambiguity_has_no_label() {
    let table = AmbiguityCodonTable::new();
    assert_eq!(table.resolve(b"NNN"), None);
    assert_eq!(table.resolve(b"ANG"), None);
}

#[test]
fn resolve_non_nucleotide_symbols_have_no_label() {
    let table = AmbiguityCodonTable::new();
    assert_eq!(table.resolve(b"AA-"), None);
    assert_eq!(table.resolve(b"aab"), None);
    assert_eq!(table.resolve(b"..."), None);
}
