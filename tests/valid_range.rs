use aa_diff::{get_valid_range, EmptySequenceError, ValidRange};

#[test]
fn unrestricted_range_is_whole_sequence() {
    let aa = b"XX-ACDX--".to_vec();
    assert_eq!(get_valid_range(&aa, false), Ok(ValidRange { start: 0, end: 9 }));
    assert_eq!(get_valid_range(&b"---".to_vec(), false), Ok(ValidRange { start: 0, end: 3 }));
    assert_eq!(get_valid_range(&Vec::new(), false), Ok(ValidRange { start: 0, end: 0 }));
}

#[test]
fn restricted_range_trims_unresolved_ends() {
    let aa = b"XX-ACDX--".to_vec();
    assert_eq!(get_valid_range(&aa, true), Ok(ValidRange { start: 3, end: 6 }));
}

#[test]
fn restricted_range_keeps_inner_gaps() {
    let aa = b"-A-X-C".to_vec();
    assert_eq!(get_valid_range(&aa, true), Ok(ValidRange { start: 1, end: 6 }));
}

#[test]
fn restricted_range_of_unresolved_sequence_fails() {
    assert_eq!(get_valid_range(&b"XX--X".to_vec(), true), Err(EmptySequenceError));
    assert_eq!(get_valid_range(&Vec::new(), true), Err(EmptySequenceError));
}

#[test]
fn valid_range_contains() {
    let r = ValidRange { start: 3, end: 6 };
    assert!(!r.contains(2));
    assert!(r.contains(3));
    assert!(r.contains(5));
    assert!(!r.contains(6));
}
