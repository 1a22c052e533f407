use fasta_dupes::duplicate_report;
use fasta_dupes::group::parse_groups;
use fasta_dupes::report::{duplicate_count, render_report, usize_to_string};

#[test]
fn end_to_end_one_duplicate() {
    let lines = vec![
        String::from(">seq1"),
        String::from("ACGT"),
        String::from(">seq2"),
        String::from("ACGT"),
        String::from(">seq3"),
        String::from("TTTT"),
    ];
    let report = duplicate_report(&lines);
    assert_eq!(
        report,
        "Found 1 duplicate sequences:\n\n\
         Duplicate sequence found:\n  ID: >seq1\n  ID: >seq2\nSequence: ACGT\n\n"
    );
}

#[test]
fn end_to_end_no_duplicates() {
    let lines = vec![
        String::from(">seq1"),
        String::from("ACGT"),
        String::from(">seq2"),
        String::from("TTTT"),
    ];
    let report = duplicate_report(&lines);
    assert_eq!(report, "Found 0 duplicate sequences:\n\n");
}

#[test]
fn empty_input_reports_zero() {
    let lines: Vec<String> = vec![];
    assert_eq!(duplicate_report(&lines), "Found 0 duplicate sequences:\n\n");
}

#[test]
fn report_counts_every_duplicated_group() {
    let lines = vec![
        String::from(">a"),
        String::from("XX"),
        String::from(">b"),
        String::from("YY"),
        String::from(">c"),
        String::from("XX"),
        String::from(">d"),
        String::from("YY"),
        String::from(">e"),
        String::from("ZZ"),
    ];
    let groups = parse_groups(&lines);
    assert_eq!(duplicate_count(&groups), 2);
    let report = render_report(&groups);
    assert_eq!(
        report,
        "Found 2 duplicate sequences:\n\n\
         Duplicate sequence found:\n  ID: >a\n  ID: >c\nSequence: XX\n\n\
         Duplicate sequence found:\n  ID: >b\n  ID: >d\nSequence: YY\n\n"
    );
}

#[test]
fn empty_sequence_duplicates_are_reported() {
    let lines = vec![String::from(">a"), String::from(">b")];
    let report = duplicate_report(&lines);
    assert_eq!(
        report,
        "Found 1 duplicate sequences:\n\nDuplicate sequence found:\n  ID: >a\n  ID: >b\nSequence: \n\n"
    );
}

#[test]
fn rendering_twice_is_byte_identical() {
    let lines = vec![
        String::from(">seq1"),
        String::from("ACGT"),
        String::from(">seq2"),
        String::from("ACGT"),
    ];
    let groups = parse_groups(&lines);
    let first = render_report(&groups);
    let second = render_report(&groups);
    assert_eq!(first.as_bytes(), second.as_bytes());
    let again = duplicate_report(&lines);
    assert_eq!(first.as_bytes(), again.as_bytes());
}

#[test]
fn three_identifiers_in_one_group() {
    let lines = vec![
        String::from(">a"),
        String::from("GG"),
        String::from(">b"),
        String::from("GG"),
        String::from(">c"),
        String::from("GG"),
    ];
    let report = duplicate_report(&lines);
    assert_eq!(
        report,
        "Found 1 duplicate sequences:\n\n\
         Duplicate sequence found:\n  ID: >a\n  ID: >b\n  ID: >c\nSequence: GG\n\n"
    );
}

#[test]
fn decimal_rendering_of_counts() {
    assert_eq!(usize_to_string(0), "0");
    assert_eq!(usize_to_string(7), "7");
    assert_eq!(usize_to_string(10), "10");
    assert_eq!(usize_to_string(907), "907");
    assert_eq!(usize_to_string(18446744073709551615), "18446744073709551615");
}
