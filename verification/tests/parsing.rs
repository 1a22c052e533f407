use fasta_dupes::group::parse_groups;
use fasta_dupes::text::trim_str;

#[test]
fn three_records_one_duplicate_group() {
    let lines = vec![
        String::from(">seq1"),
        String::from("ACGT"),
        String::from(">seq2"),
        String::from("ACGT"),
        String::from(">seq3"),
        String::from("TTTT"),
    ];
    let groups = parse_groups(&lines);
    assert_eq!(groups.len(), 2);
    assert_eq!(groups[0].sequence, "ACGT");
    assert_eq!(groups[0].ids, vec![String::from(">seq1"), String::from(">seq2")]);
    assert_eq!(groups[1].sequence, "TTTT");
    assert_eq!(groups[1].ids, vec![String::from(">seq3")]);
}

#[test]
fn multiline_sequence_concatenates_without_separator() {
    let lines = vec![String::from(">id1"), String::from("ACGT"), String::from("GGCC")];
    let groups = parse_groups(&lines);
    assert_eq!(groups.len(), 1);
    assert_eq!(groups[0].sequence, "ACGTGGCC");
    assert_eq!(groups[0].ids, vec![String::from(">id1")]);
}

#[test]
fn header_without_data_yields_empty_sequence() {
    let lines = vec![String::from(">a"), String::from(">b")];
    let groups = parse_groups(&lines);
    assert_eq!(groups.len(), 1);
    assert_eq!(groups[0].sequence, "");
    assert_eq!(groups[0].ids, vec![String::from(">a"), String::from(">b")]);
}

#[test]
fn lines_before_first_header_are_ignored() {
    let noisy = vec![
        String::from("stray text"),
        String::from("more noise"),
        String::from(">id1"),
        String::from("ACGT"),
    ];
    let clean = vec![String::from(">id1"), String::from("ACGT")];
    let from_noisy = parse_groups(&noisy);
    let from_clean = parse_groups(&clean);
    assert_eq!(from_noisy.len(), from_clean.len());
    assert_eq!(from_noisy.len(), 1);
    assert_eq!(from_noisy[0].sequence, "ACGT");
    assert_eq!(from_noisy[0].ids, from_clean[0].ids);
}

#[test]
fn sequences_differing_in_case_are_not_merged() {
    let lines = vec![
        String::from(">x"),
        String::from("acgt"),
        String::from(">y"),
        String::from("ACGT"),
    ];
    let groups = parse_groups(&lines);
    assert_eq!(groups.len(), 2);
    assert_eq!(groups[0].sequence, "acgt");
    assert_eq!(groups[1].sequence, "ACGT");
}

#[test]
fn trimmed_sequences_group_when_byte_identical() {
    let lines = vec![
        String::from(">x"),
        String::from("  ACGT"),
        String::from(">y"),
        String::from("ACGT\t "),
    ];
    let groups = parse_groups(&lines);
    assert_eq!(groups.len(), 1);
    assert_eq!(groups[0].sequence, "ACGT");
    assert_eq!(groups[0].ids, vec![String::from(">x"), String::from(">y")]);
}

#[test]
fn header_line_is_trimmed_and_kept_verbatim() {
    let lines = vec![String::from("  not a header"), String::from(">id with note \t")];
    let groups = parse_groups(&lines);
    assert_eq!(groups.len(), 1);
    assert_eq!(groups[0].ids, vec![String::from(">id with note")]);
    assert_eq!(groups[0].sequence, "");
}

#[test]
fn bare_marker_is_a_valid_identifier() {
    let lines = vec![String::from(">"), String::from("ACGT")];
    let groups = parse_groups(&lines);
    assert_eq!(groups.len(), 1);
    assert_eq!(groups[0].ids, vec![String::from(">")]);
    assert_eq!(groups[0].sequence, "ACGT");
}

#[test]
fn empty_input_yields_no_groups() {
    let lines: Vec<String> = vec![];
    let groups = parse_groups(&lines);
    assert_eq!(groups.len(), 0);
}

#[test]
fn data_only_input_yields_no_groups() {
    let lines = vec![String::from("ACGT"), String::from("GGCC")];
    let groups = parse_groups(&lines);
    assert_eq!(groups.len(), 0);
}

#[test]
fn groups_keep_first_seen_order() {
    let lines = vec![
        String::from(">a"),
        String::from("XX"),
        String::from(">b"),
        String::from("YY"),
        String::from(">c"),
        String::from("XX"),
        String::from(">d"),
        String::from("YY"),
    ];
    let groups = parse_groups(&lines);
    assert_eq!(groups.len(), 2);
    assert_eq!(groups[0].sequence, "XX");
    assert_eq!(groups[0].ids, vec![String::from(">a"), String::from(">c")]);
    assert_eq!(groups[1].sequence, "YY");
    assert_eq!(groups[1].ids, vec![String::from(">b"), String::from(">d")]);
}

#[test]
fn blank_lines_between_data_lines_add_nothing() {
    let lines = vec![
        String::from(">id1"),
        String::from("ACGT"),
        String::from("   "),
        String::from("GGCC"),
    ];
    let groups = parse_groups(&lines);
    assert_eq!(groups.len(), 1);
    assert_eq!(groups[0].sequence, "ACGTGGCC");
}

#[test]
fn trim_removes_ascii_and_unicode_whitespace() {
    assert_eq!(trim_str(" ACGT "), "ACGT");
    assert_eq!(trim_str("\t\r\nACGT\u{3000}"), "ACGT");
    assert_eq!(trim_str("\u{2003}A C G T\u{2003}"), "A C G T");
    assert_eq!(trim_str("   "), "");
    assert_eq!(trim_str(""), "");
    assert_eq!(trim_str("ACGT"), "ACGT");
}
