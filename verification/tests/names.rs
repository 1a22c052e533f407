use fasta_dupes::naming::{has_fasta_extension, output_name};

#[test]
fn output_name_replaces_extension() {
    assert_eq!(output_name("sample.fasta"), "sample_duplicates.txt");
    assert_eq!(output_name("dir/sample.fasta"), "dir/sample_duplicates.txt");
    assert_eq!(output_name("a/b/c.genes.fasta"), "a/b/c.genes_duplicates.txt");
}

#[test]
fn output_name_without_extension_appends_suffix() {
    assert_eq!(output_name("sample"), "sample_duplicates.txt");
    assert_eq!(output_name("dir.v2/sample"), "dir.v2/sample_duplicates.txt");
}

#[test]
fn output_name_keeps_leading_dot_names_whole() {
    assert_eq!(output_name(".fasta"), ".fasta_duplicates.txt");
    assert_eq!(output_name("dir/.fasta"), "dir/.fasta_duplicates.txt");
}

#[test]
fn fasta_extension_is_recognized_case_insensitively() {
    assert!(has_fasta_extension("sample.fasta"));
    assert!(has_fasta_extension("sample.FASTA"));
    assert!(has_fasta_extension("dir/sample.FaStA"));
}

#[test]
fn other_extensions_are_rejected() {
    assert!(!has_fasta_extension("sample.fa"));
    assert!(!has_fasta_extension("sample.fastaq"));
    assert!(!has_fasta_extension("sample.txt"));
    assert!(!has_fasta_extension("sample"));
    assert!(!has_fasta_extension(".fasta"));
    assert!(!has_fasta_extension("dir.fasta/sample"));
}
