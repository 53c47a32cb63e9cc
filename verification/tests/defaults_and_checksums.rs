use olma::cli::default::{family_of, strip_family_suffix};
use olma::error::OlmaError;
use olma::pipeline::verify::verify_sha256;

#[test]
fn family_extraction() {
    assert_eq!(family_of("python"), "python");
    assert_eq!(family_of("python@3.11"), "python");
    assert_eq!(family_of("node@18"), "node");
}

#[test]
fn strips_versioned_binary_suffix() {
    assert_eq!(strip_family_suffix("python3.11", "python"), "python3.11");
    assert_eq!(strip_family_suffix("python-3.11", "python"), "python");
    assert_eq!(strip_family_suffix("tree", "tree"), "tree");
}

#[test]
fn matches_case_insensitive() {
    assert!(verify_sha256("ABC123", "abc123").is_ok());
}

#[test]
fn mismatch_returns_error() {
    assert!(matches!(
        verify_sha256("abc", "def"),
        Err(OlmaError::ChecksumMismatch)
    ));
}

#[test]
fn family_of_a_family_is_itself() {
    let f = family_of("python@3.11");
    assert_eq!(family_of(&f), f);
    assert_eq!(family_of("@x"), "");
    assert_eq!(family_of(""), "");
}

#[test]
fn strip_suffix_edge_cases() {
    assert_eq!(strip_family_suffix("python-", "python"), "python");
    assert_eq!(strip_family_suffix("python-3a", "python"), "python-3a");
    assert_eq!(strip_family_suffix("py", "python"), "py");
    assert_eq!(strip_family_suffix("node-18.2.0", "node"), "node");
}

#[test]
fn checksums_agree_in_either_order() {
    assert!(verify_sha256("abc123", "ABC123").is_ok());
    assert!(verify_sha256("", "").is_ok());
    assert!(verify_sha256("abc", "abcd").is_err());
}
