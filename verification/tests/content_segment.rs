use citadel_workspace_server_kernel::connection::{validate_content_segment, ContentSegmentError};

#[test]
fn accepts_a_normal_name() {
    validate_content_segment("Engineering").expect("normal name must be accepted");
    validate_content_segment("Q4-Planning").expect("dashes are fine");
    validate_content_segment("Office 1").expect("spaces are fine");
    validate_content_segment("café").expect("non-ascii is fine");
}

#[test]
fn rejects_empty() {
    assert!(validate_content_segment("").is_err());
}

#[test]
fn rejects_traversal_sentinels() {
    assert!(validate_content_segment(".").is_err());
    assert!(validate_content_segment("..").is_err());
}

#[test]
fn rejects_path_separators() {
    assert!(validate_content_segment("foo/bar").is_err());
    assert!(validate_content_segment("/etc/passwd").is_err());
    assert!(validate_content_segment("foo\\bar").is_err());
    assert!(validate_content_segment("\\\\server\\share").is_err());
}

#[test]
fn rejects_traversal_via_relative_segments() {
    assert!(validate_content_segment("../../etc/evil").is_err());
    assert!(validate_content_segment("..\\..\\windows").is_err());
}

#[test]
fn rejects_hidden_dot_prefixes() {
    assert!(validate_content_segment(".git").is_err());
    assert!(validate_content_segment(".env").is_err());
    assert!(validate_content_segment(".hiddenfile").is_err());
}

#[test]
fn rejects_nul_byte() {
    assert!(validate_content_segment("foo\0bar").is_err());
}

#[test]
fn each_rule_has_its_own_reason() {
    assert_eq!(validate_content_segment(""), Err(ContentSegmentError::Empty));
    assert_eq!(validate_content_segment(".."), Err(ContentSegmentError::TraversalSentinel));
    assert_eq!(validate_content_segment("../x"), Err(ContentSegmentError::HiddenPrefix));
    assert_eq!(validate_content_segment("a/b"), Err(ContentSegmentError::ForbiddenCharacter));
    assert_eq!(validate_content_segment("a.b"), Ok(()));
}
