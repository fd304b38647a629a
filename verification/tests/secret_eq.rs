use citadel_workspace_server_kernel::secret_eq::secrets_match;

#[test]
fn identical_secrets_match() {
    assert!(secrets_match("correct horse battery staple", "correct horse battery staple"));
}

#[test]
fn different_secrets_do_not_match() {
    assert!(!secrets_match("correct horse battery staple", "correct horse battery stapla"));
}

#[test]
fn a_shared_prefix_is_not_a_match() {
    assert!(!secrets_match("hunter2", "hunter2-and-then-some"));
}

#[test]
fn empty_matches_only_empty() {
    assert!(secrets_match("", ""));
    assert!(!secrets_match("", "x"));
    assert!(!secrets_match("x", ""));
}

#[test]
fn comparison_is_byte_exact_not_unicode_normalised() {
    assert!(!secrets_match("é", "e\u{0301}"));
}
