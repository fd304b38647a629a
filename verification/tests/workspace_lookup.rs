use citadel_workspace_server_kernel::lookup::{
    classify, response_for, LookupFailure, NOT_A_MEMBER, NO_SUCH_WORKSPACE,
};
use citadel_workspace_server_kernel::response::WorkspaceProtocolResponse;
use citadel_workspace_server_kernel::store::KernelError;

#[test]
fn a_message_that_merely_contains_the_words_is_not_one_of_these() {
    assert_eq!(classify("Office not found"), LookupFailure::Other);
    assert_eq!(classify("User not found"), LookupFailure::Other);
    assert_eq!(classify("Permission denied: Not a member of this office"), LookupFailure::Other);
}

#[test]
fn the_two_real_ones_are_recognised() {
    assert_eq!(classify(NO_SUCH_WORKSPACE), LookupFailure::NoSuchWorkspace);
    assert_eq!(classify(NOT_A_MEMBER), LookupFailure::NotAMember);
}

#[test]
fn only_the_root_workspace_can_be_called_uninitialised() {
    assert!(matches!(
        response_for(true, LookupFailure::NoSuchWorkspace, "x"),
        WorkspaceProtocolResponse::WorkspaceNotInitialized
    ));
    assert!(matches!(response_for(false, LookupFailure::NoSuchWorkspace, "x"), WorkspaceProtocolResponse::Error(_)));
    assert!(matches!(response_for(false, LookupFailure::NotAMember, "x"), WorkspaceProtocolResponse::Error(_)));
}

#[test]
fn an_unrelated_failure_is_never_reported_as_uninitialised() {
    assert!(matches!(
        response_for(true, LookupFailure::Other, "backend unavailable"),
        WorkspaceProtocolResponse::Error(_)
    ));
}

#[test]
fn the_error_text_carries_the_detail() {
    match response_for(false, LookupFailure::NoSuchWorkspace, "ws9") {
        WorkspaceProtocolResponse::Error(m) => assert_eq!(m, "No such workspace: ws9"),
        other => panic!("unexpected {:?}", other),
    }
    match response_for(true, LookupFailure::Other, "down") {
        WorkspaceProtocolResponse::Error(m) => assert_eq!(m, "Failed to get workspace: down"),
        other => panic!("unexpected {:?}", other),
    }
    match response_for(false, LookupFailure::NotAMember, "ws1") {
        WorkspaceProtocolResponse::Error(m) => assert_eq!(m, "You are not a member of this workspace: ws1"),
        other => panic!("unexpected {:?}", other),
    }
}

#[test]
fn the_kernel_produces_the_messages_the_lookup_reads() {
    assert_eq!(classify(KernelError::WorkspaceNotFound.message()), LookupFailure::NoSuchWorkspace);
    assert_eq!(classify(KernelError::NotAWorkspaceMember.message()), LookupFailure::NotAMember);
    assert_eq!(classify(KernelError::DomainNotFound.message()), LookupFailure::Other);
}
