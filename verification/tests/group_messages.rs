use citadel_workspace_server_kernel::group_messages::{change_refusal, may_go_on, MessageChange};
use citadel_workspace_server_kernel::kernel::WorkspaceServerKernel;
use citadel_workspace_server_kernel::permissions::UserRole;
use citadel_workspace_server_kernel::response::WorkspaceProtocolResponse;
use citadel_workspace_server_kernel::store::Store;
use citadel_workspace_server_kernel::user::User;

fn kernel() -> WorkspaceServerKernel {
    let mut store = Store::new();
    store.users.insert("admin".into(), User::new("admin".into(), "Admin".into(), UserRole::Admin));
    store.users.insert("ann".into(), User::new("ann".into(), "Ann".into(), UserRole::Member));
    store.users.insert("ben".into(), User::new("ben".into(), "Ben".into(), UserRole::Member));
    WorkspaceServerKernel::new(store)
}

fn error_text(r: WorkspaceProtocolResponse) -> String {
    match r {
        WorkspaceProtocolResponse::Error(m) => m,
        other => panic!("expected an error, got {:?}", other),
    }
}

#[test]
fn only_the_sender_or_an_administrator_changes_a_message() {
    let k = kernel();
    assert!(may_go_on(&k, "ann", MessageChange::Edit, Ok(Some("ann".into()))).is_ok());
    assert!(may_go_on(&k, "admin", MessageChange::Delete, Ok(Some("ann".into()))).is_ok());
    assert_eq!(
        error_text(may_go_on(&k, "ben", MessageChange::Edit, Ok(Some("ann".into()))).unwrap_err()),
        "Permission denied: Can only edit own messages"
    );
    assert_eq!(
        error_text(may_go_on(&k, "ben", MessageChange::Delete, Ok(Some("ann".into()))).unwrap_err()),
        "Permission denied: Can only delete own messages"
    );
}

#[test]
fn a_missing_or_unreadable_message_is_reported() {
    let k = kernel();
    assert_eq!(error_text(may_go_on(&k, "ann", MessageChange::Edit, Ok(None)).unwrap_err()), "Message not found");
    assert_eq!(
        error_text(may_go_on(&k, "ann", MessageChange::Delete, Err("disk gone".into())).unwrap_err()),
        "Failed to get message: disk gone"
    );
}

#[test]
fn the_outcome_of_a_change_is_answered() {
    assert!(change_refusal(MessageChange::Edit, Ok(true)).is_none());
    assert_eq!(error_text(change_refusal(MessageChange::Delete, Ok(false)).unwrap()), "Message not found");
    assert_eq!(
        error_text(change_refusal(MessageChange::Edit, Err("locked".into())).unwrap()),
        "Failed to edit message: locked"
    );
    assert_eq!(
        error_text(change_refusal(MessageChange::Delete, Err("locked".into())).unwrap()),
        "Failed to delete message: locked"
    );
}
