use citadel_workspace_server_kernel::connection::BroadcastMessage;
use citadel_workspace_server_kernel::domain::{Domain, Workspace};
use citadel_workspace_server_kernel::kernel::WorkspaceServerKernel;
use citadel_workspace_server_kernel::permissions::UserRole;
use citadel_workspace_server_kernel::rate_limiter::RateLimiter;
use citadel_workspace_server_kernel::response::WorkspaceProtocolResponse;
use citadel_workspace_server_kernel::session::{on_connection_event, ConnectionAction, ConnectionEvent, ConnectionState};
use citadel_workspace_server_kernel::store::{KernelError, Store};
use citadel_workspace_server_kernel::user::User;

fn kernel_with_root() -> WorkspaceServerKernel {
    let mut store = Store::new();
    store.domains.insert(
        "workspace-root".into(),
        Domain::Workspace {
            workspace: Workspace {
                id: "workspace-root".into(),
                name: "Root".into(),
                description: String::new(),
                owner_id: String::new(),
                members: vec![],
                offices: vec![],
                metadata: vec![],
            },
        },
    );
    store.users.insert("old".into(), User::new("old".into(), "old".into(), UserRole::Member));
    WorkspaceServerKernel::new(store)
}

fn connect(conn: &mut ConnectionState, k: &mut WorkspaceServerKernel, l: &mut RateLimiter, user: &str, full: Option<&str>, cid: u64) -> ConnectionAction {
    on_connection_event(
        conn,
        k,
        l,
        ConnectionEvent::Connected { user_id: user.into(), registered_full_name: full.map(|s| s.to_string()), cid },
    )
}

#[test]
fn connecting_enrols_the_account_under_its_full_name() {
    let mut k = kernel_with_root();
    let mut l = RateLimiter::new(2, 1_000_000_000);
    let mut conn = ConnectionState::new();
    assert!(matches!(connect(&mut conn, &mut k, &mut l, "bob0924", Some("Bob Brown"), 7), ConnectionAction::Listen));
    assert_eq!(conn.cid, Some(7));
    assert_eq!(conn.user_id.as_deref(), Some("bob0924"));
    assert_eq!(k.store().get_user("bob0924").unwrap().name, "Bob Brown");
    assert!(k.store().get_domain("workspace-root").unwrap().members().contains(&"bob0924".to_string()));
}

#[test]
fn connecting_repairs_a_placeholder_name() {
    let mut k = kernel_with_root();
    let mut l = RateLimiter::new(2, 1_000_000_000);
    let mut conn = ConnectionState::new();
    assert!(matches!(connect(&mut conn, &mut k, &mut l, "old", Some("Olive Old"), 1), ConnectionAction::Listen));
    assert_eq!(k.store().get_user("old").unwrap().name, "Olive Old");
}

#[test]
fn connecting_without_a_root_workspace_is_refused() {
    let mut k = WorkspaceServerKernel::new(Store::new());
    let mut l = RateLimiter::new(2, 1_000_000_000);
    let mut conn = ConnectionState::new();
    assert!(matches!(
        connect(&mut conn, &mut k, &mut l, "amy", None, 3),
        ConnectionAction::Refuse(KernelError::DomainNotFound)
    ));
    assert_eq!(conn.cid, None);
}

#[test]
fn messages_are_rate_limited_before_they_are_read() {
    let mut k = kernel_with_root();
    let mut l = RateLimiter::new(2, 1_000_000_000);
    let mut conn = ConnectionState::new();
    connect(&mut conn, &mut k, &mut l, "amy", None, 5);
    let first = on_connection_event(&mut conn, &mut k, &mut l, ConnectionEvent::Incoming { now: 10 });
    assert!(matches!(first, ConnectionAction::Parse));
    let read = on_connection_event(&mut conn, &mut k, &mut l, ConnectionEvent::Parsed { parse_error: None });
    assert!(matches!(read, ConnectionAction::Dispatch { ref user_id } if user_id == "amy"));
    let second = on_connection_event(&mut conn, &mut k, &mut l, ConnectionEvent::Incoming { now: 11 });
    assert!(matches!(second, ConnectionAction::Parse));
    let unreadable = on_connection_event(
        &mut conn,
        &mut k,
        &mut l,
        ConnectionEvent::Parsed { parse_error: Some("expected value".into()) },
    );
    assert!(matches!(unreadable, ConnectionAction::Send(WorkspaceProtocolResponse::Error(ref m))
        if m == "Invalid command. Failed serde_json deserialization: expected value"));
    let third = on_connection_event(&mut conn, &mut k, &mut l, ConnectionEvent::Incoming { now: 12 });
    assert!(matches!(third, ConnectionAction::Send(WorkspaceProtocolResponse::Error(ref m))
        if m == "Rate limit exceeded. Please slow down."));
}

#[test]
fn broadcasts_skip_their_originator_and_closing_ends_the_connection() {
    let mut k = kernel_with_root();
    let mut l = RateLimiter::new(2, 1_000_000_000);
    let mut conn = ConnectionState::new();
    connect(&mut conn, &mut k, &mut l, "amy", None, 5);
    let own = BroadcastMessage { response: WorkspaceProtocolResponse::WorkspaceNotInitialized, exclude_cid: Some(5) };
    assert!(matches!(on_connection_event(&mut conn, &mut k, &mut l, ConnectionEvent::Broadcast(own)), ConnectionAction::Skip));
    let other = BroadcastMessage { response: WorkspaceProtocolResponse::WorkspaceNotInitialized, exclude_cid: Some(6) };
    assert!(matches!(
        on_connection_event(&mut conn, &mut k, &mut l, ConnectionEvent::Broadcast(other)),
        ConnectionAction::Send(WorkspaceProtocolResponse::WorkspaceNotInitialized)
    ));
    assert!(matches!(on_connection_event(&mut conn, &mut k, &mut l, ConnectionEvent::Closed), ConnectionAction::Close));
    assert_eq!(conn.cid, None);
}
