use citadel_workspace_server_kernel::connection::{
    may_change_message, may_list_members, may_view_member_record, page_limit, rate_limited_response,
    requested_or_root, schema_action, shutdown_notice, BroadcastMessage, SchemaAction,
};
use citadel_workspace_server_kernel::group_access::{authorize_group_read, authorize_group_write, resolve_group_node};
use citadel_workspace_server_kernel::ice::{
    answer_from_mint, answer_without_minting, may_have_ice_servers, member_for, IceServerGrant,
    IceServersUnavailable, NOT_CONFIGURED, REFUSED,
};
use citadel_workspace_server_kernel::domain::{Domain, Room};
use citadel_workspace_server_kernel::kernel::WorkspaceServerKernel;
use citadel_workspace_server_kernel::permissions::{PermissionSet, Permission, RolePermissions, UserRole, Membership};
use citadel_workspace_server_kernel::response::{IceServer, WorkspaceProtocolResponse};
use citadel_workspace_server_kernel::store::Store;
use citadel_workspace_server_kernel::strmap::StrMap;
use citadel_workspace_server_kernel::tree::{DomainNode, NodeEntityType};
use citadel_workspace_server_kernel::user::User;

#[test]
fn relay_servers_go_to_enrolled_members_and_above() {
    let member = User::new("m".into(), "M".into(), UserRole::Member);
    let guest = User::new("g".into(), "G".into(), UserRole::Guest);
    let low = User::new("c".into(), "C".into(), UserRole::Custom("helper".into(), 9));
    let high = User::new("h".into(), "H".into(), UserRole::Custom("lead".into(), 10));
    assert!(may_have_ice_servers(Some(&member), true));
    assert!(!may_have_ice_servers(Some(&member), false));
    assert!(!may_have_ice_servers(Some(&guest), true));
    assert!(!may_have_ice_servers(Some(&low), true));
    assert!(may_have_ice_servers(Some(&high), true));
    assert!(!may_have_ice_servers(None, true));
}

#[test]
fn the_relay_answer_without_minting() {
    match answer_without_minting(false, true) {
        Some(WorkspaceProtocolResponse::IceServersUnavailable { reason }) => assert_eq!(reason, REFUSED),
        other => panic!("unexpected {:?}", other),
    }
    match answer_without_minting(true, false) {
        Some(WorkspaceProtocolResponse::IceServersUnavailable { reason }) => assert_eq!(reason, NOT_CONFIGURED),
        other => panic!("unexpected {:?}", other),
    }
    assert!(answer_without_minting(true, true).is_none());
    assert_eq!(member_for("amy").user_id, "amy");
}

#[test]
fn the_relay_answer_after_minting() {
    let grant = IceServerGrant {
        ice_servers: vec![IceServer { urls: vec!["turn:x".into()], username: None, credential: None }],
        expires_at: 42,
    };
    match answer_from_mint(Ok(grant)) {
        WorkspaceProtocolResponse::IceServers { ice_servers, expires_at } => {
            assert_eq!(expires_at, 42);
            assert_eq!(ice_servers[0].urls, vec!["turn:x".to_string()]);
        }
        other => panic!("unexpected {:?}", other),
    }
    match answer_from_mint(Err(IceServersUnavailable("quota".into()))) {
        WorkspaceProtocolResponse::IceServersUnavailable { reason } => assert_eq!(reason, "quota"),
        other => panic!("unexpected {:?}", other),
    }
}

#[test]
fn the_schema_version_decides_start_up() {
    assert_eq!(schema_action(None, false), SchemaAction::Stamp);
    assert_eq!(schema_action(Some(0), false), SchemaAction::Migrate { from: 0 });
    assert_eq!(schema_action(Some(1), false), SchemaAction::Current);
    assert_eq!(schema_action(Some(2), false), SchemaAction::Refuse { found: 2 });
    assert_eq!(schema_action(Some(2), true), SchemaAction::ProceedDespiteNewer { found: 2 });
}

#[test]
fn a_broadcast_skips_only_its_originator() {
    let m = BroadcastMessage { response: WorkspaceProtocolResponse::WorkspaceNotInitialized, exclude_cid: Some(3) };
    assert!(!m.delivers_to(3));
    assert!(m.delivers_to(4));
    let n = shutdown_notice();
    assert!(n.delivers_to(3));
    match n.response {
        WorkspaceProtocolResponse::ServerShutdown { message, drain_seconds } => {
            assert_eq!(message, "Server is shutting down for a planned restart.");
            assert_eq!(drain_seconds, 2);
        }
        other => panic!("unexpected {:?}", other),
    }
    match rate_limited_response() {
        WorkspaceProtocolResponse::Error(m) => assert_eq!(m, "Rate limit exceeded. Please slow down."),
        other => panic!("unexpected {:?}", other),
    }
}

#[test]
fn on_stop_broadcasts_server_shutdown_not_error() {
    let msg = shutdown_notice();
    match msg.response {
        WorkspaceProtocolResponse::ServerShutdown { drain_seconds, message } => {
            assert!(drain_seconds >= 1, "drain_seconds should be > 0 ({drain_seconds})");
            assert!(!message.is_empty(), "message should be a human-readable description, got empty");
        }
        other => panic!("expected ServerShutdown, got {other:?}"),
    }
    assert!(msg.exclude_cid.is_none(), "shutdown broadcast must not exclude any CID");
}

#[test]
fn request_handler_rules() {
    assert_eq!(page_limit(None), 50);
    assert_eq!(page_limit(Some(10)), 10);
    assert_eq!(page_limit(Some(500)), 100);
    assert_eq!(requested_or_root(None), "workspace-root");
    assert_eq!(requested_or_root(Some("ws")), "ws");
    assert!(may_view_member_record("a", "a", false));
    assert!(!may_view_member_record("a", "b", false));
    assert!(may_view_member_record("a", "b", true));
    assert!(may_change_message("a", "a", false));
    assert!(!may_change_message("a", "b", false));
    assert!(may_list_members(false, true));
    assert!(!may_list_members(false, false));
}

fn node(id: &str, channel: Option<&str>) -> DomainNode {
    DomainNode {
        id: id.to_string(),
        parent_id: None,
        entity_type: NodeEntityType::Child("Room".to_string()),
        depth: 2,
        name: id.to_string(),
        description: String::new(),
        owner_id: "olga".to_string(),
        members: vec![],
        children: vec![],
        mdx_content: String::new(),
        chat_enabled: channel.is_some(),
        chat_channel_id: channel.map(|c| c.to_string()),
        is_default: false,
        created_at: 0,
        updated_at: 0,
    }
}

#[test]
fn chat_access_follows_the_owning_node() {
    let mut nodes = StrMap::new();
    nodes.insert("room1".to_string(), node("room1", Some("chan-1")));
    nodes.insert("room2".to_string(), node("room2", None));
    assert_eq!(resolve_group_node(&nodes, "chan-1"), Some("room1".to_string()));
    assert_eq!(resolve_group_node(&nodes, "chan-9"), None);

    let mut store = Store::new();
    store.users.insert("mia".into(), User::new("mia".into(), "Mia".into(), UserRole::Member));
    store.users.insert("gus".into(), User::new("gus".into(), "Gus".into(), UserRole::Guest));
    store.domains.insert(
        "room1".into(),
        Domain::Room {
            room: Room {
                id: "room1".into(),
                name: "R".into(),
                description: String::new(),
                owner_id: "olga".into(),
                office_id: "office1".into(),
                members: vec!["mia".into(), "gus".into()],
                mdx_content: String::new(),
            },
        },
    );
    let k = WorkspaceServerKernel::new(store);
    assert_eq!(authorize_group_read(&k, &nodes, "mia", "chan-1"), Some("room1".to_string()));
    assert_eq!(authorize_group_write(&k, &nodes, "mia", "chan-1"), None);
    assert_eq!(authorize_group_read(&k, &nodes, "gus", "chan-1"), None);
    assert_eq!(authorize_group_read(&k, &nodes, "mia", "chan-9"), None);
}

#[test]
fn default_permissions_follow_the_role() {
    let owner = UserRole::Owner.default_permissions();
    assert!(owner.has(Permission::ManageOfficeMembers));
    assert_eq!(owner.count(), 4);
    assert_eq!(UserRole::Banned.default_permissions().count(), 0);
    assert!(UserRole::Guest.default_permissions().has(Permission::ViewContent));
    assert_eq!(PermissionSet::for_admin().count(), 11);
    let m = Membership::new("u".into(), "d".into(), UserRole::Member);
    assert!(m.has_permission(Permission::EditContent));
    assert!(m.has_all_permissions(&[Permission::ViewContent, Permission::EditContent]));
    assert!(!m.has_any_permission(&[Permission::All, Permission::Themes]));
}

#[test]
fn a_permission_set_holds_each_permission_once() {
    let mut s = PermissionSet::with_permissions(&[Permission::Themes, Permission::Themes, Permission::EditMdx]);
    assert_eq!(s.count(), 2);
    s.add(Permission::Themes);
    assert_eq!(s.count(), 2);
    s.remove(Permission::Themes);
    assert!(!s.has(Permission::Themes));
    assert_eq!(s.all(), vec![Permission::EditMdx]);
    s.remove(Permission::EditMdx);
    assert!(s.is_empty());
}
