use std::collections::HashSet;
use citadel_workspace_server_kernel::domain::{Domain, Office, Workspace};
use citadel_workspace_server_kernel::kernel::WorkspaceServerKernel;
use citadel_workspace_server_kernel::permissions::{Permission, UserRole};
use citadel_workspace_server_kernel::requests::{answer_request, theme_update_target, RequestInputs, WorkspaceProtocolRequest};
use citadel_workspace_server_kernel::response::WorkspaceProtocolResponse;
use citadel_workspace_server_kernel::store::Store;
use citadel_workspace_server_kernel::strmap::StrMap;
use citadel_workspace_server_kernel::user::{MetadataValue, User};

fn kernel() -> WorkspaceServerKernel {
    let mut store = Store::new();
    store.users.insert("admin".into(), User::new("admin".into(), "Admin".into(), UserRole::Admin));
    store.users.insert("olga".into(), User::new("olga".into(), "Olga".into(), UserRole::Owner));
    let mut mia = User::new("mia".into(), "Mia".into(), UserRole::Member);
    mia.metadata.insert("email".into(), MetadataValue::String("mia@example.com".into()));
    mia.metadata.insert("show_profile_to_strangers".into(), MetadataValue::Boolean(false));
    store.users.insert("mia".into(), mia);
    store.users.insert("zed".into(), User::new("zed".into(), "Zed".into(), UserRole::Member));
    store.domains.insert(
        "workspace-root".into(),
        Domain::Workspace {
            workspace: Workspace {
                id: "workspace-root".into(),
                name: "Root".into(),
                description: String::new(),
                owner_id: "olga".into(),
                members: vec!["olga".into(), "mia".into()],
                offices: vec!["office1".into()],
                metadata: vec![],
            },
        },
    );
    store.domains.insert(
        "office1".into(),
        Domain::Office {
            office: Office {
                id: "office1".into(),
                name: "office1".into(),
                description: String::new(),
                owner_id: "olga".into(),
                members: vec!["olga".into(), "mia".into()],
                rooms: vec![],
                mdx_content: String::new(),
            },
        },
    );
    WorkspaceServerKernel::new(store)
}

fn inputs() -> RequestInputs {
    let mut cids = StrMap::new();
    cids.insert("admin".to_string(), 1);
    cids.insert("olga".to_string(), 2);
    cids.insert("mia".to_string(), 3);
    cids.insert("zed".to_string(), 4);
    cids.insert("bob".to_string(), 5);
    RequestInputs { contacts: HashSet::new(), cids }
}

fn error_of(r: WorkspaceProtocolResponse) -> String {
    match r {
        WorkspaceProtocolResponse::Error(m) => m,
        other => panic!("expected an error, got {:?}", other),
    }
}

#[test]
fn the_root_workspace_is_read_or_reported_uninitialised() {
    let mut k = kernel();
    let ins = inputs();
    let r = answer_request(&mut k, "mia", WorkspaceProtocolRequest::GetWorkspace { workspace_id: None }, &ins);
    assert!(matches!(r, WorkspaceProtocolResponse::Workspace(ref w) if w.id == "workspace-root"));
    let r = answer_request(&mut k, "zed", WorkspaceProtocolRequest::GetWorkspace { workspace_id: None }, &ins);
    assert!(matches!(r, WorkspaceProtocolResponse::WorkspaceNotInitialized));
    let r = answer_request(&mut k, "zed", WorkspaceProtocolRequest::GetWorkspace { workspace_id: Some("nope".into()) }, &ins);
    assert_eq!(error_of(r), "No such workspace: Workspace not found");
}

#[test]
fn a_stranger_is_not_sent_a_hidden_profile_or_the_permissions() {
    let mut k = kernel();
    let ins = inputs();
    let r = answer_request(&mut k, "olga", WorkspaceProtocolRequest::GetMember { user_id: "mia".into() }, &ins);
    assert_eq!(error_of(r), "Permission denied: Can only view your own member record or must be admin");
    let r = answer_request(&mut k, "mia", WorkspaceProtocolRequest::GetMember { user_id: "mia".into() }, &ins);
    assert!(matches!(r, WorkspaceProtocolResponse::Member(ref u) if u.metadata.contains_key("email")));
    let r = answer_request(&mut k, "admin", WorkspaceProtocolRequest::GetMember { user_id: "mia".into() }, &ins);
    assert!(matches!(r, WorkspaceProtocolResponse::Member(ref u) if u.name == "Mia" && !u.metadata.contains_key("email")));
    let r = answer_request(&mut k, "admin", WorkspaceProtocolRequest::GetMember { user_id: "ghost".into() }, &ins);
    assert_eq!(error_of(r), "Member not found");
}

#[test]
fn a_roster_is_for_members_and_administrators() {
    let mut k = kernel();
    let ins = inputs();
    let r = answer_request(&mut k, "zed", WorkspaceProtocolRequest::ListMembers { domain_id: Some("office1".into()) }, &ins);
    assert_eq!(error_of(r), "Permission denied: not a member of this domain");
    let r = answer_request(&mut k, "olga", WorkspaceProtocolRequest::ListMembers { domain_id: Some("office1".into()) }, &ins);
    match r {
        WorkspaceProtocolResponse::Members(v) => {
            let names: Vec<String> = v.iter().map(|u| u.name.clone()).collect();
            assert_eq!(names, vec!["Olga".to_string(), "Mia".to_string()]);
            assert!(!v[1].metadata.contains_key("email"));
        }
        other => panic!("unexpected {:?}", other),
    }
    let r = answer_request(&mut k, "admin", WorkspaceProtocolRequest::ListMembers { domain_id: Some("gone".into()) }, &ins);
    assert_eq!(error_of(r), "Domain not found");
}

#[test]
fn members_are_added_and_removed_and_permissions_reported() {
    let mut k = kernel();
    let ins = inputs();
    let r = answer_request(
        &mut k,
        "admin",
        WorkspaceProtocolRequest::AddMember { user_id: "zed".into(), domain_id: Some("office1".into()), role: UserRole::Member },
        &ins,
    );
    assert!(matches!(r, WorkspaceProtocolResponse::Success(ref m) if m == "Member added successfully"));
    let r = answer_request(
        &mut k,
        "zed",
        WorkspaceProtocolRequest::AddMember { user_id: "olga".into(), domain_id: None, role: UserRole::Member },
        &ins,
    );
    assert!(error_of(r).starts_with("Failed to add member: "));
    let r = answer_request(
        &mut k,
        "zed",
        WorkspaceProtocolRequest::GetUserPermissions { user_id: "zed".into(), domain_id: "office1".into() },
        &ins,
    );
    match r {
        WorkspaceProtocolResponse::UserPermissions { user_id, permissions, .. } => {
            assert_eq!(user_id, "zed");
            assert!(permissions.contains(&Permission::ViewContent));
        }
        other => panic!("unexpected {:?}", other),
    }
    let r = answer_request(
        &mut k,
        "admin",
        WorkspaceProtocolRequest::RemoveMember { user_id: "zed".into(), domain_id: Some("office1".into()) },
        &ins,
    );
    assert!(matches!(r, WorkspaceProtocolResponse::Success(ref m) if m == "Member removed successfully"));
    let r = answer_request(&mut k, "zed", WorkspaceProtocolRequest::Message, &ins);
    assert_eq!(error_of(r), "Message command is not supported by server. Only peers may receive this type");
    let r = answer_request(&mut k, "zed", WorkspaceProtocolRequest::ListWorkspaces, &ins);
    assert!(matches!(r, WorkspaceProtocolResponse::Workspaces(ref v) if v.is_empty()));
}

#[test]
fn a_theme_update_takes_the_themes_permission() {
    let k = kernel();
    assert_eq!(theme_update_target(&k, "admin", None).ok(), Some("workspace-root".to_string()));
    assert_eq!(theme_update_target(&k, "admin", Some("office1")).ok(), Some("office1".to_string()));
    match theme_update_target(&k, "zed", None) {
        Err(answer) => assert_eq!(error_of(answer), "Permission denied: Themes required"),
        Ok(t) => panic!("a stranger may not restyle {t}"),
    }
    match theme_update_target(&k, "nobody", Some("office1")) {
        Err(answer) => assert_eq!(error_of(answer), "Permission denied: Themes required"),
        Ok(t) => panic!("an unknown account may not restyle {t}"),
    }
}
