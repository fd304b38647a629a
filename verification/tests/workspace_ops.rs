use citadel_workspace_server_kernel::domain::{Domain, Office, Room, Workspace};
use citadel_workspace_server_kernel::kernel::WorkspaceServerKernel;
use citadel_workspace_server_kernel::permissions::UserRole;
use citadel_workspace_server_kernel::store::{KernelError, Store};
use citadel_workspace_server_kernel::user::User;

fn kernel() -> WorkspaceServerKernel {
    let mut store = Store::new();
    store.users.insert("admin".into(), User::new("admin".into(), "Admin".into(), UserRole::Admin));
    store.users.insert("olga".into(), User::new("olga".into(), "Olga".into(), UserRole::Owner));
    store.users.insert("mia".into(), User::new("mia".into(), "Mia".into(), UserRole::Member));
    store.users.insert("zed".into(), User::new("zed".into(), "Zed".into(), UserRole::Member));
    store.domains.insert(
        "ws".into(),
        Domain::Workspace {
            workspace: Workspace {
                id: "ws".into(),
                name: "WS".into(),
                description: "d".into(),
                owner_id: "olga".into(),
                members: vec!["olga".into(), "mia".into()],
                offices: vec!["office1".into()],
                metadata: vec![1, 2],
            },
        },
    );
    store.domains.insert(
        "office1".into(),
        Domain::Office {
            office: Office {
                id: "office1".into(),
                name: "O".into(),
                description: String::new(),
                owner_id: "olga".into(),
                members: vec![],
                rooms: vec!["room1".into()],
                mdx_content: String::new(),
            },
        },
    );
    store.domains.insert(
        "room1".into(),
        Domain::Room {
            room: Room {
                id: "room1".into(),
                name: "R".into(),
                description: String::new(),
                owner_id: "olga".into(),
                office_id: "office1".into(),
                members: vec![],
                mdx_content: String::new(),
            },
        },
    );
    store.domains.insert(
        "office2".into(),
        Domain::Office {
            office: Office {
                id: "office2".into(),
                name: "O2".into(),
                description: String::new(),
                owner_id: "mia".into(),
                members: vec![],
                rooms: vec![],
                mdx_content: String::new(),
            },
        },
    );
    WorkspaceServerKernel::new(store)
}

fn workspace_of(k: &WorkspaceServerKernel, id: &str) -> Workspace {
    match k.store().get_domain(id) {
        Some(Domain::Workspace { workspace }) => workspace.clone(),
        _ => panic!("no workspace {id}"),
    }
}

#[test]
fn a_workspace_is_read_by_its_members_and_admins_only() {
    let k = kernel();
    assert_eq!(k.get_workspace("mia", "ws").map(|w| w.name), Ok("WS".to_string()));
    assert_eq!(k.get_workspace("admin", "ws").map(|w| w.id), Ok("ws".to_string()));
    assert!(matches!(k.get_workspace("zed", "ws"), Err(KernelError::NotAWorkspaceMember)));
    assert!(matches!(k.get_workspace("mia", "office1"), Err(KernelError::WorkspaceNotFound)));
}

#[test]
fn listing_shows_what_the_user_may_read() {
    let k = kernel();
    assert_eq!(k.list_workspaces("mia").len(), 1);
    assert_eq!(k.list_workspaces("zed").len(), 0);
    assert_eq!(k.list_workspaces("admin").len(), 1);
}

#[test]
fn only_owners_and_admins_change_a_workspace() {
    let mut k = kernel();
    assert_eq!(k.add_office_to_workspace("mia", "ws", "office2"), Err(KernelError::NotWorkspaceOwner));
    assert_eq!(k.add_office_to_workspace("mia", "nope", "office2"), Err(KernelError::WorkspaceNotFound));
    assert_eq!(k.add_office_to_workspace("olga", "ws", "ghost"), Err(KernelError::OfficeNotFound));
    assert_eq!(k.add_office_to_workspace("olga", "ws", "office2"), Ok(()));
    assert_eq!(k.add_office_to_workspace("admin", "ws", "office2"), Ok(()));
    assert_eq!(workspace_of(&k, "ws").offices, vec!["office1".to_string(), "office2".to_string()]);
    assert_eq!(k.remove_office_from_workspace("olga", "ws", "office1"), Ok(()));
    assert_eq!(workspace_of(&k, "ws").offices, vec!["office2".to_string()]);
}

#[test]
fn members_are_added_and_removed_but_not_the_owner() {
    let mut k = kernel();
    assert_eq!(k.add_user_to_workspace("olga", "ghost", "ws"), Err(KernelError::UserNotFound));
    assert_eq!(k.add_user_to_workspace("olga", "zed", "ws"), Ok(()));
    assert_eq!(k.add_user_to_workspace("olga", "zed", "ws"), Ok(()));
    assert_eq!(workspace_of(&k, "ws").members, vec!["olga".to_string(), "mia".to_string(), "zed".to_string()]);
    assert_eq!(k.remove_user_from_workspace("olga", "olga", "ws"), Err(KernelError::CannotRemoveOwner));
    assert_eq!(k.remove_user_from_workspace("admin", "mia", "ws"), Ok(()));
    assert_eq!(workspace_of(&k, "ws").members, vec!["olga".to_string(), "zed".to_string()]);
    assert_eq!(k.remove_user_from_workspace("zed", "mia", "ws"), Err(KernelError::NotWorkspaceOwner));
}

#[test]
fn an_update_changes_only_what_it_names() {
    let mut k = kernel();
    let w = k.update_workspace("olga", "ws", Some("Renamed"), None, None).unwrap();
    assert_eq!(w.name, "Renamed");
    assert_eq!(w.description, "d");
    assert_eq!(w.metadata, vec![1, 2]);
    assert_eq!(workspace_of(&k, "ws").name, "Renamed");
    let w = k.update_workspace("admin", "ws", None, Some("new"), Some(vec![9])).unwrap();
    assert_eq!((w.name.as_str(), w.description.as_str(), w.metadata.clone()), ("Renamed", "new", vec![9]));
    assert!(matches!(k.update_workspace("mia", "ws", Some("x"), None, None), Err(KernelError::NotWorkspaceOwner)));
}

#[test]
fn an_admin_creates_a_workspace_owned_by_and_containing_them() {
    let mut k = kernel();
    let w = k.create_workspace("admin", "New", "Fresh", None).unwrap();
    assert_eq!(w.owner_id, "admin");
    assert_eq!(w.members, vec!["admin".to_string()]);
    assert!(w.offices.is_empty());
    assert_eq!(workspace_of(&k, &w.id).name, "New");
    assert!(matches!(k.create_workspace("mia", "New", "Fresh", None), Err(KernelError::DomainNotFound)));
}

#[test]
fn deleting_a_workspace_removes_its_offices_and_rooms() {
    let mut k = kernel();
    assert_eq!(k.delete_workspace("mia", "ws"), Err(KernelError::NotWorkspaceOwner));
    assert_eq!(k.delete_workspace("olga", "ws"), Ok(()));
    assert!(k.store().get_domain("ws").is_none());
    assert!(k.store().get_domain("office1").is_none());
    assert!(k.store().get_domain("room1").is_none());
    assert!(k.store().get_domain("office2").is_some());
    assert_eq!(k.delete_workspace("admin", "ws"), Err(KernelError::WorkspaceNotFound));
}
