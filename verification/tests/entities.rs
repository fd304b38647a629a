use citadel_workspace_server_kernel::domain::{Domain, DomainEntity, EntityKind, Office, Room, Workspace};
use citadel_workspace_server_kernel::kernel::WorkspaceServerKernel;
use citadel_workspace_server_kernel::permissions::{Permission, UserRole};
use citadel_workspace_server_kernel::store::{KernelError, Store};
use citadel_workspace_server_kernel::user::User;

fn workspace(id: &str, owner: &str, members: &[&str], offices: &[&str]) -> Domain {
    Domain::Workspace {
        workspace: Workspace {
            id: id.to_string(),
            name: "WS".to_string(),
            description: String::new(),
            owner_id: owner.to_string(),
            members: members.iter().map(|s| s.to_string()).collect(),
            offices: offices.iter().map(|s| s.to_string()).collect(),
            metadata: vec![],
        },
    }
}

fn office(id: &str, owner: &str, members: &[&str], rooms: &[&str]) -> Domain {
    Domain::Office {
        office: Office {
            id: id.to_string(),
            name: id.to_string(),
            description: String::new(),
            owner_id: owner.to_string(),
            members: members.iter().map(|s| s.to_string()).collect(),
            rooms: rooms.iter().map(|s| s.to_string()).collect(),
            mdx_content: String::new(),
        },
    }
}

fn room(id: &str, office_id: &str, owner: &str, members: &[&str]) -> Domain {
    Domain::Room {
        room: Room {
            id: id.to_string(),
            name: id.to_string(),
            description: String::new(),
            owner_id: owner.to_string(),
            office_id: office_id.to_string(),
            members: members.iter().map(|s| s.to_string()).collect(),
            mdx_content: String::new(),
        },
    }
}

/// admin; owner "olga" of office1; "mia" a member of the workspace; "gus" a
/// guest in room1; "zed" a member belonging to nothing.
fn kernel() -> WorkspaceServerKernel {
    let mut store = Store::new();
    store.users.insert("admin".into(), User::new("admin".into(), "Admin".into(), UserRole::Admin));
    store.users.insert("olga".into(), User::new("olga".into(), "Olga".into(), UserRole::Owner));
    store.users.insert("mia".into(), User::new("mia".into(), "Mia".into(), UserRole::Member));
    store.users.insert("gus".into(), User::new("gus".into(), "Gus".into(), UserRole::Guest));
    store.users.insert("zed".into(), User::new("zed".into(), "Zed".into(), UserRole::Member));
    store.domains.insert("ws".into(), workspace("ws", "olga", &["olga", "mia"], &["office1"]));
    store.domains.insert("office1".into(), office("office1", "olga", &["olga"], &["room1"]));
    store.domains.insert("room1".into(), room("room1", "office1", "olga", &["gus"]));
    WorkspaceServerKernel::new(store)
}

fn members_of(k: &WorkspaceServerKernel, id: &str) -> Vec<String> {
    k.store().get_domain(id).map(|d| d.members().clone()).unwrap_or_default()
}

#[test]
fn room_access_follows_membership_of_the_room_or_its_office() {
    let k = kernel();
    assert_eq!(k.check_room_access("admin", "anything"), Ok(true));
    assert_eq!(k.check_room_access("gus", "room1"), Ok(true));
    assert_eq!(k.check_room_access("olga", "room1"), Ok(true));
    assert_eq!(k.check_room_access("mia", "room1"), Ok(false));
    assert_eq!(k.check_room_access("zed", "missing"), Err(KernelError::RoomNotFound));
    assert_eq!(k.check_room_access("zed", "office1"), Err(KernelError::NotARoom));
}

#[test]
fn reading_an_entity_needs_read_messages_and_the_right_kind() {
    let k = kernel();
    let office = k.get_office("olga", "office1").unwrap();
    assert_eq!(office.id, "office1");
    assert_eq!(office.members, vec!["olga".to_string()]);
    assert_eq!(k.get_room("olga", "office1").err(), Some(KernelError::WrongEntityKind));
    assert_eq!(k.get_room("mia", "room1").err(), Some(KernelError::NoPermission));
    assert_eq!(k.get_office("admin", "nowhere").err(), Some(KernelError::EntityNotFound));
    assert_eq!(k.get_office("nobody", "office1").err(), Some(KernelError::UserNotFound));
}

#[test]
fn only_admins_create_offices_and_the_creator_joins() {
    let mut k = kernel();
    assert_eq!(k.create_office("mia", "New", "d", None).err(), Some(KernelError::OnlyAdminsCreateOffices));
    let office = k.create_office("admin", "New", "An office", Some("# Hello")).unwrap();
    assert_eq!(office.name, "New");
    assert_eq!(office.description, "An office");
    assert_eq!(office.members, vec!["admin".to_string()]);
    assert_eq!(office.owner_id, "");
    assert_eq!(office.mdx_content, "# Hello");
    let stored = k.store().get_domain(&office.id).unwrap();
    assert!(matches!(stored, Domain::Office { office: o } if o.name == "New"));
}

#[test]
fn a_room_needs_add_room_on_its_office() {
    let mut k = kernel();
    assert_eq!(k.create_room("zed", "office1", "R", "", None).err(), Some(KernelError::NoPermission));
    let room = k.create_room("olga", "office1", "Standup", "daily", None).unwrap();
    assert_eq!(room.members, vec!["olga".to_string()]);
    assert_eq!(room.mdx_content, "");
    assert!(k.store().get_domain(&room.id).is_some());
}

#[test]
fn updating_changes_only_what_is_given() {
    let mut k = kernel();
    let office = k.update_office("olga", "office1", Some("Renamed"), None, Some("notes")).unwrap();
    assert_eq!(office.name, "Renamed");
    assert_eq!(office.description, "");
    assert_eq!(office.mdx_content, "notes");
    assert_eq!(office.rooms, vec!["room1".to_string()]);
    assert_eq!(k.update_office("mia", "office1", Some("X"), None, None).err(), Some(KernelError::NoPermission));
    let stored = k.get_office("olga", "office1").unwrap();
    assert_eq!(stored.name, "Renamed");
}

#[test]
fn a_workspace_takes_its_content_as_bytes() {
    let mut k = kernel();
    let w = k.update_domain_entity::<Workspace>("admin", "ws", None, Some("desc"), Some("abc")).unwrap();
    assert_eq!(w.metadata, b"abc".to_vec());
    assert_eq!(w.description, "desc");
    assert_eq!(w.name, "WS");
}

#[test]
fn deleting_removes_the_entity_and_hands_it_back() {
    let mut k = kernel();
    assert_eq!(k.delete_room("mia", "room1").err(), Some(KernelError::NoPermission));
    let room = k.delete_room("olga", "room1").unwrap();
    assert_eq!(room.office_id, "office1");
    assert!(k.store().get_domain("room1").is_none());
    assert_eq!(k.delete_room("admin", "room1").err(), Some(KernelError::EntityNotFound));
}

#[test]
fn rooms_are_listed_under_their_office() {
    let k = kernel();
    let rooms = k.list_rooms("admin", "office1").unwrap();
    assert_eq!(rooms.len(), 1);
    assert_eq!(rooms[0].id, "room1");
    assert_eq!(k.list_rooms("mia", "office1").err(), Some(KernelError::NoPermission));
    assert_eq!(k.list_rooms("mia", "missing").err(), Some(KernelError::DomainNotFound));
    assert_eq!(k.list_rooms("admin", "missing").unwrap().len(), 0);
}

#[test]
fn without_a_parent_no_office_or_room_is_listed() {
    let k = kernel();
    assert_eq!(k.list_offices("admin").unwrap().len(), 0);
    assert_eq!(k.list_all_rooms("zed").unwrap().len(), 0);
}

#[test]
fn offices_are_listed_under_the_root_id_and_workspaces_under_their_offices() {
    let mut k = kernel();
    let root = k.create_office("admin", "Root office", "", None).unwrap();
    let offices = k.list_domain_entities::<Office>("admin", Some("workspace-root")).unwrap();
    assert_eq!(offices.len(), 2);
    assert!(offices.iter().any(|o| o.id == root.id));
    let workspaces = k.list_domain_entities::<Workspace>("admin", Some("office1")).unwrap();
    assert_eq!(workspaces.len(), 1);
    assert_eq!(workspaces[0].id, "ws");
}

#[test]
fn the_offices_of_a_workspace_are_those_the_reader_may_see() {
    let k = kernel();
    assert_eq!(k.list_offices_in_workspace("mia", "ws").unwrap().len(), 0);
    let seen = k.list_offices_in_workspace("admin", "ws").unwrap();
    assert_eq!(seen.len(), 1);
    assert_eq!(seen[0].id, "office1");
    assert_eq!(k.list_offices_in_workspace("olga", "ws").unwrap().len(), 1);
    assert_eq!(k.list_offices_in_workspace("zed", "ws").err(), Some(KernelError::NotAWorkspaceMember));
    assert_eq!(k.list_offices_in_workspace("zed", "nope").err(), Some(KernelError::WorkspaceNotFound));
}

#[test]
fn copies_of_users_and_domains_are_handed_out() {
    let k = kernel();
    assert_eq!(k.get_user("mia").unwrap().name, "Mia");
    assert!(k.get_user("nobody").is_none());
    assert!(matches!(k.get_domain("room1"), Some(Domain::Room { room: r }) if r.office_id == "office1"));
    assert!(k.get_domain("nowhere").is_none());
}

#[test]
fn the_kind_of_an_entity_type_is_known() {
    assert_eq!(Office::entity_kind(), EntityKind::Office);
    assert_eq!(Room::entity_kind(), EntityKind::Room);
    assert_eq!(Workspace::entity_kind(), EntityKind::Workspace);
    let _ = Permission::All;
}
