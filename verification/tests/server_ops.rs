use citadel_workspace_server_kernel::domain::{Domain, Office, Room, Workspace};
use citadel_workspace_server_kernel::kernel::WorkspaceServerKernel;
use citadel_workspace_server_kernel::permissions::{Permission, UserRole};
use citadel_workspace_server_kernel::server_ops::ServerDomainOps;
use citadel_workspace_server_kernel::store::{KernelError, Store};
use citadel_workspace_server_kernel::user::User;

fn workspace(id: &str, owner: &str, members: &[&str], offices: &[&str]) -> Domain {
    Domain::Workspace {
        workspace: Workspace {
            id: id.to_string(),
            name: "WS".to_string(),
            description: String::new(),
            owner_id: owner.to_string(),
            members: members.iter().map(|s| s.to_string()).collect(),
            offices: offices.iter().map(|s| s.to_string()).collect(),
            metadata: vec![],
        },
    }
}

fn office(id: &str, owner: &str, members: &[&str], rooms: &[&str]) -> Domain {
    Domain::Office {
        office: Office {
            id: id.to_string(),
            name: id.to_string(),
            description: String::new(),
            owner_id: owner.to_string(),
            members: members.iter().map(|s| s.to_string()).collect(),
            rooms: rooms.iter().map(|s| s.to_string()).collect(),
            mdx_content: String::new(),
        },
    }
}

fn room(id: &str, office_id: &str, owner: &str, members: &[&str]) -> Domain {
    Domain::Room {
        room: Room {
            id: id.to_string(),
            name: id.to_string(),
            description: String::new(),
            owner_id: owner.to_string(),
            office_id: office_id.to_string(),
            members: members.iter().map(|s| s.to_string()).collect(),
            mdx_content: String::new(),
        },
    }
}

/// admin; owner "olga" of office1; "mia" a member of the workspace; "gus" a
/// guest in room1; "zed" a member belonging to nothing.
fn kernel() -> WorkspaceServerKernel {
    let mut store = Store::new();
    store.users.insert("admin".into(), User::new("admin".into(), "Admin".into(), UserRole::Admin));
    store.users.insert("olga".into(), User::new("olga".into(), "Olga".into(), UserRole::Owner));
    store.users.insert("mia".into(), User::new("mia".into(), "Mia".into(), UserRole::Member));
    store.users.insert("gus".into(), User::new("gus".into(), "Gus".into(), UserRole::Guest));
    store.users.insert("zed".into(), User::new("zed".into(), "Zed".into(), UserRole::Member));
    store.domains.insert("ws".into(), workspace("ws", "olga", &["olga", "mia"], &["office1"]));
    store.domains.insert("office1".into(), office("office1", "olga", &["olga"], &["room1"]));
    store.domains.insert("room1".into(), room("room1", "office1", "olga", &["gus"]));
    WorkspaceServerKernel::new(store)
}

fn members_of(k: &WorkspaceServerKernel, id: &str) -> Vec<String> {
    k.store().get_domain(id).map(|d| d.members().clone()).unwrap_or_default()
}

fn ops() -> ServerDomainOps {
    ServerDomainOps::new(kernel())
}

#[test]
fn the_server_admin_is_the_user_named_admin() {
    let s = ops();
    assert!(s.is_admin("admin"));
    assert!(!s.is_admin("olga"));
    assert_eq!(s.init(), Ok(()));
    assert_eq!(s.kernel().store().users.len(), 5);
}

#[test]
fn owners_hold_the_entity_managing_permissions_globally() {
    let s = ops();
    assert_eq!(s.check_global_permission("admin", Permission::All), Ok(true));
    assert_eq!(s.check_global_permission("olga", Permission::AddOffice), Ok(true));
    assert_eq!(s.check_global_permission("olga", Permission::DeleteRoom), Ok(true));
    assert_eq!(s.check_global_permission("olga", Permission::All), Ok(false));
    assert_eq!(s.check_global_permission("mia", Permission::AddOffice), Ok(false));
    assert_eq!(s.check_global_permission("nobody", Permission::AddOffice), Err(KernelError::UserNotFound));
}

#[test]
fn a_global_grant_counts() {
    let mut store = Store::new();
    let mut ann = User::new("ann".into(), "Ann".into(), UserRole::Guest);
    ann.add_permission("global", Permission::AddOffice);
    store.users.insert("ann".into(), ann);
    let s = ServerDomainOps::new(WorkspaceServerKernel::new(store));
    assert_eq!(s.check_global_permission("ann", Permission::AddOffice), Ok(true));
    assert_eq!(s.check_global_permission("ann", Permission::AddRoom), Ok(false));
}

#[test]
fn membership_counts_owners_and_a_room_counts_its_office() {
    let s = ops();
    assert_eq!(s.is_member_of_domain("admin", "nowhere"), Ok(true));
    assert_eq!(s.is_member_of_domain("mia", "ws"), Ok(true));
    assert_eq!(s.is_member_of_domain("gus", "room1"), Ok(true));
    assert_eq!(s.is_member_of_domain("olga", "office1"), Ok(true));
    assert_eq!(s.is_member_of_domain("zed", "office1"), Ok(false));
    assert_eq!(s.is_member_of_domain("zed", "nowhere"), Err(KernelError::DomainNotFound));
    assert_eq!(s.can_access_domain("gus", "office1"), Ok(false));
}

#[test]
fn a_room_refers_a_non_member_to_its_office() {
    let mut k = kernel();
    assert_eq!(k.add_user_to_domain("admin", "mia", "office1", UserRole::Member), Ok(()));
    let s = ServerDomainOps::new(k);
    assert_eq!(s.is_member_of_domain("mia", "room1"), Ok(true));
    assert_eq!(s.check_entity_permission("mia", "room1", Permission::ViewContent), Ok(true));
    assert_eq!(s.check_entity_permission("mia", "room1", Permission::SendMessages), Ok(false));
    assert_eq!(s.check_permission("zed", "room1", Permission::ViewContent), Ok(false));
}

#[test]
fn entity_permissions_under_the_server_rules() {
    let s = ops();
    assert_eq!(s.check_entity_permission("admin", "nowhere", Permission::All), Ok(true));
    assert_eq!(s.check_entity_permission("olga", "office1", Permission::DeleteOffice), Ok(true));
    assert_eq!(s.check_entity_permission("gus", "room1", Permission::ViewContent), Ok(false));
    assert_eq!(s.check_entity_permission("mia", "ws", Permission::ViewContent), Ok(false));
    assert_eq!(s.check_entity_permission("mia", "nowhere", Permission::ViewContent), Err(KernelError::EntityNotFound));
    assert_eq!(s.check_entity_permission("nobody", "ws", Permission::ViewContent), Err(KernelError::UserNotFound));
}

#[test]
fn an_owner_creates_offices_and_rooms_they_own() {
    let mut s = ops();
    let office = s.create_office("olga", "Sales", "deals").unwrap();
    assert_eq!(office.owner_id, "olga");
    assert_eq!(office.members, vec!["olga".to_string()]);
    assert!(s.get_domain(&office.id).is_some());
    assert_eq!(s.create_office("mia", "X", "").err(), Some(KernelError::NoPermission));
    let room = s.create_room("olga", "office1", "Standup", "").unwrap();
    assert_eq!(room.office_id, "office1");
    assert_eq!(room.owner_id, "olga");
    assert_eq!(s.create_room("zed", "office1", "R", "").err(), Some(KernelError::NoPermission));
}

#[test]
fn a_generic_creation_stores_a_fresh_entity_under_its_id() {
    let mut s = ops();
    let office = s.create_domain_entity::<Office>("olga", None, "Plain", "").unwrap();
    assert_eq!(office.owner_id, "");
    assert!(office.members.is_empty());
    assert!(s.get_domain(&office.id).is_some());
    let room = s.create_domain_entity::<Room>("olga", Some("office1"), "R", "").unwrap();
    assert!(s.get_domain(&room.id).is_some());
    assert_eq!(s.create_domain_entity::<Room>("mia", Some("office1"), "R", "").err(), Some(KernelError::NoPermission));
}

#[test]
fn reading_needs_membership_but_a_plain_fetch_does_not() {
    let s = ops();
    assert_eq!(s.get_office("olga", "office1").unwrap().id, "office1");
    assert_eq!(s.get_office("zed", "office1").err(), Some(KernelError::NoPermission));
    assert_eq!(s.get_office("admin", "room1").err(), Some(KernelError::WrongEntityKind));
    assert_eq!(s.get_domain_entity::<Room>("zed", "room1").unwrap().id, "room1");
    assert_eq!(s.get_domain_entity::<Room>("zed", "gone").err(), Some(KernelError::EntityNotFound));
    assert_eq!(s.get_user("mia").unwrap().name, "Mia");
}

#[test]
fn deleting_and_updating_need_the_kind_s_permission() {
    let mut s = ops();
    assert_eq!(s.delete_room("mia", "room1").err(), Some(KernelError::NoPermission));
    assert_eq!(s.update_room("gus", "room1", Some("X"), None).err(), Some(KernelError::NoPermission));
    let office = s.update_office("olga", "office1", Some("HQ"), None).unwrap();
    assert_eq!(office.name, "HQ");
    let room = s.delete_room("olga", "room1").unwrap();
    assert_eq!(room.id, "room1");
    assert!(s.get_domain("room1").is_none());
    assert_eq!(s.delete_office("olga", "room1").err(), Some(KernelError::EntityNotFound));
    assert_eq!(s.delete_office("olga", "office1").unwrap().name, "HQ");
}

#[test]
fn listings_show_what_the_user_is_counted_a_member_of() {
    let s = ops();
    let rooms = s.list_rooms("olga", "office1").unwrap();
    assert_eq!(rooms.len(), 1);
    assert_eq!(rooms[0].id, "room1");
    assert_eq!(s.list_rooms("gus", "office1").err(), Some(KernelError::NoPermission));
    assert_eq!(s.list_offices("olga").unwrap().len(), 1);
    assert_eq!(s.list_offices("zed").unwrap().len(), 0);
    let workspaces = s.list_domain_entities::<Workspace>("mia", None).unwrap();
    assert_eq!(workspaces.len(), 1);
}

#[test]
fn members_are_added_and_removed_on_offices_and_rooms_only() {
    let mut s = ops();
    assert_eq!(s.add_user_to_domain("zed", "room1", UserRole::Member), Ok(()));
    assert!(s.get_domain("room1").unwrap().members().contains(&"zed".to_string()));
    assert_eq!(s.add_user_to_domain("zed", "ws", UserRole::Member), Ok(()));
    assert!(!s.get_domain("ws").unwrap().members().contains(&"zed".to_string()));
    assert_eq!(s.remove_user_from_domain("zed", "room1"), Ok(()));
    assert!(!s.get_domain("room1").unwrap().members().contains(&"zed".to_string()));
    assert_eq!(s.add_user_to_domain("zed", "gone", UserRole::Member), Err(KernelError::DomainNotFound));
    assert_eq!(s.remove_user_from_domain("zed", "gone"), Err(KernelError::DomainNotFound));
}
