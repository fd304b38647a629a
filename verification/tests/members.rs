use citadel_workspace_server_kernel::domain::{Domain, Office, Room, Workspace};
use citadel_workspace_server_kernel::kernel::WorkspaceServerKernel;
use citadel_workspace_server_kernel::permissions::{Permission, UserRole};
use citadel_workspace_server_kernel::store::{KernelError, Store};
use citadel_workspace_server_kernel::user::User;

fn workspace(id: &str, owner: &str, members: &[&str], offices: &[&str]) -> Domain {
    Domain::Workspace {
        workspace: Workspace {
            id: id.to_string(),
            name: "WS".to_string(),
            description: String::new(),
            owner_id: owner.to_string(),
            members: members.iter().map(|s| s.to_string()).collect(),
            offices: offices.iter().map(|s| s.to_string()).collect(),
            metadata: vec![],
        },
    }
}

fn office(id: &str, owner: &str, members: &[&str], rooms: &[&str]) -> Domain {
    Domain::Office {
        office: Office {
            id: id.to_string(),
            name: id.to_string(),
            description: String::new(),
            owner_id: owner.to_string(),
            members: members.iter().map(|s| s.to_string()).collect(),
            rooms: rooms.iter().map(|s| s.to_string()).collect(),
            mdx_content: String::new(),
        },
    }
}

fn room(id: &str, office_id: &str, owner: &str, members: &[&str]) -> Domain {
    Domain::Room {
        room: Room {
            id: id.to_string(),
            name: id.to_string(),
            description: String::new(),
            owner_id: owner.to_string(),
            office_id: office_id.to_string(),
            members: members.iter().map(|s| s.to_string()).collect(),
            mdx_content: String::new(),
        },
    }
}

/// admin; owner "olga" of office1; "mia" a member of the workspace; "gus" a
/// guest in room1; "zed" a member belonging to nothing.
fn kernel() -> WorkspaceServerKernel {
    let mut store = Store::new();
    store.users.insert("admin".into(), User::new("admin".into(), "Admin".into(), UserRole::Admin));
    store.users.insert("olga".into(), User::new("olga".into(), "Olga".into(), UserRole::Owner));
    store.users.insert("mia".into(), User::new("mia".into(), "Mia".into(), UserRole::Member));
    store.users.insert("gus".into(), User::new("gus".into(), "Gus".into(), UserRole::Guest));
    store.users.insert("zed".into(), User::new("zed".into(), "Zed".into(), UserRole::Member));
    store.domains.insert("ws".into(), workspace("ws", "olga", &["olga", "mia"], &["office1"]));
    store.domains.insert("office1".into(), office("office1", "olga", &["olga"], &["room1"]));
    store.domains.insert("room1".into(), room("room1", "office1", "olga", &["gus"]));
    WorkspaceServerKernel::new(store)
}

fn members_of(k: &WorkspaceServerKernel, id: &str) -> Vec<String> {
    k.store().get_domain(id).map(|d| d.members().clone()).unwrap_or_default()
}

fn names(v: &[User]) -> Vec<String> {
    v.iter().map(|u| u.id.clone()).collect()
}

#[test]
fn members_of_an_office_or_a_room_are_listed_by_id_and_name() {
    let k = kernel();
    assert_eq!(k.list_members(Some("office1"), None), Ok(vec![("olga".to_string(), "Olga".to_string())]));
    assert_eq!(k.list_members(None, Some("room1")), Ok(vec![("gus".to_string(), "Gus".to_string())]));
    assert_eq!(k.list_members(Some("office1"), Some("room1")), Ok(vec![("olga".to_string(), "Olga".to_string())]));
    assert_eq!(k.list_members(Some("room1"), None), Err(KernelError::NotAnOffice));
    assert_eq!(k.list_members(None, Some("office1")), Err(KernelError::NotARoom));
    assert_eq!(k.list_members(Some("gone"), None), Err(KernelError::OfficeNotFound));
    assert_eq!(k.list_members(None, Some("gone")), Err(KernelError::RoomNotFound));
    assert_eq!(k.list_members(None, None), Err(KernelError::NoDomainGiven));
}

#[test]
fn a_member_list_skips_ids_without_a_record() {
    let mut store = Store::new();
    store.users.insert("ann".into(), User::new("ann".into(), "Ann".into(), UserRole::Member));
    store.domains.insert("o".into(), office("o", "ann", &["ghost", "ann"], &[]));
    let k = WorkspaceServerKernel::new(store);
    assert_eq!(k.list_members(Some("o"), None), Ok(vec![("ann".to_string(), "Ann".to_string())]));
    assert_eq!(names(&k.list_members_in_domain("ann", "o").unwrap()), vec!["ann".to_string()]);
}

#[test]
fn listing_the_members_of_a_domain_needs_member_standing_there() {
    let k = kernel();
    assert_eq!(names(&k.list_members_in_domain("olga", "office1").unwrap()), vec!["olga".to_string()]);
    assert_eq!(names(&k.list_members_in_domain("admin", "room1").unwrap()), vec!["gus".to_string()]);
    assert_eq!(k.list_members_in_domain("gus", "room1").err(), Some(KernelError::InsufficientPrivileges));
    assert_eq!(k.list_members_in_domain("zed", "office1").err(), Some(KernelError::NotADomainMember));
    assert_eq!(k.list_members_in_domain("admin", "gone").err(), Some(KernelError::DomainNotFound));
}

#[test]
fn member_commands_go_to_the_office_then_the_room_then_the_root() {
    let mut k = kernel();
    assert_eq!(k.add_member_command_internal("admin", "zed", Some("office1"), Some("room1"), UserRole::Member), Ok(()));
    assert!(members_of(&k, "office1").contains(&"zed".to_string()));
    assert!(!members_of(&k, "room1").contains(&"zed".to_string()));
    assert_eq!(k.add_member_command_internal("admin", "zed", None, Some("room1"), UserRole::Member), Ok(()));
    assert!(members_of(&k, "room1").contains(&"zed".to_string()));
    assert_eq!(
        k.add_member_command_internal("admin", "zed", None, None, UserRole::Member),
        Err(KernelError::DomainNotFound)
    );
    assert_eq!(k.remove_member_command_internal("admin", "zed", None, Some("room1")), Ok(()));
    assert!(!members_of(&k, "room1").contains(&"zed".to_string()));
    assert_eq!(k.remove_member_command_internal("mia", "olga", Some("office1"), None), Err(KernelError::NoPermission));
}

#[test]
fn joining_a_room_grants_view_and_edit() {
    let mut k = kernel();
    assert_eq!(k.add_member_to_domain("zed", "room1"), Ok(()));
    assert_eq!(members_of(&k, "room1"), vec!["gus".to_string(), "zed".to_string()]);
    let zed = k.get_member("zed").unwrap();
    assert!(zed.has_permission("room1", Permission::ViewContent));
    assert!(zed.has_permission("room1", Permission::EditMdx));
    assert!(!zed.has_permission("room1", Permission::EditOfficeConfig));
    assert_eq!(k.add_member_to_domain("ghost", "room1"), Err(KernelError::UserNotFound));
    assert_eq!(k.add_member_to_domain("zed", "gone"), Err(KernelError::DomainNotFound));
}

#[test]
fn joining_an_office_also_grants_its_configuration() {
    let mut k = kernel();
    assert_eq!(k.add_member_to_domain("zed", "office1"), Ok(()));
    let zed = k.get_member("zed").unwrap();
    assert!(zed.has_permission("office1", Permission::EditOfficeConfig));
}

#[test]
fn leaving_a_domain_withdraws_its_permissions() {
    let mut k = kernel();
    assert_eq!(k.add_member_to_domain("zed", "room1"), Ok(()));
    assert_eq!(k.remove_member_from_domain("zed", "room1"), Ok(()));
    assert_eq!(members_of(&k, "room1"), vec!["gus".to_string()]);
    assert!(!k.get_member("zed").unwrap().has_permission("room1", Permission::ViewContent));
    assert_eq!(k.remove_member_from_domain("zed", "gone"), Err(KernelError::DomainNotFound));
    assert_eq!(k.remove_member_from_domain("ghost", "room1"), Err(KernelError::UserNotFound));
}

#[test]
fn an_admin_adds_a_new_member_with_a_record_named_after_them() {
    let mut k = kernel();
    assert_eq!(k.add_member("admin", "newbie", Some("office1"), Some("room1"), UserRole::Member), Ok(()));
    let newbie = k.get_member("newbie").unwrap();
    assert_eq!(newbie.name, "User newbie");
    assert!(matches!(newbie.role, UserRole::Member));
    assert!(newbie.has_permission("office1", Permission::EditOfficeConfig));
    assert!(newbie.has_permission("room1", Permission::EditMdx));
    assert!(members_of(&k, "office1").contains(&"newbie".to_string()));
    assert!(members_of(&k, "room1").contains(&"newbie".to_string()));
}

#[test]
fn adding_an_existing_member_changes_their_role_only() {
    let mut k = kernel();
    assert_eq!(k.add_member("admin", "mia", None, None, UserRole::Owner), Ok(()));
    let mia = k.get_member("mia").unwrap();
    assert_eq!(mia.name, "Mia");
    assert!(matches!(mia.role, UserRole::Owner));
}

#[test]
fn a_refused_addition_changes_nothing() {
    let mut k = kernel();
    assert_eq!(k.add_member("mia", "newbie", None, None, UserRole::Member), Err(KernelError::NotAdministrator));
    assert_eq!(k.add_member("admin", "", None, None, UserRole::Member), Err(KernelError::EmptyMemberId));
    assert_eq!(
        k.add_member("admin", "newbie", Some("office1"), Some("gone"), UserRole::Member),
        Err(KernelError::DomainNotFound)
    );
    assert!(k.get_member("newbie").is_none());
    assert_eq!(members_of(&k, "office1"), vec!["olga".to_string()]);
}

#[test]
fn removing_a_member_takes_them_off_every_office_and_room() {
    let mut k = kernel();
    assert_eq!(k.add_member_to_domain("gus", "office1"), Ok(()));
    assert_eq!(k.remove_member("gus"), Ok(()));
    assert!(k.get_member("gus").is_none());
    assert!(members_of(&k, "room1").is_empty());
    assert_eq!(members_of(&k, "office1"), vec!["olga".to_string()]);
    assert_eq!(k.remove_member("mia"), Ok(()));
    assert_eq!(members_of(&k, "ws"), vec!["olga".to_string(), "mia".to_string()]);
}

#[test]
fn roles_and_permissions_are_set_by_admins() {
    let mut k = kernel();
    assert_eq!(k.update_member_role("mia", "gus", UserRole::Admin), Err(KernelError::NotAdministrator));
    assert_eq!(k.update_member_role("admin", "gus", UserRole::Member), Ok(()));
    assert!(matches!(k.get_member("gus").unwrap().role, UserRole::Member));
    assert_eq!(k.update_member_role("admin", "ghost", UserRole::Member), Err(KernelError::UserNotFound));
    assert_eq!(
        k.update_member_permissions("admin", "gus", "room1", vec![Permission::SendMessages, Permission::ReadMessages]),
        Ok(())
    );
    assert_eq!(k.update_member_permissions("admin", "gus", "room1", vec![Permission::ReadMessages]), Ok(()));
    let gus = k.get_member("gus").unwrap();
    assert!(gus.has_permission("room1", Permission::ReadMessages));
    assert!(!gus.has_permission("room1", Permission::SendMessages));
    assert_eq!(
        k.update_member_permissions("olga", "gus", "room1", vec![Permission::All]),
        Err(KernelError::NotAdministrator)
    );
}

#[test]
fn every_member_is_listed_once() {
    let k = kernel();
    let all = k.get_all_members().unwrap();
    assert_eq!(all.len(), 5);
    let mut ids = names(&all);
    ids.sort();
    assert_eq!(ids, vec!["admin", "gus", "mia", "olga", "zed"]);
}

#[test]
fn members_are_queried_for_one_entity_or_two() {
    let k = kernel();
    assert_eq!(names(&k.query_members(Some("ws"), None).unwrap()), vec!["olga".to_string(), "mia".to_string()]);
    assert_eq!(names(&k.query_members(Some("ws"), Some("office1")).unwrap()), vec!["olga".to_string()]);
    assert_eq!(k.query_members(Some("room1"), Some("office1")).unwrap().len(), 0);
    assert_eq!(k.query_members(None, None).unwrap().len(), 5);
    assert_eq!(k.query_members(None, Some("ws")).err(), Some(KernelError::InvalidQuery));
    assert_eq!(k.query_members(Some("gone"), None).err(), Some(KernelError::EntityNotFound));
    assert_eq!(k.query_members(Some("gone"), Some("ws")).err(), Some(KernelError::FirstEntityNotFound));
    assert_eq!(k.query_members(Some("ws"), Some("gone")).err(), Some(KernelError::SecondEntityNotFound));
}

#[test]
fn the_workspace_of_an_office_is_found() {
    let k = kernel();
    let w = k.get_workspace_for_office("olga", "office1").unwrap().unwrap();
    assert_eq!(w.id, "ws");
    assert_eq!(k.get_workspace_for_office("mia", "office1").err(), Some(KernelError::NoPermission));
}

#[test]
fn an_office_outside_every_workspace_has_none() {
    let mut k = kernel();
    let o = k.create_office("admin", "Loose", "", None).unwrap();
    assert!(k.get_workspace_for_office("admin", &o.id).unwrap().is_none());
}

#[test]
fn a_user_arrives_in_their_workspace_or_a_virtual_one() {
    let mut k = kernel();
    assert_eq!(k.load_workspace_hierarchy("mia").unwrap().id, "ws");
    assert_eq!(k.load_workspace_hierarchy("nobody").err(), Some(KernelError::UserDoesNotExist));
    assert_eq!(k.load_workspace_hierarchy("gus").err(), Some(KernelError::NoAccessibleWorkspace));
    assert_eq!(k.add_member_to_domain("zed", "office1"), Ok(()));
    let v = k.load_workspace_hierarchy("zed").unwrap();
    assert_eq!(v.id, "virtual-workspace-zed");
    assert_eq!(v.name, "My Workspace");
    assert_eq!(v.description, "Collection of your accessible offices");
    assert_eq!(v.owner_id, "zed");
    assert_eq!(v.members, vec!["zed".to_string()]);
    assert_eq!(v.offices, vec!["office1".to_string()]);
}
