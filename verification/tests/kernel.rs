use citadel_workspace_server_kernel::domain::{Domain, DomainEntity, Office, Room, Workspace};
use citadel_workspace_server_kernel::kernel::{MemberAction, UpdateOperation, WorkspaceServerKernel};
use citadel_workspace_server_kernel::permissions::{Permission, UserRole};
use citadel_workspace_server_kernel::store::{KernelError, Store};
use citadel_workspace_server_kernel::transaction::WriteTransaction;
use citadel_workspace_server_kernel::user::User;

fn workspace(id: &str, owner: &str, members: &[&str], offices: &[&str]) -> Domain {
    Domain::Workspace {
        workspace: Workspace {
            id: id.to_string(),
            name: "WS".to_string(),
            description: String::new(),
            owner_id: owner.to_string(),
            members: members.iter().map(|s| s.to_string()).collect(),
            offices: offices.iter().map(|s| s.to_string()).collect(),
            metadata: vec![],
        },
    }
}

fn office(id: &str, owner: &str, members: &[&str], rooms: &[&str]) -> Domain {
    Domain::Office {
        office: Office {
            id: id.to_string(),
            name: id.to_string(),
            description: String::new(),
            owner_id: owner.to_string(),
            members: members.iter().map(|s| s.to_string()).collect(),
            rooms: rooms.iter().map(|s| s.to_string()).collect(),
            mdx_content: String::new(),
        },
    }
}

fn room(id: &str, office_id: &str, owner: &str, members: &[&str]) -> Domain {
    Domain::Room {
        room: Room {
            id: id.to_string(),
            name: id.to_string(),
            description: String::new(),
            owner_id: owner.to_string(),
            office_id: office_id.to_string(),
            members: members.iter().map(|s| s.to_string()).collect(),
            mdx_content: String::new(),
        },
    }
}

/// admin; owner "olga" of office1; "mia" a member of the workspace; "gus" a
/// guest in room1; "zed" a member belonging to nothing.
fn kernel() -> WorkspaceServerKernel {
    let mut store = Store::new();
    store.users.insert("admin".into(), User::new("admin".into(), "Admin".into(), UserRole::Admin));
    store.users.insert("olga".into(), User::new("olga".into(), "Olga".into(), UserRole::Owner));
    store.users.insert("mia".into(), User::new("mia".into(), "Mia".into(), UserRole::Member));
    store.users.insert("gus".into(), User::new("gus".into(), "Gus".into(), UserRole::Guest));
    store.users.insert("zed".into(), User::new("zed".into(), "Zed".into(), UserRole::Member));
    store.domains.insert("ws".into(), workspace("ws", "olga", &["olga", "mia"], &["office1"]));
    store.domains.insert("office1".into(), office("office1", "olga", &["olga"], &["room1"]));
    store.domains.insert("room1".into(), room("room1", "office1", "olga", &["gus"]));
    WorkspaceServerKernel::new(store)
}

fn members_of(k: &WorkspaceServerKernel, id: &str) -> Vec<String> {
    k.store().get_domain(id).map(|d| d.members().clone()).unwrap_or_default()
}

#[test]
fn an_admin_holds_every_permission_even_on_a_missing_entity() {
    let k = kernel();
    assert_eq!(k.check_entity_permission("admin", "nowhere", Permission::DeleteRoom), Ok(true));
}

#[test]
fn an_unknown_user_or_entity_is_an_error() {
    let k = kernel();
    assert_eq!(k.check_entity_permission("nobody", "ws", Permission::ViewContent), Err(KernelError::UserNotFound));
    assert_eq!(k.check_entity_permission("mia", "nowhere", Permission::ViewContent), Err(KernelError::DomainNotFound));
}

#[test]
fn the_owner_holds_everything_on_what_they_own() {
    let k = kernel();
    assert_eq!(k.check_entity_permission("olga", "office1", Permission::DeleteOffice), Ok(true));
}

#[test]
fn a_member_only_views_and_inherits_view_from_the_workspace() {
    let k = kernel();
    assert_eq!(k.check_entity_permission("mia", "ws", Permission::ViewContent), Ok(true));
    assert_eq!(k.check_entity_permission("mia", "ws", Permission::EditContent), Ok(false));
    assert_eq!(k.check_entity_permission("mia", "office1", Permission::ViewContent), Ok(true));
    assert_eq!(k.check_entity_permission("mia", "room1", Permission::ViewContent), Ok(true));
    assert_eq!(k.check_entity_permission("mia", "room1", Permission::SendMessages), Ok(false));
}

#[test]
fn a_guest_gets_nothing_from_membership() {
    let k = kernel();
    assert_eq!(k.check_entity_permission("gus", "room1", Permission::ViewContent), Ok(false));
}

#[test]
fn an_outsider_gets_nothing() {
    let k = kernel();
    assert_eq!(k.check_entity_permission("zed", "office1", Permission::ViewContent), Ok(false));
}

#[test]
fn an_explicit_grant_counts() {
    let mut k = kernel();
    assert_eq!(k.update_permissions_for_member("olga", "gus", "room1", &[Permission::SendMessages], UpdateOperation::Add), Ok(()));
    assert_eq!(k.check_entity_permission("gus", "room1", Permission::SendMessages), Ok(true));
}

#[test]
fn role_checks_follow_rank_and_membership() {
    let k = kernel();
    assert_eq!(k.check_permission("admin", Some("nowhere"), &UserRole::Owner), Ok(()));
    assert_eq!(k.check_permission("gus", None, &UserRole::Member), Err(KernelError::InsufficientPrivileges));
    assert_eq!(k.check_permission("mia", Some("ws"), &UserRole::Member), Ok(()));
    assert_eq!(k.check_permission("zed", Some("ws"), &UserRole::Member), Err(KernelError::NotADomainMember));
    assert_eq!(k.check_permission("zed", Some("gone"), &UserRole::Member), Err(KernelError::DomainNotFound));
    assert_eq!(k.check_permission("nobody", None, &UserRole::Guest), Err(KernelError::UserNotFound));
}

#[test]
fn domain_admins_are_admins_owners_and_holders_of_all() {
    let mut k = kernel();
    assert_eq!(k.check_domain_admin("olga", "room1"), Ok(true));
    assert_eq!(k.check_domain_admin("mia", "room1"), Ok(false));
    assert_eq!(k.check_domain_admin("mia", "gone"), Err(KernelError::DomainNotFound));
    assert_eq!(k.set_domain_permission("olga", "office1", "olga", Permission::All, true), Ok(()));
    assert_eq!(k.is_domain_admin("mia", "ws"), Ok(false));
    assert_eq!(k.is_owner("olga", "ws"), Ok(true));
    assert_eq!(k.is_owner("olga", "gone"), Err(KernelError::DomainNotFound));
}

#[test]
fn permissions_are_added_removed_and_replaced() {
    let mut k = kernel();
    assert_eq!(
        k.update_permissions_for_member("olga", "gus", "room1", &[Permission::SendMessages, Permission::EditMdx], UpdateOperation::Add),
        Ok(())
    );
    assert_eq!(k.update_permissions_for_member("olga", "gus", "room1", &[Permission::EditMdx], UpdateOperation::Remove), Ok(()));
    let gus = k.store().get_user("gus").unwrap();
    assert!(gus.has_permission("room1", Permission::SendMessages));
    assert!(!gus.has_permission("room1", Permission::EditMdx));
    assert_eq!(k.update_permissions_for_member("olga", "gus", "room1", &[Permission::Themes], UpdateOperation::Replace), Ok(()));
    let gus = k.store().get_user("gus").unwrap();
    assert!(gus.has_permission("room1", Permission::Themes));
    assert!(!gus.has_permission("room1", Permission::SendMessages));
}

#[test]
fn a_refused_permission_update_changes_nothing() {
    let mut k = kernel();
    assert_eq!(
        k.update_permissions_for_member("mia", "gus", "room1", &[Permission::All], UpdateOperation::Add),
        Err(KernelError::NotDomainAdmin)
    );
    assert_eq!(
        k.update_permissions_for_member("olga", "zed", "room1", &[Permission::All], UpdateOperation::Add),
        Err(KernelError::MemberNotInDomain)
    );
    assert_eq!(
        k.update_permissions_for_member("olga", "ghost", "room1", &[Permission::All], UpdateOperation::Add),
        Err(KernelError::MemberNotFound)
    );
    assert!(!k.store().get_user("zed").unwrap().has_permission("room1", Permission::All));
}

#[test]
fn adding_a_user_to_a_domain_adds_them_once_and_sets_their_role() {
    let mut k = kernel();
    assert_eq!(k.add_user_to_domain("admin", "zed", "office1", UserRole::Guest), Ok(()));
    assert_eq!(k.add_user_to_domain("admin", "zed", "office1", UserRole::Guest), Ok(()));
    assert_eq!(members_of(&k, "office1"), vec!["olga".to_string(), "zed".to_string()]);
    assert!(matches!(k.store().get_user("zed").unwrap().role, UserRole::Guest));
}

#[test]
fn adding_needs_manage_users_and_existing_records() {
    let mut k = kernel();
    assert_eq!(k.add_user_to_domain("mia", "zed", "office1", UserRole::Member), Err(KernelError::NoPermission));
    assert_eq!(k.add_user_to_domain("admin", "ghost", "office1", UserRole::Member), Err(KernelError::UserNotFound));
    assert_eq!(k.add_user_to_domain("admin", "zed", "gone", UserRole::Member), Err(KernelError::DomainNotFound));
    assert_eq!(members_of(&k, "office1"), vec!["olga".to_string()]);
}

#[test]
fn removing_a_user_from_a_domain() {
    let mut k = kernel();
    assert_eq!(k.remove_user_from_domain("olga", "gus", "room1"), Ok(()));
    assert!(members_of(&k, "room1").is_empty());
    assert_eq!(k.remove_user_from_domain("mia", "olga", "office1"), Err(KernelError::NoPermission));
}

#[test]
fn member_lists_are_updated_directly() {
    let mut k = kernel();
    assert_eq!(k.update_domain_members("room1", "zed", MemberAction::Add), Ok(()));
    assert_eq!(members_of(&k, "room1"), vec!["gus".to_string(), "zed".to_string()]);
    assert_eq!(k.update_domain_members("room1", "gus", MemberAction::Remove), Ok(()));
    assert_eq!(members_of(&k, "room1"), vec!["zed".to_string()]);
    assert_eq!(k.update_domain_members("gone", "gus", MemberAction::Remove), Err(KernelError::DomainNotFound));
}

#[test]
fn only_admins_create_users_and_set_roles() {
    let mut k = kernel();
    assert_eq!(k.create_user("mia", "newbie", UserRole::Member), Err(KernelError::NotAdministrator));
    assert_eq!(k.create_user("admin", "newbie", UserRole::Member), Ok(()));
    assert_eq!(k.set_user_role("admin", "mia", UserRole::Owner), Ok(()));
    assert!(matches!(k.store().get_user("mia").unwrap().role, UserRole::Owner));
    assert_eq!(k.set_user_role("mia", "gus", UserRole::Admin), Err(KernelError::NotAdministrator));
    assert_eq!(k.set_user_role("admin", "ghost", UserRole::Admin), Err(KernelError::UserNotFound));
}

#[test]
fn deleting_an_entity_needs_all_on_it() {
    let mut k = kernel();
    assert_eq!(k.delete_entity("mia", "room1"), Err(KernelError::NoPermission));
    assert_eq!(k.delete_entity("olga", "room1"), Ok(()));
    assert!(k.store().get_domain("room1").is_none());
    assert_eq!(k.delete_entity("admin", "room1"), Err(KernelError::EntityNotFound));
}

#[test]
fn effective_permissions_are_what_the_check_grants() {
    let k = kernel();
    assert_eq!(k.effective_permissions("mia", "office1"), Ok(vec![Permission::ViewContent]));
    assert_eq!(k.effective_permissions("gus", "room1"), Ok(vec![]));
    assert_eq!(k.effective_permissions("olga", "office1").map(|p| p.len()), Ok(Permission::all_variants().len()));
    assert_eq!(k.effective_permissions("ghost", "office1"), Err(KernelError::UserNotFound));
}

#[test]
fn a_connecting_user_is_enrolled_in_the_root_workspace() {
    let mut store = Store::new();
    store.domains.insert("workspace-root".into(), workspace("workspace-root", "", &[], &[]));
    let mut k = WorkspaceServerKernel::new(store);
    assert_eq!(k.enroll_on_connect("amy", None), Ok(()));
    assert_eq!(members_of(&k, "workspace-root"), vec!["amy".to_string()]);
    let amy = k.store().get_user("amy").unwrap();
    assert_eq!(amy.name, "amy");
    assert!(matches!(amy.role, UserRole::Member));
    assert_eq!(k.enroll_on_connect("amy", None), Ok(()));
    assert_eq!(members_of(&k, "workspace-root"), vec!["amy".to_string()]);
    let mut empty = WorkspaceServerKernel::new(Store::new());
    assert_eq!(empty.enroll_on_connect("amy", None), Err(KernelError::DomainNotFound));
    assert_eq!(k.enroll_on_connect("bob0924", Some("  Bob Brown ")), Ok(()));
    assert_eq!(k.store().get_user("bob0924").unwrap().name, "Bob Brown");
}

#[test]
fn a_rolled_back_transaction_restores_the_store() {
    let k = kernel();
    let mut tx = WriteTransaction::new(k.into_store());
    tx.insert_domain("office2".into(), office("office2", "mia", &[], &[]));
    assert_eq!(tx.add_user_to_domain("zed", "office1", UserRole::Owner), Ok(()));
    assert_eq!(tx.remove_user_from_domain("gus", "room1"), Ok(()));
    let removed = tx.remove_domain("ws").unwrap();
    assert_eq!(removed.id(), "ws");
    tx.insert_user("new".into(), User::new("new".into(), "New".into(), UserRole::Guest));
    assert!(tx.remove_user("mia").is_some());
    let store = tx.rollback();
    assert!(store.get_domain("office2").is_none());
    assert!(store.get_domain("ws").is_some());
    assert!(store.get_user("new").is_none());
    assert!(store.get_user("mia").is_some());
    assert!(matches!(store.get_user("zed").unwrap().role, UserRole::Member));
    assert_eq!(store.get_domain("office1").unwrap().members(), &vec!["olga".to_string()]);
    assert_eq!(store.get_domain("room1").unwrap().members(), &vec!["gus".to_string()]);
}

#[test]
fn a_rollback_restores_what_an_insert_overwrote() {
    let k = kernel();
    let mut tx = WriteTransaction::new(k.into_store());
    tx.insert_domain("office1".into(), office("office1", "zed", &["zed"], &[]));
    tx.insert_user("mia".into(), User::new("mia".into(), "Other".into(), UserRole::Admin));
    let store = tx.rollback();
    assert_eq!(store.get_domain("office1").unwrap().members(), &vec!["olga".to_string()]);
    assert_eq!(store.get_user("mia").unwrap().name, "Mia");
}

#[test]
fn a_committed_transaction_keeps_its_changes() {
    let k = kernel();
    let mut tx = WriteTransaction::new(k.into_store());
    assert_eq!(tx.update_domain("gone", office("gone", "x", &[], &[])), Err(KernelError::DomainNotFound));
    assert_eq!(tx.add_member("zed", "room1"), Ok(()));
    let store = tx.commit();
    assert_eq!(store.get_domain("room1").unwrap().members(), &vec!["gus".to_string(), "zed".to_string()]);
}

#[test]
fn entities_convert_to_and_from_domains() {
    let o = Office::create("o9".into(), "Nine", "An office");
    assert_eq!(o.domain_id(), "o9");
    let d = o.into_domain();
    assert!(Room::from_domain(d).is_none());
    let r = Room::create("r9".into(), "Room", "");
    assert_eq!(r.domain_id(), "");
    let w = Workspace::create("ignored".into(), "W", "D");
    assert_eq!(w.id(), "workspace-root");
    assert!(Workspace::from_domain(w.into_domain()).is_some());
}
