use citadel_workspace_server_kernel::display_name::{display_name_for, repaired_name};
use citadel_workspace_server_kernel::kernel::WorkspaceServerKernel;
use citadel_workspace_server_kernel::permissions::UserRole;
use citadel_workspace_server_kernel::store::Store;
use citadel_workspace_server_kernel::user::User;

fn user(id: &str, name: &str) -> User {
    User::new(id.into(), name.into(), UserRole::Member)
}

#[test]
fn the_registered_full_name_is_the_display_name() {
    assert_eq!(display_name_for("bob0924", Some("Bob Brown")), "Bob Brown");
}

#[test]
fn the_username_stands_in_when_there_is_no_full_name() {
    assert_eq!(display_name_for("bob0924", None), "bob0924");
    assert_eq!(display_name_for("bob0924", Some("   ")), "bob0924");
}

#[test]
fn a_placeholder_name_is_repaired() {
    assert_eq!(repaired_name(&user("bob0924", "bob0924"), Some("Bob Brown")).as_deref(), Some("Bob Brown"));
}

#[test]
fn a_chosen_name_is_never_replaced() {
    assert_eq!(repaired_name(&user("bob0924", "Robert"), Some("Bob Brown")), None);
}

#[test]
fn nothing_is_written_without_a_full_name() {
    assert_eq!(repaired_name(&user("bob0924", "bob0924"), None), None);
}

#[test]
fn surrounding_whitespace_is_trimmed_from_the_full_name() {
    assert_eq!(display_name_for("bob0924", Some("  Bob Brown\t\n")), "Bob Brown");
    assert_eq!(display_name_for("bob0924", Some("\u{3000}Bob\u{a0}")), "Bob");
}

#[test]
fn a_repaired_record_is_not_repaired_again() {
    let mut u = user("bob0924", "bob0924");
    let name = repaired_name(&u, Some("Bob Brown")).unwrap();
    u.name = name;
    assert_eq!(repaired_name(&u, Some("Bob Brown")), None);
}

#[test]
fn a_stored_placeholder_name_is_repaired_once() {
    let mut store = Store::new();
    store.users.insert("bob0924".into(), user("bob0924", "bob0924"));
    store.users.insert("rob".into(), user("rob", "Robert"));
    let mut k = WorkspaceServerKernel::new(store);
    assert!(k.repair_placeholder_name("bob0924", Some("Bob Brown")));
    assert_eq!(k.store().get_user("bob0924").unwrap().name, "Bob Brown");
    assert!(!k.repair_placeholder_name("bob0924", Some("Bob Brown")));
    assert!(!k.repair_placeholder_name("rob", Some("Rob R")));
    assert_eq!(k.store().get_user("rob").unwrap().name, "Robert");
    assert!(!k.repair_placeholder_name("nobody", Some("N")));
}
