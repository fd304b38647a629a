use citadel_workspace_server_kernel::commands::{WorkspaceCommand, WorkspaceResponse};
use citadel_workspace_server_kernel::domain::{Domain, Office, Room, Workspace};
use citadel_workspace_server_kernel::kernel::{UpdateOperation, WorkspaceServerKernel};
use citadel_workspace_server_kernel::permissions::{Permission, UserRole};
use citadel_workspace_server_kernel::store::{KernelError, Store};
use citadel_workspace_server_kernel::user::User;

/// admin; "olga" owning office1 with room1; "mia" a member of the workspace;
/// "gus" a guest in room1.
fn kernel() -> WorkspaceServerKernel {
    let mut store = Store::new();
    store.users.insert("admin".into(), User::new("admin".into(), "Admin".into(), UserRole::Admin));
    store.users.insert("olga".into(), User::new("olga".into(), "Olga".into(), UserRole::Owner));
    store.users.insert("mia".into(), User::new("mia".into(), "Mia".into(), UserRole::Member));
    store.users.insert("gus".into(), User::new("gus".into(), "Gus".into(), UserRole::Guest));
    store.domains.insert(
        "ws".into(),
        Domain::Workspace {
            workspace: Workspace {
                id: "ws".into(),
                name: "WS".into(),
                description: String::new(),
                owner_id: "olga".into(),
                members: vec!["olga".into(), "mia".into()],
                offices: vec!["office1".into()],
                metadata: vec![],
            },
        },
    );
    store.domains.insert(
        "office1".into(),
        Domain::Office {
            office: Office {
                id: "office1".into(),
                name: "office1".into(),
                description: String::new(),
                owner_id: "olga".into(),
                members: vec!["olga".into()],
                rooms: vec!["room1".into()],
                mdx_content: String::new(),
            },
        },
    );
    store.domains.insert(
        "room1".into(),
        Domain::Room {
            room: Room {
                id: "room1".into(),
                name: "room1".into(),
                description: String::new(),
                owner_id: "olga".into(),
                office_id: "office1".into(),
                members: vec!["gus".into()],
                mdx_content: String::new(),
            },
        },
    );
    WorkspaceServerKernel::new(store)
}

fn error_text(r: Result<WorkspaceResponse, KernelError>) -> String {
    match r {
        Ok(WorkspaceResponse::Error(m)) => m,
        other => panic!("expected an error answer, got {:?}", other),
    }
}

#[test]
fn an_office_is_created_read_renamed_and_deleted_through_commands() {
    let mut k = kernel();
    let created = k.process_command(
        "admin",
        WorkspaceCommand::CreateOffice { name: "Main".into(), description: "The main office".into() },
    );
    let office = match created {
        Ok(WorkspaceResponse::Office(o)) => o,
        other => panic!("unexpected {:?}", other),
    };
    assert_eq!(office.name, "Main");
    assert_eq!(office.members, vec!["admin".to_string()]);
    let read = k.process_command("admin", WorkspaceCommand::GetOffice { office_id: office.id.clone() });
    assert!(matches!(read, Ok(WorkspaceResponse::Office(o)) if o.id == office.id && o.description == "The main office"));
    let renamed = k.process_command(
        "admin",
        WorkspaceCommand::UpdateOffice { office_id: office.id.clone(), name: Some("Renamed".into()), description: None },
    );
    assert!(matches!(renamed, Ok(WorkspaceResponse::Office(o)) if o.name == "Renamed" && o.description == "The main office"));
    let deleted = k.process_command("admin", WorkspaceCommand::DeleteOffice { office_id: office.id.clone() });
    assert!(matches!(deleted, Ok(WorkspaceResponse::Success)));
    assert_eq!(
        error_text(k.process_command("admin", WorkspaceCommand::GetOffice { office_id: office.id.clone() })),
        "Failed to get office: Entity not found"
    );
}

#[test]
fn a_refused_command_is_answered_with_the_step_and_the_reason() {
    let mut k = kernel();
    assert_eq!(
        error_text(k.process_command("mia", WorkspaceCommand::CreateOffice { name: "X".into(), description: "".into() })),
        "Failed to create office: Only admin users can create offices"
    );
    assert_eq!(
        error_text(k.process_command("mia", WorkspaceCommand::DeleteRoom { room_id: "room1".into() })),
        "Failed to delete room: Permission denied: no permission for this operation"
    );
    assert_eq!(
        error_text(k.process_command("nobody", WorkspaceCommand::GetOffice { office_id: "office1".into() })),
        "Failed to get office: User not found"
    );
    assert!(k.store().get_domain("room1").is_some());
}

#[test]
fn a_room_is_created_read_renamed_and_deleted_through_commands() {
    let mut k = kernel();
    let created = k.process_command(
        "olga",
        WorkspaceCommand::CreateRoom { office_id: "office1".into(), name: "Standup".into(), description: "daily".into() },
    );
    let room = match created {
        Ok(WorkspaceResponse::Room(r)) => r,
        other => panic!("unexpected {:?}", other),
    };
    assert_eq!(room.name, "Standup");
    assert!(matches!(
        k.process_command("olga", WorkspaceCommand::GetRoom { room_id: room.id.clone() }),
        Ok(WorkspaceResponse::Room(r)) if r.id == room.id
    ));
    assert!(matches!(
        k.process_command(
            "olga",
            WorkspaceCommand::UpdateRoom { room_id: room.id.clone(), name: None, description: Some("weekly".into()) },
        ),
        Ok(WorkspaceResponse::Room(r)) if r.name == "Standup" && r.description == "weekly"
    ));
    assert!(matches!(
        k.process_command("olga", WorkspaceCommand::DeleteRoom { room_id: room.id.clone() }),
        Ok(WorkspaceResponse::Success)
    ));
    assert!(k.store().get_domain(&room.id).is_none());
}

#[test]
fn listings_of_offices_and_rooms_pass_a_refusal_on() {
    let k0 = kernel();
    let mut k = k0;
    assert!(matches!(k.process_command("admin", WorkspaceCommand::ListOffices), Ok(WorkspaceResponse::Offices(v)) if v.is_empty()));
    assert!(matches!(
        k.process_command("admin", WorkspaceCommand::ListRooms { office_id: "office1".into() }),
        Ok(WorkspaceResponse::Rooms(v)) if v.len() == 1 && v[0].id == "room1"
    ));
    assert_eq!(
        k.process_command("mia", WorkspaceCommand::ListRooms { office_id: "office1".into() }).err(),
        Some(KernelError::NoPermission)
    );
}

#[test]
fn members_are_added_listed_changed_and_removed_through_commands() {
    let mut k = kernel();
    let added = k.process_command(
        "admin",
        WorkspaceCommand::AddMember { user_id: "bob".into(), office_id: Some("office1".into()), room_id: None, role: UserRole::Member },
    );
    assert!(matches!(added, Ok(WorkspaceResponse::Success)));
    let listed = k.process_command("admin", WorkspaceCommand::ListMembers { office_id: Some("office1".into()), room_id: None });
    match listed {
        Ok(WorkspaceResponse::Members(v)) => {
            let ids: Vec<String> = v.iter().map(|u| u.id.clone()).collect();
            assert_eq!(ids, vec!["olga".to_string(), "bob".to_string()]);
        }
        other => panic!("unexpected {:?}", other),
    }
    let changed = k.process_command("admin", WorkspaceCommand::UpdateMemberRole { user_id: "bob".into(), role: UserRole::Owner });
    assert!(matches!(changed, Ok(WorkspaceResponse::Member(u)) if u.id == "bob" && matches!(u.role, UserRole::Owner)));
    let granted = k.process_command(
        "admin",
        WorkspaceCommand::UpdateMemberPermissions {
            user_id: "bob".into(),
            domain_id: "office1".into(),
            permissions: vec![Permission::EditMdx],
            operation: UpdateOperation::Replace,
        },
    );
    assert!(matches!(granted, Ok(WorkspaceResponse::Success)));
    let removed = k.process_command(
        "admin",
        WorkspaceCommand::RemoveMember { user_id: "bob".into(), office_id: Some("office1".into()), room_id: None },
    );
    assert!(matches!(removed, Ok(WorkspaceResponse::Success)));
    assert!(!k.store().get_domain("office1").unwrap().members().contains(&"bob".to_string()));
}

#[test]
fn member_commands_answer_refusals_and_missing_records() {
    let mut k = kernel();
    assert_eq!(error_text(k.process_command("admin", WorkspaceCommand::GetMember { user_id: "ghost".into() })), "Member not found");
    assert!(matches!(
        k.process_command("mia", WorkspaceCommand::GetMember { user_id: "olga".into() }),
        Ok(WorkspaceResponse::Member(u)) if u.name == "Olga"
    ));
    assert_eq!(
        error_text(k.process_command("mia", WorkspaceCommand::UpdateMemberRole { user_id: "gus".into(), role: UserRole::Admin })),
        "Failed to update member role: Only administrators can do this"
    );
    assert_eq!(
        error_text(k.process_command("admin", WorkspaceCommand::UpdateMemberRole { user_id: "ghost".into(), role: UserRole::Admin })),
        "Failed to update member role: User not found"
    );
    assert_eq!(
        error_text(k.process_command("admin", WorkspaceCommand::ListMembers { office_id: None, room_id: None })),
        "Must specify either office_id or room_id"
    );
    assert_eq!(
        error_text(k.process_command(
            "admin",
            WorkspaceCommand::ListMembers { office_id: Some("office1".into()), room_id: Some("room1".into()) },
        )),
        "Must specify either office_id or room_id"
    );
    assert_eq!(
        error_text(k.process_command("admin", WorkspaceCommand::ListMembers { office_id: None, room_id: Some("nowhere".into()) })),
        "Failed to list members: Domain not found"
    );
}
