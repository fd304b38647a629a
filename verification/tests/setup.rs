use citadel_workspace_server_kernel::domain::Domain;
use citadel_workspace_server_kernel::kernel::WorkspaceServerKernel;
use citadel_workspace_server_kernel::permissions::UserRole;
use citadel_workspace_server_kernel::strmap::StrMap;
use citadel_workspace_server_kernel::structure::{
    default_offices, draw_structure_ids, ids_are_fresh, initialize_workspace_structure, place_structure, DrawnIds,
    OfficeSetup, RoomSetup, StructureError,
};
use citadel_workspace_server_kernel::tree::{DomainNode, NodeEntityType, NodeMap, TreeValidator};

fn node(id: &str, parent: Option<&str>, entity_type: NodeEntityType, depth: u32) -> DomainNode {
    DomainNode {
        id: id.to_string(),
        parent_id: parent.map(|s| s.to_string()),
        entity_type,
        depth,
        name: id.to_string(),
        description: String::new(),
        owner_id: String::new(),
        members: vec![],
        children: vec![],
        mdx_content: String::new(),
        chat_enabled: false,
        chat_channel_id: None,
        is_default: false,
        created_at: 0,
        updated_at: 0,
    }
}

fn root_only() -> NodeMap {
    let mut nodes = StrMap::new();
    nodes.insert("workspace-root".to_string(), node("workspace-root", None, NodeEntityType::Workspace, 0));
    nodes
}

fn room(name: &str, chat: bool) -> RoomSetup {
    RoomSetup { name: name.to_string(), description: None, mdx_content: String::new(), chat_enabled: chat }
}

fn office(name: &str, is_default: bool, chat: bool, rooms: Vec<RoomSetup>) -> OfficeSetup {
    OfficeSetup {
        name: name.to_string(),
        description: Some(format!("{} office", name)),
        mdx_content: format!("# {}", name),
        chat_enabled: chat,
        is_default,
        rooms,
    }
}

#[test]
fn the_default_kernel_has_only_the_administrator() {
    let k = WorkspaceServerKernel::default();
    assert_eq!(k.store().domains.len(), 0);
    assert_eq!(k.store().users.len(), 1);
    let admin = k.store().get_user("admin").unwrap();
    assert_eq!(admin.name, "Administrator");
    assert!(matches!(admin.role, UserRole::Admin));
}

#[test]
fn the_root_workspace_is_created_once_and_unclaimed() {
    let mut k = WorkspaceServerKernel::default();
    assert!(k.ensure_root_workspace());
    assert!(!k.ensure_root_workspace());
    match k.store().get_domain("workspace-root") {
        Some(Domain::Workspace { workspace }) => {
            assert_eq!(workspace.name, "Root Workspace");
            assert_eq!(workspace.description, "The main workspace for this instance.");
            assert_eq!(workspace.owner_id, "");
            assert!(workspace.members.is_empty());
        },
        _ => panic!("no root workspace"),
    }
    assert_eq!(k.store().domains.len(), 1);
}

#[test]
fn the_first_office_is_the_default_when_none_is_marked() {
    let offices = vec![office("A", false, false, vec![]), office("B", false, false, vec![])];
    assert_eq!(default_offices(&offices), Ok(vec![true, false]));
    let offices = vec![office("A", false, false, vec![]), office("B", true, false, vec![])];
    assert_eq!(default_offices(&offices), Ok(vec![false, true]));
    assert_eq!(default_offices(&vec![]), Ok(vec![]));
}

#[test]
fn two_default_offices_are_refused_and_nothing_changes() {
    let offices = vec![office("A", true, false, vec![]), office("B", true, false, vec![])];
    assert_eq!(default_offices(&offices), Err(StructureError::MultipleDefaultOffices(2)));
    let mut nodes = root_only();
    assert_eq!(
        initialize_workspace_structure(&mut nodes, &offices, "Office", "Room", 7),
        Err(StructureError::MultipleDefaultOffices(2))
    );
    assert_eq!(nodes.len(), 1);
}

#[test]
fn offices_and_rooms_are_laid_out_under_the_root() {
    let offices = vec![
        office("Main", false, true, vec![room("Lobby", true), room("Quiet", false)]),
        office("Side", false, false, vec![]),
    ];
    let mut nodes = root_only();
    assert_eq!(initialize_workspace_structure(&mut nodes, &offices, "Office", "Room", 42), Ok(()));
    assert_eq!(nodes.len(), 5);
    let root = nodes.get("workspace-root").unwrap();
    assert_eq!(root.children.len(), 2);
    let main = nodes.get(&root.children[0]).unwrap();
    assert_eq!(main.name, "Main");
    assert_eq!(main.description, "Main office");
    assert_eq!(main.mdx_content, "# Main");
    assert_eq!(main.depth, 1);
    assert_eq!(main.parent_id.as_deref(), Some("workspace-root"));
    assert!(main.is_default);
    assert!(main.chat_channel_id.is_some());
    assert_eq!(main.created_at, 42);
    assert_eq!(main.children.len(), 2);
    let lobby = nodes.get(&main.children[0]).unwrap();
    assert_eq!(lobby.name, "Lobby");
    assert_eq!(lobby.depth, 2);
    assert_eq!(lobby.parent_id.as_deref(), Some(main.id.as_str()));
    assert!(lobby.chat_channel_id.is_some());
    let quiet = nodes.get(&main.children[1]).unwrap();
    assert!(quiet.chat_channel_id.is_none());
    assert_eq!(quiet.description, "");
    let side = nodes.get(&root.children[1]).unwrap();
    assert!(!side.is_default);
    assert!(side.chat_channel_id.is_none());
    assert!(matches!(&side.entity_type, NodeEntityType::Child(t) if t == "Office"));
    assert!(TreeValidator::validate_tree(&nodes).is_ok());
}

#[test]
fn the_drawn_ids_fit_the_offices() {
    let offices = vec![office("Main", false, true, vec![room("Lobby", false)])];
    let ids = draw_structure_ids(&offices);
    assert_eq!(ids.len(), 1);
    assert!(ids[0].office_chat.is_some());
    assert_eq!(ids[0].rooms.len(), 1);
    assert!(ids[0].rooms[0].1.is_none());
    assert!(ids_are_fresh(&root_only(), &ids));
}

fn fixed_ids(office: &str, rooms: &[&str]) -> DrawnIds {
    DrawnIds {
        office: office.to_string(),
        office_chat: None,
        rooms: rooms.iter().map(|r| (r.to_string(), None)).collect(),
    }
}

#[test]
fn taken_or_repeated_ids_are_not_fresh() {
    let nodes = root_only();
    assert!(!ids_are_fresh(&nodes, &vec![fixed_ids("workspace-root", &[])]));
    assert!(!ids_are_fresh(&nodes, &vec![fixed_ids("o1", &["o1"])]));
    assert!(!ids_are_fresh(&nodes, &vec![fixed_ids("o1", &["r1"]), fixed_ids("o2", &["r1"])]));
    assert!(ids_are_fresh(&nodes, &vec![fixed_ids("o1", &["r1"]), fixed_ids("o2", &["r2"])]));
}

#[test]
fn a_layout_with_given_ids_places_each_node_under_its_id() {
    let offices = vec![office("Main", true, false, vec![room("Lobby", false)])];
    let ids = vec![fixed_ids("o1", &["r1"])];
    let mut nodes = root_only();
    assert_eq!(place_structure(&mut nodes, &offices, &ids, "Office", "Room", 3), Ok(()));
    assert_eq!(nodes.get("workspace-root").unwrap().children, vec!["o1".to_string()]);
    assert_eq!(nodes.get("o1").unwrap().children, vec!["r1".to_string()]);
    assert_eq!(nodes.get("r1").unwrap().parent_id.as_deref(), Some("o1"));
    assert!(nodes.get("o1").unwrap().is_default);
}

#[test]
fn no_offices_lay_out_nothing() {
    let mut nodes = root_only();
    assert_eq!(initialize_workspace_structure(&mut nodes, &vec![], "Office", "Room", 7), Ok(()));
    assert_eq!(nodes.len(), 1);
    assert!(TreeValidator::validate_tree(&nodes).is_ok());
}

#[test]
fn structure_errors_read_as_sentences() {
    assert_eq!(
        StructureError::MultipleDefaultOffices(12).message(),
        "Multiple default offices found (12). Only one office can be marked as default."
    );
    assert_eq!(StructureError::IdCollision.message(), "A freshly drawn id is already taken");
}
