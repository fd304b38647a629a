use citadel_workspace_server_kernel::tree::{
    DomainNode, NestingRule, NodeEntityType, NodeMap, NodeMutation, TreeSchema, TreeValidationError, TreeValidator,
};
use citadel_workspace_server_kernel::strmap::StrMap;

fn create_test_node(id: &str, parent_id: Option<&str>, entity_type: NodeEntityType, depth: u32) -> DomainNode {
    DomainNode {
        id: id.to_string(),
        parent_id: parent_id.map(|s| s.to_string()),
        entity_type,
        depth,
        name: format!("Test {}", id),
        description: String::new(),
        owner_id: "owner".to_string(),
        members: vec![],
        children: vec![],
        mdx_content: String::new(),
        chat_enabled: false,
        chat_channel_id: None,
        is_default: false,
        created_at: 0,
        updated_at: 0,
    }
}

fn office(id: &str, parent: &str) -> DomainNode {
    create_test_node(id, Some(parent), NodeEntityType::Child("Office".to_string()), 1)
}

fn three_levels() -> NodeMap {
    let mut nodes = StrMap::new();
    let mut ws = create_test_node("ws1", None, NodeEntityType::Workspace, 0);
    ws.children = vec!["office1".to_string()];
    nodes.insert("ws1".to_string(), ws);
    let mut office = create_test_node("office1", Some("ws1"), NodeEntityType::Child("Office".to_string()), 1);
    office.children = vec!["room1".to_string()];
    nodes.insert("office1".to_string(), office);
    nodes.insert(
        "room1".to_string(),
        create_test_node("room1", Some("office1"), NodeEntityType::Child("Room".to_string()), 2),
    );
    nodes
}

#[test]
fn test_empty_tree_is_valid() {
    let nodes: NodeMap = StrMap::new();
    assert!(TreeValidator::validate_tree(&nodes).is_ok());
}

#[test]
fn test_single_root_is_valid() {
    let mut nodes = StrMap::new();
    nodes.insert("ws1".to_string(), create_test_node("ws1", None, NodeEntityType::Workspace, 0));
    assert!(TreeValidator::validate_tree(&nodes).is_ok());
}

#[test]
fn test_multiple_roots_error() {
    let mut nodes = StrMap::new();
    nodes.insert("ws1".to_string(), create_test_node("ws1", None, NodeEntityType::Workspace, 0));
    nodes.insert("ws2".to_string(), create_test_node("ws2", None, NodeEntityType::Workspace, 0));
    let result = TreeValidator::validate_tree(&nodes);
    match result {
        Err(TreeValidationError::MultipleRoots { mut root_ids }) => {
            root_ids.sort();
            assert_eq!(root_ids, vec!["ws1".to_string(), "ws2".to_string()]);
        }
        other => panic!("unexpected {:?}", other),
    }
}

#[test]
fn test_dangling_parent_error() {
    let mut nodes = StrMap::new();
    nodes.insert("ws1".to_string(), create_test_node("ws1", None, NodeEntityType::Workspace, 0));
    nodes.insert(
        "office1".to_string(),
        create_test_node("office1", Some("nonexistent"), NodeEntityType::Child("Office".to_string()), 1),
    );
    let result = TreeValidator::validate_tree(&nodes);
    assert!(matches!(result, Err(TreeValidationError::DanglingNode { .. })));
}

#[test]
fn test_valid_two_level_tree() {
    let mut nodes = StrMap::new();
    let mut ws = create_test_node("ws1", None, NodeEntityType::Workspace, 0);
    ws.children = vec!["office1".to_string()];
    nodes.insert("ws1".to_string(), ws);
    nodes.insert(
        "office1".to_string(),
        create_test_node("office1", Some("ws1"), NodeEntityType::Child("Office".to_string()), 1),
    );
    assert!(TreeValidator::validate_tree(&nodes).is_ok());
}

#[test]
fn test_orphan_subtree_error() {
    let mut nodes = StrMap::new();
    let mut ws = create_test_node("ws1", None, NodeEntityType::Workspace, 0);
    ws.children = vec!["office1".to_string()];
    nodes.insert("ws1".to_string(), ws);
    nodes.insert(
        "office1".to_string(),
        create_test_node("office1", Some("ws1"), NodeEntityType::Child("Office".to_string()), 1),
    );
    let mut orphan_parent =
        create_test_node("orphan_office", Some("ws1"), NodeEntityType::Child("Office".to_string()), 1);
    orphan_parent.children = vec!["orphan_room".to_string()];
    nodes.insert("orphan_office".to_string(), orphan_parent);
    nodes.insert(
        "orphan_room".to_string(),
        create_test_node("orphan_room", Some("orphan_office"), NodeEntityType::Child("Room".to_string()), 2),
    );
    let result = TreeValidator::validate_tree(&nodes);
    match result {
        Err(TreeValidationError::OrphanSubtree { mut disconnected_node_ids }) => {
            disconnected_node_ids.sort();
            assert_eq!(disconnected_node_ids, vec!["orphan_office".to_string(), "orphan_room".to_string()]);
        }
        other => panic!("unexpected {:?}", other),
    }
}

#[test]
fn test_move_to_descendant_error() {
    let nodes = three_levels();
    let mutation = NodeMutation::Move { node_id: "office1".to_string(), new_parent_id: "room1".to_string() };
    let result = TreeValidator::validate_mutation(&nodes, &mutation);
    assert!(matches!(result, Err(TreeValidationError::WouldCreateCycle { ref node_id, ref new_parent_id })
        if node_id == "office1" && new_parent_id == "room1"));
}

#[test]
fn test_delete_root_error() {
    let mut nodes = StrMap::new();
    nodes.insert("ws1".to_string(), create_test_node("ws1", None, NodeEntityType::Workspace, 0));
    let mutation = NodeMutation::Delete { node_id: "ws1".to_string() };
    let result = TreeValidator::validate_mutation(&nodes, &mutation);
    assert!(matches!(result, Err(TreeValidationError::CannotDeleteRoot { ref node_id }) if node_id == "ws1"));
}

#[test]
fn test_schema_depth_validation() {
    let mut nodes = three_levels();
    if let Some(mut room) = nodes.remove("room1") {
        room.children = vec!["deep1".to_string()];
        nodes.insert("room1".to_string(), room);
    }
    nodes.insert(
        "deep1".to_string(),
        create_test_node("deep1", Some("room1"), NodeEntityType::Child("Deep".to_string()), 3),
    );
    let schema = TreeSchema { id: "test".to_string(), name: "Test Schema".to_string(), rules: vec![], max_depth: Some(2) };
    let result = TreeValidator::validate_tree_with_schema(&nodes, &schema);
    assert!(matches!(result, Err(TreeValidationError::DepthExceedsSchema { ref node_id, depth: 3, max_depth: 2 })
        if node_id == "deep1"));
}

#[test]
fn a_structural_failure_is_passed_on_by_the_schema_check() {
    let nodes = three_levels();
    let schema = TreeSchema { id: "s".to_string(), name: "S".to_string(), rules: vec![], max_depth: Some(5) };
    let mutation = NodeMutation::Move { node_id: "office1".to_string(), new_parent_id: "room1".to_string() };
    assert!(matches!(
        TreeValidator::validate_mutation_with_schema(&nodes, &mutation, &schema),
        Err(TreeValidationError::WouldCreateCycle { ref node_id, ref new_parent_id })
            if node_id == "office1" && new_parent_id == "room1"
    ));
    let create = NodeMutation::Create {
        node_id: "x".to_string(),
        parent_id: Some("ws1".to_string()),
        node_type: "Room".to_string(),
        depth: 9,
    };
    assert!(matches!(
        TreeValidator::validate_mutation_with_schema(&nodes, &create, &schema),
        Err(TreeValidationError::DepthExceedsSchema { ref node_id, depth: 9, max_depth: 5 }) if node_id == "new_node"
    ));
}

#[test]
fn a_move_is_refused_by_the_depth_of_its_whole_subtree() {
    let mut nodes = three_levels();
    let mut ws2 = create_test_node("office2", Some("ws1"), NodeEntityType::Child("Office".to_string()), 1);
    ws2.children = vec![];
    nodes.insert("office2".to_string(), ws2);
    let schema = TreeSchema {
        id: "s".to_string(),
        name: "S".to_string(),
        rules: vec![NestingRule { parent_type: "Office".to_string(), allowed_child_types: vec!["Office".to_string()] }],
        max_depth: Some(2),
    };
    let m = NodeMutation::Move { node_id: "office1".to_string(), new_parent_id: "office2".to_string() };
    assert!(matches!(
        TreeValidator::validate_mutation_with_schema(&nodes, &m, &schema),
        Err(TreeValidationError::DepthExceedsSchema { ref node_id, depth: 3, max_depth: 2 }) if node_id == "office1"
    ));
}

#[test]
fn test_get_descendants() {
    let mut nodes = StrMap::new();
    let mut ws = create_test_node("ws1", None, NodeEntityType::Workspace, 0);
    ws.children = vec!["office1".to_string(), "office2".to_string()];
    nodes.insert("ws1".to_string(), ws);
    let mut office1 = create_test_node("office1", Some("ws1"), NodeEntityType::Child("Office".to_string()), 1);
    office1.children = vec!["room1".to_string()];
    nodes.insert("office1".to_string(), office1);
    nodes.insert(
        "office2".to_string(),
        create_test_node("office2", Some("ws1"), NodeEntityType::Child("Office".to_string()), 1),
    );
    nodes.insert(
        "room1".to_string(),
        create_test_node("room1", Some("office1"), NodeEntityType::Child("Room".to_string()), 2),
    );
    let descendants = TreeValidator::get_descendants(&nodes, "ws1");
    assert_eq!(descendants.len(), 3);
    assert!(descendants.iter().any(|s| s == "office1"));
    assert!(descendants.iter().any(|s| s == "office2"));
    assert!(descendants.iter().any(|s| s == "room1"));
}

#[test]
fn test_get_path_to_root() {
    let nodes = three_levels();
    let path = TreeValidator::get_path_to_root(&nodes, "room1");
    assert_eq!(path, vec!["ws1", "office1", "room1"]);
}

#[test]
fn a_cycle_of_parents_is_detected() {
    let mut nodes = StrMap::new();
    nodes.insert("ws1".to_string(), create_test_node("ws1", None, NodeEntityType::Workspace, 0));
    nodes.insert("a".to_string(), office("a", "b"));
    nodes.insert("b".to_string(), office("b", "a"));
    let result = TreeValidator::validate_tree(&nodes);
    assert!(matches!(result, Err(TreeValidationError::CycleDetected { .. })));
}

#[test]
fn no_root_is_reported_when_every_node_has_a_parent() {
    let mut nodes = StrMap::new();
    nodes.insert("a".to_string(), office("a", "b"));
    nodes.insert("b".to_string(), office("b", "a"));
    assert!(matches!(TreeValidator::validate_tree(&nodes), Err(TreeValidationError::NoRoot)));
}

#[test]
fn moving_under_the_workspace_root_sentinel_is_allowed() {
    let nodes = three_levels();
    let mutation = NodeMutation::Move { node_id: "room1".to_string(), new_parent_id: "workspace-root".to_string() };
    assert!(TreeValidator::validate_mutation(&nodes, &mutation).is_ok());
}

#[test]
fn moving_a_missing_node_or_under_a_missing_parent_is_refused() {
    let nodes = three_levels();
    let missing_node = NodeMutation::Move { node_id: "ghost".to_string(), new_parent_id: "ws1".to_string() };
    assert!(matches!(
        TreeValidator::validate_mutation(&nodes, &missing_node),
        Err(TreeValidationError::NodeNotFound { .. })
    ));
    let missing_parent = NodeMutation::Move { node_id: "room1".to_string(), new_parent_id: "ghost".to_string() };
    assert!(matches!(
        TreeValidator::validate_mutation(&nodes, &missing_parent),
        Err(TreeValidationError::ParentNotFound { .. })
    ));
}

#[test]
fn moving_a_node_under_itself_is_a_cycle() {
    let nodes = three_levels();
    let mutation = NodeMutation::Move { node_id: "room1".to_string(), new_parent_id: "room1".to_string() };
    assert!(matches!(
        TreeValidator::validate_mutation(&nodes, &mutation),
        Err(TreeValidationError::WouldCreateCycle { .. })
    ));
}

#[test]
fn a_second_root_cannot_be_created() {
    let nodes = three_levels();
    let mutation = NodeMutation::Create {
        node_id: "ws2".to_string(),
        parent_id: None,
        node_type: "Workspace".to_string(),
        depth: 0,
    };
    assert!(matches!(
        TreeValidator::validate_mutation(&nodes, &mutation),
        Err(TreeValidationError::MultipleRoots { .. })
    ));
}

#[test]
fn deleting_a_leaf_is_allowed_and_a_missing_node_is_not() {
    let nodes = three_levels();
    assert!(TreeValidator::validate_mutation(&nodes, &NodeMutation::Delete { node_id: "room1".to_string() }).is_ok());
    assert!(matches!(
        TreeValidator::validate_mutation(&nodes, &NodeMutation::Delete { node_id: "ghost".to_string() }),
        Err(TreeValidationError::NodeNotFound { .. })
    ));
}

#[test]
fn the_schema_refuses_a_child_type_its_rules_do_not_list() {
    let nodes = three_levels();
    let schema = TreeSchema {
        id: "s".to_string(),
        name: "S".to_string(),
        rules: vec![
            NestingRule { parent_type: "Workspace".to_string(), allowed_child_types: vec!["Office".to_string()] },
            NestingRule { parent_type: "Office".to_string(), allowed_child_types: vec!["Desk".to_string()] },
        ],
        max_depth: None,
    };
    match TreeValidator::validate_tree_with_schema(&nodes, &schema) {
        Err(TreeValidationError::InvalidChildType { parent_type, child_type }) => {
            assert_eq!(parent_type, "Office");
            assert_eq!(child_type, "Room");
        }
        other => panic!("unexpected {:?}", other),
    }
}

#[test]
fn creating_a_node_deeper_than_the_schema_allows_is_refused() {
    let nodes = three_levels();
    let schema = TreeSchema { id: "s".to_string(), name: "S".to_string(), rules: vec![
        NestingRule { parent_type: "Room".to_string(), allowed_child_types: vec!["Office".to_string()] },
    ], max_depth: Some(2) };
    let mutation = NodeMutation::Create {
        node_id: "room2".to_string(),
        parent_id: Some("office1".to_string()),
        node_type: "Room".to_string(),
        depth: 3,
    };
    match TreeValidator::validate_mutation_with_schema(&nodes, &mutation, &schema) {
        Err(TreeValidationError::DepthExceedsSchema { depth, max_depth, .. }) => {
            assert_eq!(depth, 3);
            assert_eq!(max_depth, 2);
        }
        other => panic!("unexpected {:?}", other),
    }
}

#[test]
fn a_uuid_is_recognised_by_its_shape() {
    assert!(TreeValidator::is_valid_uuid("123e4567-e89b-42d3-a456-426614174000"));
    assert!(TreeValidator::is_valid_uuid("123E4567-E89B-42D3-B456-426614174000"));
    assert!(!TreeValidator::is_valid_uuid("123e4567-e89b-12d3-a456-426614174000"));
    assert!(!TreeValidator::is_valid_uuid("123e4567-e89b-42d3-c456-426614174000"));
    assert!(!TreeValidator::is_valid_uuid("00000000-0000-0000-0000-000000000000"));
    assert!(!TreeValidator::is_valid_uuid("123e4567e89b12d3a456426614174000"));
    assert!(!TreeValidator::is_valid_uuid("123e4567-e89b-12d3-a456-42661417400g"));
    assert!(!TreeValidator::is_valid_uuid(""));
}

#[test]
fn a_registered_node_type_is_allowed_under_each_listed_parent() {
    let mut schema = TreeSchema {
        id: "s".to_string(),
        name: "S".to_string(),
        rules: vec![NestingRule { parent_type: "Office".to_string(), allowed_child_types: vec!["Room".to_string()] }],
        max_depth: None,
    };
    schema.add_node_type("Kanban", &vec!["Office".to_string(), "Room".to_string()]);
    assert!(schema.is_child_allowed("Office", "Kanban"));
    assert!(schema.is_child_allowed("Room", "Kanban"));
    assert!(schema.is_child_allowed("Office", "Room"));
    assert!(!schema.is_child_allowed("Workspace", "Kanban"));
    schema.add_node_type("Kanban", &vec!["Office".to_string()]);
    assert_eq!(schema.rules[0].allowed_child_types, vec!["Room".to_string(), "Kanban".to_string()]);
}

#[test]
fn error_text_names_the_nodes() {
    let e = TreeValidationError::DepthExceedsSchema { node_id: "deep1".to_string(), depth: 13, max_depth: 2 };
    assert_eq!(e.describe(), "Node 'deep1' at depth 13 exceeds max depth 2");
    let e = TreeValidationError::MultipleRoots { root_ids: vec!["ws1".to_string(), "ws2".to_string()] };
    assert_eq!(e.describe(), "Multiple root nodes found: [\"ws1\", \"ws2\"]");
    let e = TreeValidationError::WouldCreateCycle { node_id: "a".to_string(), new_parent_id: "b".to_string() };
    assert_eq!(e.describe(), "Moving node 'a' under 'b' would create a cycle");
    assert_eq!(
        TreeValidationError::NoRoot.describe(),
        "No root node found (must have exactly one workspace root)"
    );
}
