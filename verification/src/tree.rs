//! Integrity of the workspace hierarchy tree.
//!
//! The tree is a table of nodes keyed by id. Each node names its parent and
//! lists its children. A valid tree has exactly one root (a node without a
//! parent), no node whose parent is missing, no node on a cycle of parents, and
//! every node reachable from the root through the children lists. Mutations
//! (create, move, delete, retype) are checked before they are applied, and a
//! schema can bound the depth and say which node types may sit under which.

use vstd::prelude::*;
use crate::strmap::StrMap;
use crate::seqs::{holds_str, str_views, contains_str, lemma_distinct_within, contains_string};

verus! {

broadcast use vstd::seq_lib::group_seq_properties;

/// The id under which the single workspace root is addressed by mutations.
pub const WORKSPACE_ROOT_ID: &'static str = "workspace-root";

/// The type name a workspace node reports.
pub const WORKSPACE_TYPE_NAME: &'static str = "Workspace";

/// Placeholder node id used in errors about a node not yet created.
pub const NEW_NODE_PLACEHOLDER: &'static str = "new_node";

/// The kind of entity a node stands for.
#[derive(Debug, Clone)]
pub enum NodeEntityType {
    /// The workspace root.
    Workspace,
    /// Any other node, by its type name (such as an office or a room).
    Child(String),
}

impl NodeEntityType {
    /// The type name, as used by schema rules.
    pub open spec fn kind_name_spec(&self) -> Seq<char> {
        match self {
            NodeEntityType::Workspace => WORKSPACE_TYPE_NAME@,
            NodeEntityType::Child(name) => name@,
        }
    }

    /// The type name, as used by schema rules.
    pub fn kind_name(&self) -> (r: &str)
        ensures
            r@ == self.kind_name_spec(),
    {
        match self {
            NodeEntityType::Workspace => WORKSPACE_TYPE_NAME,
            NodeEntityType::Child(name) => name.as_str(),
        }
    }
}

/// One node of the workspace tree.
#[derive(Debug, Clone)]
pub struct DomainNode {
    pub id: String,
    pub parent_id: Option<String>,
    pub entity_type: NodeEntityType,
    pub depth: u32,
    pub name: String,
    pub description: String,
    pub owner_id: String,
    pub members: Vec<String>,
    pub children: Vec<String>,
    pub mdx_content: String,
    pub chat_enabled: bool,
    pub chat_channel_id: Option<String>,
    pub is_default: bool,
    pub created_at: u64,
    pub updated_at: u64,
}

/// The node table: nodes keyed by their id.
pub type NodeMap = StrMap<DomainNode>;

/// Which child types a parent type allows.
#[derive(Debug, Clone)]
pub struct NestingRule {
    pub parent_type: String,
    pub allowed_child_types: Vec<String>,
}

/// Constraints on the shape of the tree.
#[derive(Debug, Clone)]
pub struct TreeSchema {
    pub id: String,
    pub name: String,
    pub rules: Vec<NestingRule>,
    pub max_depth: Option<u32>,
}

impl TreeSchema {
    /// Whether some rule for `parent` lists `child`.
    pub open spec fn allows(&self, parent: Seq<char>, child: Seq<char>) -> bool {
        exists|i: int|
            0 <= i < self.rules@.len() && #[trigger] self.rules@[i].parent_type@ == parent
                && holds_str(self.rules@[i].allowed_child_types@, child)
    }

    /// Whether a node of type `child` may sit directly under one of type
    /// `parent`: some rule for the parent type lists the child type.
    pub fn is_child_allowed(&self, parent: &str, child: &str) -> (b: bool)
        ensures
            b == self.allows(parent@, child@),
    {
        let p: String = parent.to_owned();
        let mut i: usize = 0;
        while i < self.rules.len()
            invariant
                0 <= i <= self.rules@.len(),
                p@ == parent@,
                forall|j: int|
                    0 <= j < i ==> !(#[trigger] self.rules@[j].parent_type@ == parent@
                        && holds_str(self.rules@[j].allowed_child_types@, child@)),
            decreases self.rules@.len() - i,
        {
            if self.rules[i].parent_type == p && contains_str(&self.rules[i].allowed_child_types, child) {
                return true;
            }
            i = i + 1;
        }
        false
    }

    /// Register the node type `name` as allowed under each of `allowed_parents`:
    /// the first rule for each parent type gains `name` (once), and a parent
    /// type without a rule gets one. Afterwards exactly the placements
    /// allowed before are allowed, and `name` under each listed parent.
    pub fn add_node_type(&mut self, name: &str, allowed_parents: &Vec<String>)
        ensures
            final(self).id == old(self).id,
            final(self).name == old(self).name,
            final(self).max_depth == old(self).max_depth,
            forall|p: Seq<char>, c: Seq<char>|
                #[trigger] final(self).allows(p, c) <==> (old(self).allows(p, c) || (c == name@ && holds_str(
                    allowed_parents@,
                    p,
                ))),
    {
        let mut i: usize = 0;
        while i < allowed_parents.len()
            invariant
                0 <= i <= allowed_parents@.len(),
                self.id == old(self).id,
                self.name == old(self).name,
                self.max_depth == old(self).max_depth,
                forall|p: Seq<char>, c: Seq<char>|
                    #[trigger] self.allows(p, c) <==> (old(self).allows(p, c) || (c == name@ && exists|k: int|
                        0 <= k < i && allowed_parents@[k]@ == p)),
            decreases allowed_parents@.len() - i,
        {
            let parent = &allowed_parents[i];
            let ghost before = *self;
            let mut found: Option<usize> = None;
            let mut j: usize = 0;
            while j < self.rules.len()
                invariant
                    0 <= j <= self.rules@.len(),
                    found is None ==> forall|x: int| 0 <= x < j ==> self.rules@[x].parent_type@ != parent@,
                    found matches Some(f) ==> f < self.rules@.len() && self.rules@[f as int].parent_type@ == parent@,
                decreases self.rules@.len() - j,
            {
                if found.is_none() && self.rules[j].parent_type == *parent {
                    found = Some(j);
                }
                j = j + 1;
            }
            match found {
                Some(f) => {
                    let mut rule = self.rules.remove(f);
                    if !contains_str(&rule.allowed_child_types, name) {
                        let ghost kids = rule.allowed_child_types@;
                        rule.allowed_child_types.push(name.to_owned());
                        proof {
                            assert forall|c: Seq<char>| holds_str(rule.allowed_child_types@, c) <==> (holds_str(
                                kids,
                                c,
                            ) || c == name@) by {
                                if holds_str(rule.allowed_child_types@, c) {
                                    let x = choose|x: int|
                                        0 <= x < rule.allowed_child_types@.len() && rule.allowed_child_types@[x]@ == c;
                                    if x < kids.len() {
                                        assert(kids[x]@ == c);
                                    }
                                }
                                if holds_str(kids, c) {
                                    let x = choose|x: int| 0 <= x < kids.len() && kids[x]@ == c;
                                    assert(rule.allowed_child_types@[x]@ == c);
                                }
                                if c == name@ {
                                    assert(rule.allowed_child_types@[kids.len() as int]@ == c);
                                }
                            }
                        }
                    }
                    self.rules.insert(f, rule);
                    proof {
                        assert forall|p: Seq<char>, c: Seq<char>|
                            #[trigger] self.allows(p, c) <==> (before.allows(p, c) || (c == name@ && p == parent@)) by {
                            if self.allows(p, c) {
                                let x = choose|x: int|
                                    0 <= x < self.rules@.len() && #[trigger] self.rules@[x].parent_type@ == p
                                        && holds_str(self.rules@[x].allowed_child_types@, c);
                                if x != f {
                                    assert(self.rules@[x] == before.rules@[x]);
                                }
                            }
                            if before.allows(p, c) {
                                let x = choose|x: int|
                                    0 <= x < before.rules@.len() && #[trigger] before.rules@[x].parent_type@ == p
                                        && holds_str(before.rules@[x].allowed_child_types@, c);
                                if x != f {
                                    assert(self.rules@[x] == before.rules@[x]);
                                } else {
                                    assert(self.rules@[x].parent_type@ == p);
                                }
                            }
                            if c == name@ && p == parent@ {
                                assert(self.rules@[f as int].parent_type@ == p);
                            }
                        }
                    }
                },
                None => {
                    let mut kids: Vec<String> = Vec::new();
                    kids.push(name.to_owned());
                    let rule = NestingRule { parent_type: parent.clone(), allowed_child_types: kids };
                    proof {
                        assert(holds_str(rule.allowed_child_types@, name@)) by {
                            assert(rule.allowed_child_types@[0]@ == name@);
                        }
                        assert forall|c: Seq<char>| holds_str(rule.allowed_child_types@, c) implies c == name@ by {
                            let x = choose|x: int|
                                0 <= x < rule.allowed_child_types@.len() && rule.allowed_child_types@[x]@ == c;
                            assert(x == 0);
                        }
                    }
                    self.rules.push(rule);
                    proof {
                        let n = before.rules@.len() as int;
                        assert forall|p: Seq<char>, c: Seq<char>|
                            #[trigger] self.allows(p, c) <==> (before.allows(p, c) || (c == name@ && p == parent@)) by {
                            if self.allows(p, c) {
                                let x = choose|x: int|
                                    0 <= x < self.rules@.len() && #[trigger] self.rules@[x].parent_type@ == p
                                        && holds_str(self.rules@[x].allowed_child_types@, c);
                                if x < n {
                                    assert(self.rules@[x] == before.rules@[x]);
                                }
                            }
                            if before.allows(p, c) {
                                let x = choose|x: int|
                                    0 <= x < before.rules@.len() && #[trigger] before.rules@[x].parent_type@ == p
                                        && holds_str(before.rules@[x].allowed_child_types@, c);
                                assert(self.rules@[x] == before.rules@[x]);
                            }
                            if c == name@ && p == parent@ {
                                assert(self.rules@[n].parent_type@ == p);
                            }
                        }
                    }
                },
            }
            proof {
                assert forall|p: Seq<char>, c: Seq<char>|
                    #[trigger] self.allows(p, c) <==> (old(self).allows(p, c) || (c == name@ && exists|k: int|
                        0 <= k < i + 1 && allowed_parents@[k]@ == p)) by {
                    if c == name@ && exists|k: int| 0 <= k < i + 1 && allowed_parents@[k]@ == p {
                        let k = choose|k: int| 0 <= k < i + 1 && allowed_parents@[k]@ == p;
                        if k < i {
                            assert(before.allows(p, c));
                        }
                    }
                    if before.allows(p, c) && !old(self).allows(p, c) {
                        assert(c == name@ && exists|k: int| 0 <= k < i && allowed_parents@[k]@ == p);
                        let k = choose|k: int| 0 <= k < i && allowed_parents@[k]@ == p;
                        assert(0 <= k < i + 1 && allowed_parents@[k]@ == p);
                    }
                    if c == name@ && p == parent@ {
                        assert(0 <= i < i + 1 && allowed_parents@[i as int]@ == p);
                    }
                }
            }
            i = i + 1;
        }
    }
}

/// Errors that can occur during tree validation.
#[derive(Debug, Clone)]
pub enum TreeValidationError {
    /// A node references a parent that does not exist.
    DanglingNode { node_id: String, invalid_parent_id: String },
    /// A node appears in its own ancestor chain.
    CycleDetected { node_id: String, ancestor_id: String },
    /// More than one node has no parent.
    MultipleRoots { root_ids: Vec<String> },
    /// No node lacks a parent.
    NoRoot,
    /// Some nodes are not reachable from the root.
    OrphanSubtree { disconnected_node_ids: Vec<String> },
    /// A node exceeds the maximum depth of the schema.
    DepthExceedsSchema { node_id: String, depth: u32, max_depth: u32 },
    /// A child type is not allowed under the given parent type.
    InvalidChildType { parent_type: String, child_type: String },
    /// The parent named by a mutation does not exist.
    ParentNotFound { parent_id: String },
    /// The node named by a mutation does not exist.
    NodeNotFound { node_id: String },
    /// The root cannot be deleted.
    CannotDeleteRoot { node_id: String },
    /// The move would put a node under itself or its own descendant.
    WouldCreateCycle { node_id: String, new_parent_id: String },
}

/// A change to the tree structure.
#[derive(Debug, Clone)]
pub enum NodeMutation {
    /// Create a new node under a parent (or a root, without one).
    Create { node_id: String, parent_id: Option<String>, node_type: String, depth: u32 },
    /// Move a node to a new parent.
    Move { node_id: String, new_parent_id: String },
    /// Delete a node (and its subtree).
    Delete { node_id: String },
    /// Change a node's type.
    UpdateType { node_id: String, new_type: String },
}

// ───────────────────────────── specifications ─────────────────────────────

/// The characters of an optional string.
pub open spec fn opt_view(o: Option<String>) -> Option<Seq<char>> {
    match o {
        Some(s) => Some(s@),
        None => None,
    }
}

/// The parent of the node stored under `c`, if `c` is a key and names one.
pub open spec fn parent_of(m: Map<Seq<char>, DomainNode>, c: Seq<char>) -> Option<Seq<char>> {
    if m.contains_key(c) {
        opt_view(m[c].parent_id)
    } else {
        None
    }
}

/// Starting from `start`, the id reached after `k` steps to the parent.
pub open spec fn up(m: Map<Seq<char>, DomainNode>, start: Option<Seq<char>>, k: nat) -> Option<
    Seq<char>,
>
    decreases k,
{
    if k == 0 {
        start
    } else {
        match up(m, start, (k - 1) as nat) {
            Some(c) => parent_of(m, c),
            None => None,
        }
    }
}

/// `a` lies on the walk from `x` to the root (`x` itself included).
pub open spec fn on_walk(m: Map<Seq<char>, DomainNode>, a: Seq<char>, x: Seq<char>) -> bool {
    exists|k: nat| up(m, Some(x), k) == Some(a)
}

/// The walk up from `x` stops: it ends, or it reaches `a`.
pub open spec fn walk_stops(m: Map<Seq<char>, DomainNode>, a: Option<Seq<char>>, x: Seq<char>) -> bool {
    exists|k: nat| up(m, Some(x), k) is None || up(m, Some(x), k) == a
}

/// The walk a node's own cycle check follows: its id, then its parent, then
/// that node's parent, and so on.
pub open spec fn node_walk(m: Map<Seq<char>, DomainNode>, key: Seq<char>, k: nat) -> Option<Seq<char>> {
    if k == 0 {
        Some(m[key].id@)
    } else {
        up(m, opt_view(m[key].parent_id), (k - 1) as nat)
    }
}

/// The walk of the node under `key` visits some id twice.
pub open spec fn walk_repeats(m: Map<Seq<char>, DomainNode>, key: Seq<char>) -> bool {
    exists|i: nat, j: nat|
        #![trigger node_walk(m, key, i), node_walk(m, key, j)]
        i < j && node_walk(m, key, j) is Some && node_walk(m, key, i) == node_walk(m, key, j)
}

/// Some node lies on a cycle of parents.
pub open spec fn has_cycle(m: Map<Seq<char>, DomainNode>) -> bool {
    exists|key: Seq<char>| m.contains_key(key) && #[trigger] walk_repeats(m, key)
}

/// Some node names a parent that is not in the table.
pub open spec fn has_dangling(m: Map<Seq<char>, DomainNode>) -> bool {
    exists|key: Seq<char>|
        #[trigger] m.contains_key(key) && m[key].parent_id is Some && !m.contains_key(
            m[key].parent_id->0@,
        )
}

/// The ids of the roots among `ks`, in order.
pub open spec fn root_ids_of(m: Map<Seq<char>, DomainNode>, ks: Seq<Seq<char>>) -> Seq<Seq<char>>
    decreases ks.len(),
{
    if ks.len() == 0 {
        Seq::empty()
    } else if m[ks.last()].parent_id is None {
        root_ids_of(m, ks.drop_last()).push(m[ks.last()].id@)
    } else {
        root_ids_of(m, ks.drop_last())
    }
}

/// The ids of the roots of the table, in key order.
pub open spec fn root_ids(nodes: NodeMap) -> Seq<Seq<char>> {
    root_ids_of(nodes@, nodes.key_seq())
}

/// The children of the node under `c`, or none when `c` is not a key.
pub open spec fn children_of(m: Map<Seq<char>, DomainNode>, c: Seq<char>) -> Seq<Seq<char>> {
    if m.contains_key(c) {
        str_views(m[c].children@)
    } else {
        Seq::empty()
    }
}

/// `s` holds, with every node of the table it holds, all of that node's
/// children.
pub open spec fn closed_under_children(m: Map<Seq<char>, DomainNode>, s: Set<Seq<char>>) -> bool {
    forall|c: Seq<char>, i: int|
        s.contains(c) && 0 <= i < children_of(m, c).len() ==> s.contains(
            #[trigger] children_of(m, c)[i],
        )
}

/// `x` is reachable from `seeds` by zero or more steps from a node to one of
/// its children: it lies in every set that holds the seeds and is closed under
/// children.
pub open spec fn reachable(m: Map<Seq<char>, DomainNode>, seeds: Set<Seq<char>>, x: Seq<char>) -> bool {
    forall|s: Set<Seq<char>>|
        seeds.subset_of(s) && #[trigger] closed_under_children(m, s) ==> s.contains(x)
}

/// The key of the first root in key order, if there is one.
pub open spec fn first_root_key(m: Map<Seq<char>, DomainNode>, ks: Seq<Seq<char>>) -> Option<
    Seq<char>,
>
    decreases ks.len(),
{
    if ks.len() == 0 {
        None
    } else {
        match first_root_key(m, ks.drop_last()) {
            Some(k) => Some(k),
            None => if m[ks.last()].parent_id is None {
                Some(ks.last())
            } else {
                None
            },
        }
    }
}

/// Every node of the table is reachable from the node with id `root_id`.
pub open spec fn all_reachable_from(m: Map<Seq<char>, DomainNode>, root_id: Seq<char>) -> bool {
    forall|k: Seq<char>| #[trigger] m.contains_key(k) ==> reachable(m, set![root_id], k)
}

/// `ids` lists, each once, exactly the keys of the table that are not
/// reachable from the node with id `root_id`.
pub open spec fn lists_unreachable(m: Map<Seq<char>, DomainNode>, root_id: Seq<char>, ids: Seq<Seq<char>>) -> bool {
    &&& ids.no_duplicates()
    &&& forall|k: Seq<char>| #[trigger] ids.contains(k) <==> (m.contains_key(k) && !reachable(m, set![root_id], k))
}

/// The structural validity that `validate_tree` checks.
pub open spec fn tree_valid(nodes: NodeMap) -> bool {
    nodes@.dom().len() == 0 || (root_ids(nodes).len() == 1 && !has_dangling(nodes@) && !has_cycle(
        nodes@,
    ) && all_reachable_from(nodes@, nodes@[first_root_key(nodes@, nodes.key_seq())->0].id@))
}

/// `s` has the shape of a version 4 UUID: five groups of 8, 4, 4, 4 and 12
/// hexadecimal digits separated by dashes, the third group starting with the
/// version digit `4` and the fourth with a variant digit `8`, `9`, `a` or `b`.
pub open spec fn uuid_shaped(s: Seq<char>) -> bool {
    &&& s.len() == 36
    &&& forall|i: int|
        0 <= i < 36 ==> if i == 8 || i == 13 || i == 18 || i == 23 {
            s[i] == '-'
        } else {
            is_hex_digit(#[trigger] s[i])
        }
    &&& s[14] == '4'
    &&& is_variant_digit(s[19])
}

/// A digit that marks the RFC 4122 variant: `8`, `9`, `a` or `b`, in either
/// case.
pub open spec fn is_variant_digit(c: char) -> bool {
    c == '8' || c == '9' || c == 'a' || c == 'b' || c == 'A' || c == 'B'
}

/// An ASCII hexadecimal digit.
pub open spec fn is_hex_digit(c: char) -> bool {
    ('0' <= c && c <= '9') || ('a' <= c && c <= 'f') || ('A' <= c && c <= 'F')
}

// ─────────────────────────────── the checks ───────────────────────────────

/// Whether `c` is an ASCII hexadecimal digit.
fn hex_digit(c: char) -> (b: bool)
    ensures
        b == is_hex_digit(c),
{
    ('0' <= c && c <= '9') || ('a' <= c && c <= 'f') || ('A' <= c && c <= 'F')
}

/// The characters of an optional string slice, owned.
fn owned_opt(o: &Option<String>) -> (r: Option<String>)
    ensures
        opt_view(r) == opt_view(*o),
{
    match o {
        Some(s) => Some(s.clone()),
        None => None,
    }
}

/// A simple structural property of the key order.
proof fn lemma_root_ids_prefix(m: Map<Seq<char>, DomainNode>, ks: Seq<Seq<char>>, i: int)
    requires
        0 <= i < ks.len(),
    ensures
        ks.subrange(0, i + 1).drop_last() == ks.subrange(0, i),
        ks.subrange(0, i + 1).last() == ks[i],
{
    assert(ks.subrange(0, i + 1).drop_last() =~= ks.subrange(0, i));
}

pub struct TreeValidator;

impl TreeValidator {
    /// Check that exactly one node has no parent.
    pub fn check_single_root(nodes: &NodeMap) -> (r: Result<(), TreeValidationError>)
        ensures
            r is Ok <==> root_ids(*nodes).len() == 1,
            r matches Err(TreeValidationError::NoRoot) <==> root_ids(*nodes).len() == 0,
            r matches Err(TreeValidationError::MultipleRoots { root_ids: ids }) ==> str_views(ids@)
                == root_ids(*nodes) && ids@.len() >= 2,
            r is Err ==> (r matches Err(TreeValidationError::NoRoot) || r matches Err(
                TreeValidationError::MultipleRoots { .. },
            )),
    {
        let n = nodes.len();
        let mut roots: Vec<String> = Vec::new();
        let mut i: usize = 0;
        while i < n
            invariant
                n == nodes.key_seq().len(),
                0 <= i <= n,
                str_views(roots@) == root_ids_of(nodes@, nodes.key_seq().subrange(0, i as int)),
            decreases n - i,
        {
            let node = nodes.value_at(i);
            proof {
                lemma_root_ids_prefix(nodes@, nodes.key_seq(), i as int);
            }
            if node.parent_id.is_none() {
                roots.push(node.id.clone());
                proof {
                    assert(str_views(roots@) =~= root_ids_of(nodes@, nodes.key_seq().subrange(0, i as int)).push(
                        node.id@,
                    ));
                }
            }
            i = i + 1;
        }
        proof {
            assert(nodes.key_seq().subrange(0, n as int) =~= nodes.key_seq());
        }
        if roots.len() == 0 {
            Err(TreeValidationError::NoRoot)
        } else if roots.len() == 1 {
            Ok(())
        } else {
            Err(TreeValidationError::MultipleRoots { root_ids: roots })
        }
    }

    /// Check that every parent a node names is in the table.
    pub fn check_no_dangling_parents(nodes: &NodeMap) -> (r: Result<(), TreeValidationError>)
        ensures
            r is Ok <==> !has_dangling(nodes@),
            r matches Err(TreeValidationError::DanglingNode { node_id, invalid_parent_id }) ==> exists|
                key: Seq<char>,
            |
                #[trigger] nodes@.contains_key(key) && nodes@[key].id@ == node_id@ && opt_view(
                    nodes@[key].parent_id,
                ) == Some(invalid_parent_id@) && !nodes@.contains_key(invalid_parent_id@),
            r is Err ==> r matches Err(TreeValidationError::DanglingNode { .. }),
    {
        let n = nodes.len();
        let mut i: usize = 0;
        while i < n
            invariant
                n == nodes.key_seq().len(),
                0 <= i <= n,
                forall|j: int|
                    0 <= j < i ==> !(nodes@[#[trigger] nodes.key_seq()[j]].parent_id is Some
                        && !nodes@.contains_key(nodes@[nodes.key_seq()[j]].parent_id->0@)),
                forall|k: Seq<char>| #[trigger] nodes@.contains_key(k) <==> nodes.key_seq().contains(k),
            decreases n - i,
        {
            let node = nodes.value_at(i);
            match &node.parent_id {
                Some(parent_id) => {
                    if !nodes.contains_key(parent_id.as_str()) {
                        let key = nodes.key_at(i);
                        return Err(
                            TreeValidationError::DanglingNode {
                                node_id: node.id.clone(),
                                invalid_parent_id: parent_id.clone(),
                            },
                        );
                    }
                },
                None => {},
            }
            i = i + 1;
        }
        proof {
            if has_dangling(nodes@) {
                let key = choose|key: Seq<char>|
                    #[trigger] nodes@.contains_key(key) && nodes@[key].parent_id is Some
                        && !nodes@.contains_key(nodes@[key].parent_id->0@);
                assert(nodes.key_seq().contains(key));
                let j = choose|j: int| 0 <= j < nodes.key_seq().len() && nodes.key_seq()[j] == key;
                assert(nodes@[nodes.key_seq()[j]].parent_id is Some);
            }
        }
        Ok(())
    }

    /// Check if a string has the shape of a version 4 UUID.
    pub fn is_valid_uuid(s: &str) -> (b: bool)
        ensures
            b == uuid_shaped(s@),
    {
        let n = s.unicode_len();
        if n != 36 {
            return false;
        }
        let mut i: usize = 0;
        while i < 36
            invariant
                0 <= i <= 36,
                s@.len() == 36,
                forall|j: int|
                    0 <= j < i ==> if j == 8 || j == 13 || j == 18 || j == 23 {
                        s@[j] == '-'
                    } else {
                        is_hex_digit(#[trigger] s@[j])
                    },
            decreases 36 - i,
        {
            let c = s.get_char(i);
            if i == 8 || i == 13 || i == 18 || i == 23 {
                if c != '-' {
                    return false;
                }
            } else {
                if !hex_digit(c) {
                    return false;
                }
            }
            i = i + 1;
        }
        let version = s.get_char(14);
        let variant = s.get_char(19);
        version == '4' && (variant == '8' || variant == '9' || variant == 'a' || variant == 'b' || variant == 'A'
            || variant == 'B')
    }

    /// Validate a create mutation: a named parent must exist, be the workspace
    /// root sentinel, or be a UUID; a node without a parent may only be created
    /// while no root exists.
    pub fn validate_create(nodes: &NodeMap, node_id: &str, parent_id: Option<&str>) -> (r: Result<
        (),
        TreeValidationError,
    >)
        ensures
            match parent_id {
                Some(p) => {
                    &&& (r is Ok <==> (p@ == WORKSPACE_ROOT_ID@ || uuid_shaped(p@)
                        || nodes@.contains_key(p@)))
                    &&& (r matches Err(TreeValidationError::ParentNotFound { parent_id: e }) ==> e@ == p@)
                    &&& (r is Err ==> r matches Err(TreeValidationError::ParentNotFound { .. }))
                },
                None => {
                    &&& (r is Ok <==> root_ids(*nodes).len() == 0)
                    &&& (r matches Err(TreeValidationError::MultipleRoots { root_ids: ids }) ==> str_views(
                        ids@,
                    ) == root_ids(*nodes))
                    &&& (r is Err ==> r matches Err(TreeValidationError::MultipleRoots { .. }))
                },
            },
    {
        match parent_id {
            Some(p) => {
                let is_workspace_root = crate::text::str_eq(p, WORKSPACE_ROOT_ID);
                let is_uuid = Self::is_valid_uuid(p);
                if !is_workspace_root && !is_uuid && !nodes.contains_key(p) {
                    return Err(TreeValidationError::ParentNotFound { parent_id: p.to_owned() });
                }
                Ok(())
            },
            None => {
                let roots = Self::root_list(nodes);
                if roots.len() > 0 {
                    return Err(TreeValidationError::MultipleRoots { root_ids: roots });
                }
                Ok(())
            },
        }
    }

    /// The ids of the roots, in key order.
    fn root_list(nodes: &NodeMap) -> (roots: Vec<String>)
        ensures
            str_views(roots@) == root_ids(*nodes),
    {
        let n = nodes.len();
        let mut roots: Vec<String> = Vec::new();
        let mut i: usize = 0;
        while i < n
            invariant
                n == nodes.key_seq().len(),
                0 <= i <= n,
                str_views(roots@) == root_ids_of(nodes@, nodes.key_seq().subrange(0, i as int)),
            decreases n - i,
        {
            let node = nodes.value_at(i);
            proof {
                lemma_root_ids_prefix(nodes@, nodes.key_seq(), i as int);
            }
            if node.parent_id.is_none() {
                roots.push(node.id.clone());
                proof {
                    assert(str_views(roots@) =~= root_ids_of(nodes@, nodes.key_seq().subrange(0, i as int)).push(
                        node.id@,
                    ));
                }
            }
            i = i + 1;
        }
        proof {
            assert(nodes.key_seq().subrange(0, n as int) =~= nodes.key_seq());
        }
        roots
    }

    /// Validate a delete mutation: the node must exist and must not be a root.
    pub fn validate_delete(nodes: &NodeMap, node_id: &str) -> (r: Result<(), TreeValidationError>)
        ensures
            r is Ok <==> (nodes@.contains_key(node_id@) && nodes@[node_id@].parent_id is Some),
            !nodes@.contains_key(node_id@) ==> r matches Err(TreeValidationError::NodeNotFound { .. }),
            r matches Err(TreeValidationError::NodeNotFound { node_id: e }) ==> e@ == node_id@
                && !nodes@.contains_key(node_id@),
            (nodes@.contains_key(node_id@) && nodes@[node_id@].parent_id is None) ==> r matches Err(
                TreeValidationError::CannotDeleteRoot { .. },
            ),
            r matches Err(TreeValidationError::CannotDeleteRoot { node_id: e }) ==> e@ == node_id@,
    {
        match nodes.get(node_id) {
            None => Err(TreeValidationError::NodeNotFound { node_id: node_id.to_owned() }),
            Some(node) => {
                if node.parent_id.is_none() {
                    Err(TreeValidationError::CannotDeleteRoot { node_id: node_id.to_owned() })
                } else {
                    Ok(())
                }
            },
        }
    }

    /// Check that no node appears in its own ancestor chain.
    pub fn check_no_cycles(nodes: &NodeMap) -> (r: Result<(), TreeValidationError>)
        ensures
            r is Ok <==> !has_cycle(nodes@),
            r matches Err(TreeValidationError::CycleDetected { node_id, ancestor_id }) ==> exists|
                key: Seq<char>,
            |
                #[trigger] nodes@.contains_key(key) && nodes@[key].id@ == node_id@ && exists|
                    i: nat,
                    j: nat,
                |
                    #![trigger node_walk(nodes@, key, i), node_walk(nodes@, key, j)]
                    i < j && node_walk(nodes@, key, i) == Some(ancestor_id@) && node_walk(nodes@, key, j)
                        == Some(ancestor_id@),
            r is Err ==> r matches Err(TreeValidationError::CycleDetected { .. }),
    {
        let n = nodes.len();
        let mut i: usize = 0;
        while i < n
            invariant
                n == nodes.key_seq().len(),
                0 <= i <= n,
                forall|j: int| 0 <= j < i ==> !walk_repeats(nodes@, #[trigger] nodes.key_seq()[j]),
                forall|k: Seq<char>| #[trigger] nodes@.contains_key(k) <==> nodes.key_seq().contains(k),
                nodes.key_seq().no_duplicates(),
            decreases n - i,
        {
            let node = nodes.value_at(i);
            let ghost key = nodes.key_seq()[i as int];
            let mut visited: Vec<String> = Vec::new();
            visited.push(node.id.clone());
            let mut current: Option<String> = owned_opt(&node.parent_id);
            proof {
                assert(node_walk(nodes@, key, 0) == Some(node.id@));
                assert(node_walk(nodes@, key, 1) == opt_view(node.parent_id)) by {
                    reveal_with_fuel(up, 1);
                }
            }
            while current.is_some()
                invariant
                    n == nodes.key_seq().len(),
                    0 <= i < n,
                    key == nodes.key_seq()[i as int],
                    *node == nodes@[key],
                    nodes.key_seq().no_duplicates(),
                    forall|k: Seq<char>| #[trigger] nodes@.contains_key(k) <==> nodes.key_seq().contains(k),
                    visited@.len() >= 1,
                    str_views(visited@).no_duplicates(),
                    forall|j: int|
                        0 <= j < visited@.len() ==> node_walk(nodes@, key, j as nat) == Some(
                            #[trigger] visited@[j]@,
                        ),
                    forall|j: int| 1 <= j < visited@.len() - 1 ==> nodes@.contains_key(#[trigger] visited@[j]@),
                    current is Some && visited@.len() >= 2 ==> nodes@.contains_key(
                        visited@[visited@.len() - 1]@,
                    ),
                    opt_view(current) == node_walk(nodes@, key, visited@.len() as nat),
                decreases n + 2 - visited@.len(),
            {
                let p = current.unwrap();
                proof {
                    let vs = str_views(visited@);
                    let tail = vs.subrange(1, vs.len() as int);
                    assert forall|j: int| 0 <= j < tail.len() implies nodes.key_seq().contains(
                        #[trigger] tail[j],
                    ) by {
                        assert(tail[j] == visited@[j + 1]@);
                        if j + 1 < visited@.len() - 1 {
                            assert(nodes@.contains_key(visited@[j + 1]@));
                        }
                    }
                    lemma_distinct_within(tail, nodes.key_seq());
                }
                if contains_string(&visited, &p) {
                    proof {
                        let j = choose|j: int| 0 <= j < visited@.len() && visited@[j]@ == p@;
                        assert(node_walk(nodes@, key, j as nat) == Some(p@));
                        assert(node_walk(nodes@, key, visited@.len() as nat) == Some(p@));
                        assert(nodes@.contains_key(key) && nodes@[key].id@ == node.id@);
                        assert(walk_repeats(nodes@, key));
                        assert(has_cycle(nodes@));
                    }
                    return Err(
                        TreeValidationError::CycleDetected {
                            node_id: node.id.clone(),
                            ancestor_id: p,
                        },
                    );
                }
                let ghost len0 = visited@.len();
                let ghost old_vs = str_views(visited@);
                let ghost old_visited = visited@;
                proof {
                    if len0 >= 2 {
                        lemma_node_walk_step(nodes@, key, (len0 - 1) as nat);
                    }
                }
                visited.push(p.clone());
                current = match nodes.get(p.as_str()) {
                    Some(pn) => owned_opt(&pn.parent_id),
                    None => None,
                };
                proof {
                    lemma_node_walk_step(nodes@, key, len0 as nat);
                    let vs = str_views(visited@);
                    assert(vs =~= old_vs.push(p@));
                    assert forall|a: int, b: int|
                        0 <= a < vs.len() && 0 <= b < vs.len() && a != b implies vs[a] != vs[b] by {
                        if a < len0 && b < len0 {
                            assert(vs[a] == old_vs[a] && vs[b] == old_vs[b]);
                        } else if a == len0 {
                            assert(!holds_str(old_visited, p@));
                            assert(old_visited[b]@ == vs[b]);
                        } else {
                            assert(!holds_str(old_visited, p@));
                            assert(old_visited[a]@ == vs[a]);
                        }
                    }
                }
            }
            proof {
                assert(!walk_repeats(nodes@, key)) by {
                    if walk_repeats(nodes@, key) {
                        let (a, b) = choose|a: nat, b: nat|
                            #![trigger node_walk(nodes@, key, a), node_walk(nodes@, key, b)]
                            a < b && node_walk(nodes@, key, b) is Some && node_walk(nodes@, key, a)
                                == node_walk(nodes@, key, b);
                        if b >= visited@.len() {
                            lemma_node_walk_none_after(nodes@, key, visited@.len() as nat, b);
                        } else {
                            assert(str_views(visited@)[a as int] == str_views(visited@)[b as int]);
                        }
                    }
                }
            }
            i = i + 1;
        }
        proof {
            if has_cycle(nodes@) {
                let key = choose|key: Seq<char>| nodes@.contains_key(key) && #[trigger] walk_repeats(
                    nodes@,
                    key,
                );
                let j = choose|j: int| 0 <= j < nodes.key_seq().len() && nodes.key_seq()[j] == key;
                assert(!walk_repeats(nodes@, nodes.key_seq()[j]));
            }
        }
        Ok(())
    }
}

/// One more step of a node's walk is one step to the parent.
proof fn lemma_node_walk_step(m: Map<Seq<char>, DomainNode>, key: Seq<char>, k: nat)
    requires
        k >= 1,
        node_walk(m, key, k) is Some,
    ensures
        node_walk(m, key, k + 1) == parent_of(m, node_walk(m, key, k)->0),
        node_walk(m, key, k + 1) is Some ==> m.contains_key(node_walk(m, key, k)->0),
{
    assert(up(m, opt_view(m[key].parent_id), k) == match up(
        m,
        opt_view(m[key].parent_id),
        (k - 1) as nat,
    ) {
        Some(c) => parent_of(m, c),
        None => None,
    });
}

/// Once a walk has ended it stays ended.
proof fn lemma_up_none_after(m: Map<Seq<char>, DomainNode>, start: Option<Seq<char>>, a: nat, b: nat)
    requires
        a <= b,
        up(m, start, a) is None,
    ensures
        up(m, start, b) is None,
    decreases b - a,
{
    if a < b {
        lemma_up_none_after(m, start, a, (b - 1) as nat);
    }
}

/// Once a node's walk has ended it stays ended.
proof fn lemma_node_walk_none_after(m: Map<Seq<char>, DomainNode>, key: Seq<char>, a: nat, b: nat)
    requires
        1 <= a <= b,
        node_walk(m, key, a) is None,
    ensures
        node_walk(m, key, b) is None,
{
    lemma_up_none_after(m, opt_view(m[key].parent_id), (a - 1) as nat, (b - 1) as nat);
}


/// The children of every key of `ks`, in order.
pub open spec fn all_children(m: Map<Seq<char>, DomainNode>, ks: Seq<Seq<char>>) -> Seq<Seq<char>>
    decreases ks.len(),
{
    if ks.len() == 0 {
        Seq::empty()
    } else {
        all_children(m, ks.drop_last()) + children_of(m, ks.last())
    }
}

/// A key's children occur among the children of all keys.
proof fn lemma_all_children(m: Map<Seq<char>, DomainNode>, ks: Seq<Seq<char>>, k: Seq<char>, i: int)
    requires
        ks.contains(k),
        0 <= i < children_of(m, k).len(),
    ensures
        all_children(m, ks).contains(children_of(m, k)[i]),
    decreases ks.len(),
{
    let d = ks.drop_last();
    let a = all_children(m, d);
    let c = children_of(m, ks.last());
    if ks.last() == k {
        assert((a + c)[a.len() + i] == c[i]);
    } else {
        let j = choose|j: int| 0 <= j < ks.len() && ks[j] == k;
        assert(j < d.len());
        assert(d[j] == k);
        lemma_all_children(m, d, k, i);
        let x = choose|x: int| 0 <= x < a.len() && a[x] == children_of(m, k)[i];
        assert((a + c)[x] == a[x]);
    }
}

/// The reachable set is closed under children and holds the seeds.
pub proof fn lemma_reachable_closed(m: Map<Seq<char>, DomainNode>, seeds: Set<Seq<char>>)
    ensures
        forall|x: Seq<char>| seeds.contains(x) ==> reachable(m, seeds, x),
        forall|c: Seq<char>, i: int|
            reachable(m, seeds, c) && 0 <= i < children_of(m, c).len() ==> reachable(
                m,
                seeds,
                #[trigger] children_of(m, c)[i],
            ),
{
    assert forall|c: Seq<char>, i: int|
        reachable(m, seeds, c) && 0 <= i < children_of(m, c).len() implies reachable(
        m,
        seeds,
        #[trigger] children_of(m, c)[i],
    ) by {
        assert forall|s: Set<Seq<char>>|
            seeds.subset_of(s) && #[trigger] closed_under_children(m, s) implies s.contains(
            children_of(m, c)[i],
        ) by {
            assert(s.contains(c));
        }
    }
}

/// Visit, breadth first, everything reachable from `seeds` through the
/// children lists; each id once, in the order first reached.
fn reach(nodes: &NodeMap, seeds: Vec<String>) -> (visited: Vec<String>)
    ensures
        str_views(visited@).no_duplicates(),
        forall|x: Seq<char>| #[trigger] holds_str(visited@, x) <==> reachable(
            nodes@,
            str_views(seeds@).to_set(),
            x,
        ),
{
    let n = nodes.len();
    let ghost m = nodes@;
    let ghost seed_set = str_views(seeds@).to_set();
    let ghost u = str_views(seeds@) + all_children(m, nodes.key_seq());
    let ghost nseeds = seeds@.len();
    let mut queue: Vec<String> = seeds;
    let mut head: usize = 0;
    let mut visited: Vec<String> = Vec::new();
    proof {
        assert forall|i: int| 0 <= i < queue@.len() implies u.contains(#[trigger] queue@[i]@) by {
            assert(u[i] == queue@[i]@);
        }
        assert forall|s: Set<Seq<char>>|
            seed_set.subset_of(s) && #[trigger] closed_under_children(m, s) implies (forall|i: int|
            0 <= i < queue@.len() ==> s.contains(#[trigger] queue@[i]@)) by {
            assert forall|i: int| 0 <= i < queue@.len() implies s.contains(#[trigger] queue@[i]@) by {
                assert(str_views(queue@)[i] == queue@[i]@);
                assert(seed_set.contains(queue@[i]@));
            }
        }
    }
    while head < queue.len()
        invariant
            m == nodes@,
            n == nodes.key_seq().len(),
            forall|k: Seq<char>| #[trigger] m.contains_key(k) <==> nodes.key_seq().contains(k),
            u == str_views(seeds@) + all_children(m, nodes.key_seq()),
            seed_set == str_views(seeds@).to_set(),
            nseeds == seeds@.len(),
            nseeds <= queue@.len(),
            forall|i: int| 0 <= i < nseeds ==> #[trigger] queue@[i]@ == str_views(seeds@)[i],
            head <= queue@.len(),
            forall|i: int| 0 <= i < queue@.len() ==> u.contains(#[trigger] queue@[i]@),
            forall|i: int| 0 <= i < visited@.len() ==> u.contains(#[trigger] visited@[i]@),
            str_views(visited@).no_duplicates(),
            forall|i: int| 0 <= i < head ==> holds_str(visited@, #[trigger] queue@[i]@),
            forall|i: int| 0 <= i < visited@.len() ==> holds_str(queue@, #[trigger] visited@[i]@),
            forall|c: Seq<char>, i: int|
                holds_str(visited@, c) && 0 <= i < children_of(m, c).len() ==> holds_str(
                    queue@,
                    #[trigger] children_of(m, c)[i],
                ),
            forall|s: Set<Seq<char>>|
                seed_set.subset_of(s) && #[trigger] closed_under_children(m, s) ==> (forall|i: int|
                    0 <= i < queue@.len() ==> s.contains(#[trigger] queue@[i]@)),
        decreases u.len() - visited@.len(), queue@.len() - head,
    {
        proof {
            assert forall|i: int| 0 <= i < str_views(visited@).len() implies u.contains(
                #[trigger] str_views(visited@)[i],
            ) by {
                assert(str_views(visited@)[i] == visited@[i]@);
            }
            lemma_distinct_within(str_views(visited@), u);
        }
        let c = queue[head].clone();
        let ghost h0 = head;
        head = head + 1;
        if !contains_string(&visited, &c) {
            let ghost old_visited = visited@;
            let ghost old_queue = queue@;
            visited.push(c.clone());
            proof {
                let vs = str_views(visited@);
                let ovs = str_views(old_visited);
                assert(vs =~= ovs.push(c@));
                assert forall|a: int, b: int|
                    0 <= a < vs.len() && 0 <= b < vs.len() && a != b implies vs[a] != vs[b] by {
                    if a < ovs.len() && b < ovs.len() {
                        assert(vs[a] == ovs[a] && vs[b] == ovs[b]);
                    } else if a == ovs.len() {
                        assert(old_visited[b]@ == vs[b]);
                    } else {
                        assert(old_visited[a]@ == vs[a]);
                    }
                }
                assert forall|x: Seq<char>| holds_str(old_visited, x) implies holds_str(visited@, x) by {
                    let j = choose|j: int| 0 <= j < old_visited.len() && old_visited[j]@ == x;
                    assert(visited@[j] == old_visited[j]);
                }
                assert(visited@[old_visited.len() as int]@ == c@);
                assert(holds_str(visited@, c@));
                assert(u.contains(old_queue[h0 as int]@));
                assert forall|i: int| 0 <= i < vs.len() implies u.contains(#[trigger] vs[i]) by {
                    if i < ovs.len() {
                        assert(vs[i] == old_visited[i]@);
                    }
                }
                lemma_distinct_within(vs, u);
            }
            match nodes.get(c.as_str()) {
                Some(node) => {
                    let mut ci: usize = 0;
                    while ci < node.children.len()
                        invariant
                            m == nodes@,
                            forall|k: Seq<char>| #[trigger] m.contains_key(k) <==> nodes.key_seq().contains(k),
                            m.contains_key(c@),
                            *node == m[c@],
                            u == str_views(seeds@) + all_children(m, nodes.key_seq()),
                            0 <= ci <= node.children@.len(),
                            queue@.len() == old_queue.len() + ci,
                            forall|i: int| 0 <= i < old_queue.len() ==> #[trigger] queue@[i] == old_queue[i],
                            forall|i: int|
                                0 <= i < ci ==> #[trigger] queue@[old_queue.len() + i]@
                                    == node.children@[i]@,
                        decreases node.children@.len() - ci,
                    {
                        queue.push(node.children[ci].clone());
                        ci = ci + 1;
                    }
                    proof {
                        assert forall|i: int| 0 <= i < queue@.len() implies u.contains(#[trigger] queue@[i]@) by {
                            if i >= old_queue.len() {
                                let k = i - old_queue.len();
                                assert(queue@[old_queue.len() + k]@ == node.children@[k]@);
                                assert(children_of(m, c@) == str_views(node.children@));
                                assert(children_of(m, c@)[k] == queue@[i]@);
                                lemma_all_children(m, nodes.key_seq(), c@, k);
                                let x = choose|x: int|
                                    0 <= x < all_children(m, nodes.key_seq()).len() && all_children(
                                        m,
                                        nodes.key_seq(),
                                    )[x] == children_of(m, c@)[k];
                                assert(u[str_views(seeds@).len() + x] == queue@[i]@);
                            } else {
                                assert(queue@[i] == old_queue[i]);
                            }
                        }
                        assert forall|cc: Seq<char>, i: int|
                            holds_str(visited@, cc) && 0 <= i < children_of(m, cc).len() implies holds_str(
                            queue@,
                            #[trigger] children_of(m, cc)[i],
                        ) by {
                            if cc == c@ {
                                assert(children_of(m, c@) == str_views(node.children@));
                                assert(queue@[old_queue.len() + i]@ == children_of(m, cc)[i]);
                            } else {
                                let j = choose|j: int| 0 <= j < visited@.len() && visited@[j]@ == cc;
                                assert(j < old_visited.len());
                                assert(old_visited[j]@ == cc);
                                assert(holds_str(old_queue, children_of(m, cc)[i]));
                                let x = choose|x: int|
                                    0 <= x < old_queue.len() && old_queue[x]@ == children_of(m, cc)[i];
                                assert(queue@[x] == old_queue[x]);
                            }
                        }
                        assert forall|s: Set<Seq<char>>|
                            seed_set.subset_of(s) && #[trigger] closed_under_children(m, s) implies (forall|
                            i: int,
                        |
                            0 <= i < queue@.len() ==> s.contains(#[trigger] queue@[i]@)) by {
                            assert(s.contains(old_queue[h0 as int]@));
                            assert forall|i: int| 0 <= i < queue@.len() implies s.contains(
                                #[trigger] queue@[i]@,
                            ) by {
                                if i >= old_queue.len() {
                                    let k = i - old_queue.len();
                                    assert(queue@[old_queue.len() + k]@ == node.children@[k]@);
                                    assert(children_of(m, c@) == str_views(node.children@));
                                    assert(children_of(m, c@)[k] == queue@[i]@);
                                } else {
                                    assert(queue@[i] == old_queue[i]);
                                }
                            }
                        }
                        assert forall|i: int| 0 <= i < visited@.len() implies holds_str(
                            queue@,
                            #[trigger] visited@[i]@,
                        ) by {
                            if i < old_visited.len() {
                                assert(visited@[i] == old_visited[i]);
                                let x = choose|x: int|
                                    0 <= x < old_queue.len() && old_queue[x]@ == visited@[i]@;
                                assert(queue@[x] == old_queue[x]);
                            } else {
                                assert(queue@[h0 as int] == old_queue[h0 as int]);
                            }
                        }
                        assert forall|i: int| 0 <= i < head implies holds_str(
                            visited@,
                            #[trigger] queue@[i]@,
                        ) by {
                            assert(queue@[i] == old_queue[i]);
                        }
                    }
                },
                None => {
                    proof {
                        assert forall|cc: Seq<char>, i: int|
                            holds_str(visited@, cc) && 0 <= i < children_of(m, cc).len() implies holds_str(
                            queue@,
                            #[trigger] children_of(m, cc)[i],
                        ) by {
                            if cc != c@ {
                                let j = choose|j: int| 0 <= j < visited@.len() && visited@[j]@ == cc;
                                assert(old_visited[j]@ == cc);
                            }
                        }
                        assert forall|i: int| 0 <= i < visited@.len() implies holds_str(
                            queue@,
                            #[trigger] visited@[i]@,
                        ) by {
                            if i < old_visited.len() {
                                assert(visited@[i] == old_visited[i]);
                            } else {
                                assert(queue@[h0 as int]@ == c@);
                            }
                        }
                    }
                },
            }
        }
    }
    proof {
        let vset = Set::new(|x: Seq<char>| holds_str(visited@, x));
        assert(seed_set.subset_of(vset)) by {
            assert forall|x: Seq<char>| seed_set.contains(x) implies vset.contains(x) by {
                let i = choose|i: int| 0 <= i < str_views(seeds@).len() && str_views(seeds@)[i] == x;
                assert(queue@[i]@ == x);
            }
        }
        assert(closed_under_children(m, vset)) by {
            assert forall|cc: Seq<char>, i: int|
                vset.contains(cc) && 0 <= i < children_of(m, cc).len() implies vset.contains(
                #[trigger] children_of(m, cc)[i],
            ) by {
                assert(holds_str(queue@, children_of(m, cc)[i]));
                let x = choose|x: int| 0 <= x < queue@.len() && queue@[x]@ == children_of(m, cc)[i];
                assert(holds_str(visited@, queue@[x]@));
            }
        }
        assert forall|x: Seq<char>| #[trigger] holds_str(visited@, x) <==> reachable(m, seed_set, x) by {
            if holds_str(visited@, x) {
                assert forall|s: Set<Seq<char>>|
                    seed_set.subset_of(s) && #[trigger] closed_under_children(m, s) implies s.contains(x) by {
                    let j = choose|j: int| 0 <= j < visited@.len() && visited@[j]@ == x;
                    assert(holds_str(queue@, visited@[j]@));
                    let q = choose|q: int| 0 <= q < queue@.len() && queue@[q]@ == x;
                    assert(s.contains(queue@[q]@));
                }
            }
            if reachable(m, seed_set, x) {
                assert(vset.contains(x));
            }
        }
    }
    visited
}

impl TreeValidator {
    /// Check if `potential_ancestor` lies on the walk from `node_id` to the
    /// root (`node_id` itself included).
    pub fn is_ancestor_of(nodes: &NodeMap, potential_ancestor: &str, node_id: &str) -> (b: bool)
        requires
            walk_stops(nodes@, Some(potential_ancestor@), node_id@),
        ensures
            b == on_walk(nodes@, potential_ancestor@, node_id@),
    {
        let ghost m = nodes@;
        let ghost bound = choose|k: nat|
            up(m, Some(node_id@), k) is None || up(m, Some(node_id@), k) == Some(potential_ancestor@);
        let target: String = potential_ancestor.to_owned();
        let mut current: Option<String> = Some(node_id.to_owned());
        let ghost mut k: nat = 0;
        while current.is_some()
            invariant
                m == nodes@,
                target@ == potential_ancestor@,
                up(m, Some(node_id@), bound) is None || up(m, Some(node_id@), bound) == Some(
                    potential_ancestor@,
                ),
                opt_view(current) == up(m, Some(node_id@), k),
                forall|j: nat| j < k ==> #[trigger] up(m, Some(node_id@), j) != Some(potential_ancestor@),
                forall|j: nat| j < k ==> #[trigger] up(m, Some(node_id@), j) is Some,
                k <= bound,
            decreases bound - k,
        {
            let id = current.unwrap();
            if id == target {
                proof {
                    assert(up(m, Some(node_id@), k) == Some(potential_ancestor@));
                }
                return true;
            }
            current = match nodes.get(id.as_str()) {
                Some(node) => owned_opt(&node.parent_id),
                None => None,
            };
            proof {
                assert(up(m, Some(node_id@), k + 1) == parent_of(m, id@));
                if k == bound {
                    assert(false);
                }
                k = k + 1;
            }
        }
        proof {
            assert(!on_walk(m, potential_ancestor@, node_id@)) by {
                if on_walk(m, potential_ancestor@, node_id@) {
                    let j = choose|j: nat| up(m, Some(node_id@), j) == Some(potential_ancestor@);
                    if j >= k {
                        lemma_up_none_after(m, Some(node_id@), k, j);
                    }
                }
            }
        }
        false
    }

    /// The path from the root down to `node_id`: the walk up from the node,
    /// reversed.
    pub fn get_path_to_root(nodes: &NodeMap, node_id: &str) -> (path: Vec<String>)
        requires
            walk_stops(nodes@, None, node_id@),
        ensures
            up(nodes@, Some(node_id@), path@.len() as nat) is None,
            forall|i: int|
                0 <= i < path@.len() ==> up(nodes@, Some(node_id@), (path@.len() - 1 - i) as nat)
                    == Some(#[trigger] path@[i]@),
    {
        let ghost m = nodes@;
        let ghost bound = choose|k: nat| up(m, Some(node_id@), k) is None || up(m, Some(node_id@), k) == None::<Seq<char>>;
        let mut path: Vec<String> = Vec::new();
        let mut current: Option<String> = Some(node_id.to_owned());
        while current.is_some()
            invariant
                m == nodes@,
                up(m, Some(node_id@), bound) is None,
                opt_view(current) == up(m, Some(node_id@), path@.len() as nat),
                forall|j: nat| j < path@.len() ==> #[trigger] up(m, Some(node_id@), j) is Some,
                forall|i: int|
                    0 <= i < path@.len() ==> up(m, Some(node_id@), (path@.len() - 1 - i) as nat) == Some(
                        #[trigger] path@[i]@,
                    ),
                path@.len() <= bound,
            decreases bound - path@.len(),
        {
            let id = current.unwrap();
            current = match nodes.get(id.as_str()) {
                Some(node) => owned_opt(&node.parent_id),
                None => None,
            };
            let ghost old_path = path@;
            proof {
                assert(up(m, Some(node_id@), (old_path.len() + 1) as nat) == parent_of(m, id@));
                if old_path.len() == bound {
                    assert(false);
                }
            }
            path.insert(0, id);
            proof {
                assert forall|i: int|
                    0 <= i < path@.len() implies up(m, Some(node_id@), (path@.len() - 1 - i) as nat) == Some(
                    #[trigger] path@[i]@,
                ) by {
                    if i > 0 {
                        assert(path@[i] == old_path[i - 1]);
                    }
                }
            }
        }
        path
    }

    /// All descendants of a node: everything reachable from its children,
    /// each once, in breadth-first order.
    pub fn get_descendants(nodes: &NodeMap, node_id: &str) -> (r: Vec<String>)
        ensures
            str_views(r@).no_duplicates(),
            forall|x: Seq<char>| #[trigger] holds_str(r@, x) <==> reachable(
                nodes@,
                children_of(nodes@, node_id@).to_set(),
                x,
            ),
    {
        let seeds = match nodes.get(node_id) {
            Some(node) => crate::seqs::copy_strings(&node.children),
            None => Vec::new(),
        };
        proof {
            assert(str_views(seeds@) =~= children_of(nodes@, node_id@));
        }
        reach(nodes, seeds)
    }

    /// The greatest depth among the nodes of the subtree rooted at `node_id`
    /// (reachable through children lists), or 0 when the node is absent.
    pub fn get_subtree_max_depth(nodes: &NodeMap, node_id: &str) -> (d: u32)
        ensures
            !nodes@.contains_key(node_id@) ==> d == 0,
            nodes@.contains_key(node_id@) ==> {
                &&& forall|x: Seq<char>|
                    #[trigger] nodes@.contains_key(x) && reachable(nodes@, set![node_id@], x) ==> nodes@[x].depth
                        <= d
                &&& exists|x: Seq<char>|
                    #[trigger] nodes@.contains_key(x) && reachable(nodes@, set![node_id@], x) && nodes@[x].depth
                        == d
            },
    {
        let node = match nodes.get(node_id) {
            Some(n) => n,
            None => return 0,
        };
        let mut seeds: Vec<String> = Vec::new();
        seeds.push(node_id.to_owned());
        proof {
            assert(str_views(seeds@).to_set() =~= set![node_id@]) by {
                assert(str_views(seeds@)[0] == node_id@);
            }
        }
        let visited = reach(nodes, seeds);
        let mut max_depth: u32 = node.depth;
        let ghost mut witness: Seq<char> = node_id@;
        proof {
            lemma_reachable_closed(nodes@, set![node_id@]);
        }
        let mut i: usize = 0;
        while i < visited.len()
            invariant
                0 <= i <= visited@.len(),
                forall|x: Seq<char>| #[trigger] holds_str(visited@, x) <==> reachable(
                    nodes@,
                    set![node_id@],
                    x,
                ),
                nodes@.contains_key(witness) && reachable(nodes@, set![node_id@], witness) && nodes@[witness].depth
                    == max_depth,
                forall|j: int|
                    0 <= j < i && nodes@.contains_key(#[trigger] visited@[j]@) ==> nodes@[visited@[j]@].depth
                        <= max_depth,
            decreases visited@.len() - i,
        {
            match nodes.get(visited[i].as_str()) {
                Some(current) => {
                    if current.depth > max_depth {
                        max_depth = current.depth;
                        proof {
                            assert(holds_str(visited@, visited@[i as int]@));
                            witness = visited@[i as int]@;
                        }
                    }
                },
                None => {},
            }
            i = i + 1;
        }
        proof {
            assert forall|x: Seq<char>|
                #[trigger] nodes@.contains_key(x) && reachable(nodes@, set![node_id@], x) implies nodes@[x].depth
                <= max_depth by {
                assert(holds_str(visited@, x));
                let j = choose|j: int| 0 <= j < visited@.len() && visited@[j]@ == x;
                assert(nodes@.contains_key(visited@[j]@));
            }
        }
        max_depth
    }
}


/// A first root found in a prefix stays the first root of any longer prefix.
proof fn lemma_first_root_extend(m: Map<Seq<char>, DomainNode>, ks: Seq<Seq<char>>, j: int, l: int)
    requires
        0 <= j <= l <= ks.len(),
        first_root_key(m, ks.subrange(0, j)) is Some,
    ensures
        first_root_key(m, ks.subrange(0, l)) == first_root_key(m, ks.subrange(0, j)),
    decreases l - j,
{
    if l > j {
        lemma_first_root_extend(m, ks, j, l - 1);
        assert(ks.subrange(0, l).drop_last() =~= ks.subrange(0, l - 1));
    }
}

/// There is a root exactly when there is a first one.
pub(crate) proof fn lemma_roots_first(m: Map<Seq<char>, DomainNode>, ks: Seq<Seq<char>>)
    ensures
        (root_ids_of(m, ks).len() >= 1) == (first_root_key(m, ks) is Some),
        first_root_key(m, ks) matches Some(k) ==> ks.contains(k) && m[k].parent_id is None,
    decreases ks.len(),
{
    if ks.len() > 0 {
        lemma_roots_first(m, ks.drop_last());
        if first_root_key(m, ks.drop_last()) is Some {
            let k = first_root_key(m, ks.drop_last())->0;
            let j = choose|j: int| 0 <= j < ks.drop_last().len() && ks.drop_last()[j] == k;
            assert(ks[j] == k);
        } else {
            assert(ks[ks.len() - 1] == ks.last());
        }
    }
}

/// The schema's depth bound holds for every node.
pub open spec fn depth_within(m: Map<Seq<char>, DomainNode>, max_depth: Option<u32>) -> bool {
    forall|k: Seq<char>| #[trigger] m.contains_key(k) && max_depth is Some ==> m[k].depth <= max_depth->0
}

/// Every node with a parent in the table has a type the schema allows under
/// its parent's type (checked only when the schema has rules).
pub open spec fn child_types_allowed(m: Map<Seq<char>, DomainNode>, schema: TreeSchema) -> bool {
    schema.rules@.len() == 0 || forall|k: Seq<char>|
        #[trigger] m.contains_key(k) && m[k].parent_id is Some && m.contains_key(m[k].parent_id->0@)
            ==> schema.allows(
            m[m[k].parent_id->0@].entity_type.kind_name_spec(),
            m[k].entity_type.kind_name_spec(),
        )
}

/// A create is structurally acceptable.
pub open spec fn create_ok(nodes: NodeMap, parent: Option<Seq<char>>) -> bool {
    match parent {
        Some(p) => p == WORKSPACE_ROOT_ID@ || uuid_shaped(p) || nodes@.contains_key(p),
        None => root_ids(nodes).len() == 0,
    }
}

/// A move is structurally acceptable: both ends exist (the workspace root
/// sentinel counts as existing) and the node would not end up under itself.
pub open spec fn move_ok(m: Map<Seq<char>, DomainNode>, node: Seq<char>, parent: Seq<char>) -> bool {
    &&& m.contains_key(node)
    &&& (parent == WORKSPACE_ROOT_ID@ || m.contains_key(parent))
    &&& node != parent
    &&& (parent == WORKSPACE_ROOT_ID@ || !on_walk(m, node, parent))
}

/// The ancestor walk a move check performs comes to an end.
pub open spec fn move_check_stops(m: Map<Seq<char>, DomainNode>, node: Seq<char>, parent: Seq<char>) -> bool {
    (m.contains_key(node) && parent != WORKSPACE_ROOT_ID@ && m.contains_key(parent) && node != parent)
        ==> walk_stops(m, Some(node), parent)
}

/// A mutation's checks come to an end.
pub open spec fn mutation_check_stops(nodes: NodeMap, mutation: NodeMutation) -> bool {
    match mutation {
        NodeMutation::Move { node_id, new_parent_id } => move_check_stops(nodes@, node_id@, new_parent_id@),
        _ => true,
    }
}

/// A mutation is structurally acceptable.
pub open spec fn mutation_ok(nodes: NodeMap, mutation: NodeMutation) -> bool {
    match mutation {
        NodeMutation::Create { parent_id, .. } => create_ok(nodes, opt_view(parent_id)),
        NodeMutation::Move { node_id, new_parent_id } => move_ok(nodes@, node_id@, new_parent_id@),
        NodeMutation::Delete { node_id } => nodes@.contains_key(node_id@) && nodes@[node_id@].parent_id is Some,
        NodeMutation::UpdateType { node_id, .. } => nodes@.contains_key(node_id@),
    }
}

/// The type name a create's parent has for the schema, if it can be told.
pub open spec fn create_parent_type(m: Map<Seq<char>, DomainNode>, p: Seq<char>) -> Option<Seq<char>> {
    if p == WORKSPACE_ROOT_ID@ {
        Some(WORKSPACE_TYPE_NAME@)
    } else if m.contains_key(p) {
        Some(m[p].entity_type.kind_name_spec())
    } else {
        None
    }
}

/// The depth a node gains by moving under a parent at `parent_depth`.
pub open spec fn depth_gain(parent_depth: u32, node_depth: u32) -> int {
    if parent_depth + 1 >= node_depth {
        parent_depth + 1 - node_depth
    } else {
        0
    }
}

/// The schema accepts a create.
pub open spec fn schema_create_ok(
    m: Map<Seq<char>, DomainNode>,
    parent: Option<Seq<char>>,
    node_type: Seq<char>,
    depth: u32,
    schema: TreeSchema,
) -> bool {
    &&& (schema.max_depth is Some ==> depth <= schema.max_depth->0)
    &&& (parent matches Some(p) ==> (create_parent_type(m, p) is Some ==> schema.allows(
        create_parent_type(m, p)->0,
        node_type,
    )))
}

/// The schema accepts a move.
pub open spec fn schema_move_ok(
    m: Map<Seq<char>, DomainNode>,
    node: Seq<char>,
    parent: Seq<char>,
    schema: TreeSchema,
) -> bool {
    m.contains_key(node) && (parent == WORKSPACE_ROOT_ID@ || m.contains_key(parent)) ==> {
        let parent_type = if parent == WORKSPACE_ROOT_ID@ {
            WORKSPACE_TYPE_NAME@
        } else {
            m[parent].entity_type.kind_name_spec()
        };
        let parent_depth: u32 = if parent == WORKSPACE_ROOT_ID@ {
            0
        } else {
            m[parent].depth
        };
        &&& schema.allows(parent_type, m[node].entity_type.kind_name_spec())
        &&& (schema.max_depth is Some ==> forall|x: Seq<char>|
            #[trigger] m.contains_key(x) && reachable(m, set![node], x) ==> m[x].depth + depth_gain(
                parent_depth,
                m[node].depth,
            ) <= schema.max_depth->0)
    }
}

/// The answer a structural check gives a mutation: success exactly when the
/// mutation is structurally acceptable, and otherwise the one error that
/// names what is wrong, with the ids of the request.
pub open spec fn mutation_verdict(nodes: NodeMap, mutation: NodeMutation, r: Result<(), TreeValidationError>) -> bool {
    &&& (r is Ok <==> mutation_ok(nodes, mutation))
    &&& r is Err ==> match mutation {
        NodeMutation::Create { parent_id, .. } => match parent_id {
            Some(p) => r matches Err(TreeValidationError::ParentNotFound { parent_id: e }) && e@ == p@,
            None => r matches Err(TreeValidationError::MultipleRoots { root_ids: ids }) && str_views(ids@)
                == root_ids(nodes),
        },
        NodeMutation::Move { node_id, new_parent_id } => if !nodes@.contains_key(node_id@) {
            r matches Err(TreeValidationError::NodeNotFound { node_id: e }) && e@ == node_id@
        } else if new_parent_id@ != WORKSPACE_ROOT_ID@ && !nodes@.contains_key(new_parent_id@) {
            r matches Err(TreeValidationError::ParentNotFound { parent_id: e }) && e@ == new_parent_id@
        } else {
            r matches Err(TreeValidationError::WouldCreateCycle { node_id: a, new_parent_id: b }) && a@ == node_id@
                && b@ == new_parent_id@
        },
        NodeMutation::Delete { node_id } => if !nodes@.contains_key(node_id@) {
            r matches Err(TreeValidationError::NodeNotFound { node_id: e }) && e@ == node_id@
        } else {
            r matches Err(TreeValidationError::CannotDeleteRoot { node_id: e }) && e@ == node_id@
        },
        NodeMutation::UpdateType { node_id, .. } => r matches Err(TreeValidationError::NodeNotFound { node_id: e })
            && e@ == node_id@,
    }
}

/// `s` is the greatest depth among the node `node` and the nodes reachable
/// from it through the children lists.
pub open spec fn subtree_max_is(m: Map<Seq<char>, DomainNode>, node: Seq<char>, s: u32) -> bool {
    &&& forall|x: Seq<char>| #[trigger] m.contains_key(x) && reachable(m, set![node], x) ==> m[x].depth <= s
    &&& exists|x: Seq<char>| #[trigger] m.contains_key(x) && reachable(m, set![node], x) && m[x].depth == s
}

/// `d` capped at the largest `u32`.
pub open spec fn capped(d: int) -> int {
    if d > u32::MAX {
        u32::MAX as int
    } else {
        d
    }
}

/// The answer the schema check gives a structurally acceptable mutation. A
/// create deeper than the schema allows is refused under the placeholder id
/// with its depth; then a create whose parent type does not allow its type is
/// refused with both types. A move whose new parent's type does not allow the
/// moved node's type is refused with both types; then a move that would put
/// the deepest node of the moved subtree below the schema's limit is refused
/// with the moved node's id and that node's new depth, capped at the largest
/// `u32`. Anything else is accepted.
pub open spec fn schema_verdict(
    nodes: NodeMap,
    mutation: NodeMutation,
    schema: TreeSchema,
    r: Result<(), TreeValidationError>,
) -> bool {
    let m = nodes@;
    match mutation {
        NodeMutation::Create { parent_id, node_type, depth, .. } => if schema.max_depth is Some && depth
            > schema.max_depth->0 {
            r matches Err(TreeValidationError::DepthExceedsSchema { node_id: e, depth: d, max_depth: mx }) && e@
                == NEW_NODE_PLACEHOLDER@ && d == depth && mx == schema.max_depth->0
        } else if parent_id is Some && create_parent_type(m, parent_id->0@) is Some && !schema.allows(
            create_parent_type(m, parent_id->0@)->0,
            node_type@,
        ) {
            r matches Err(TreeValidationError::InvalidChildType { parent_type: a, child_type: b }) && a@
                == create_parent_type(m, parent_id->0@)->0 && b@ == node_type@
        } else {
            r is Ok
        },
        NodeMutation::Move { node_id, new_parent_id } => {
            let n = node_id@;
            let p = new_parent_id@;
            let parent_type = if p == WORKSPACE_ROOT_ID@ {
                WORKSPACE_TYPE_NAME@
            } else {
                m[p].entity_type.kind_name_spec()
            };
            let parent_depth: u32 = if p == WORKSPACE_ROOT_ID@ {
                0
            } else {
                m[p].depth
            };
            if !schema.allows(parent_type, m[n].entity_type.kind_name_spec()) {
                r matches Err(TreeValidationError::InvalidChildType { parent_type: a, child_type: b }) && a@
                    == parent_type && b@ == m[n].entity_type.kind_name_spec()
            } else if schema.max_depth is Some && exists|s: u32|
                #[trigger] subtree_max_is(m, n, s) && s + depth_gain(parent_depth, m[n].depth) > schema.max_depth->0 {
                r matches Err(TreeValidationError::DepthExceedsSchema { node_id: e, depth: d, max_depth: mx }) && e@
                    == n && mx == schema.max_depth->0 && exists|s: u32|
                    #[trigger] subtree_max_is(m, n, s) && d == capped(s + depth_gain(parent_depth, m[n].depth))
            } else {
                r is Ok
            }
        },
        _ => r is Ok,
    }
}

/// The schema accepts a mutation.
pub open spec fn schema_mutation_ok(nodes: NodeMap, mutation: NodeMutation, schema: TreeSchema) -> bool {
    match mutation {
        NodeMutation::Create { parent_id, node_type, depth, .. } => schema_create_ok(
            nodes@,
            opt_view(parent_id),
            node_type@,
            depth,
            schema,
        ),
        NodeMutation::Move { node_id, new_parent_id } => schema_move_ok(
            nodes@,
            node_id@,
            new_parent_id@,
            schema,
        ),
        _ => true,
    }
}

impl TreeValidator {
    /// Check that every node is reachable from the root through the children
    /// lists.
    pub fn check_all_reachable_from_root(nodes: &NodeMap) -> (r: Result<(), TreeValidationError>)
        ensures
            r is Ok <==> (nodes@.dom().len() == 0 || (first_root_key(nodes@, nodes.key_seq()) is Some
                && all_reachable_from(
                nodes@,
                nodes@[first_root_key(nodes@, nodes.key_seq())->0].id@,
            ))),
            r matches Err(TreeValidationError::NoRoot) <==> (nodes@.dom().len() > 0 && first_root_key(
                nodes@,
                nodes.key_seq(),
            ) is None),
            r matches Err(TreeValidationError::OrphanSubtree { disconnected_node_ids: ids }) ==> lists_unreachable(
                nodes@,
                nodes@[first_root_key(nodes@, nodes.key_seq())->0].id@,
                str_views(ids@),
            ),
            r matches Err(TreeValidationError::OrphanSubtree { disconnected_node_ids: ids }) ==> {
                &&& ids@.len() > 0
                &&& forall|i: int|
                    0 <= i < ids@.len() ==> nodes@.contains_key(#[trigger] ids@[i]@) && !reachable(
                        nodes@,
                        set![nodes@[first_root_key(nodes@, nodes.key_seq())->0].id@],
                        ids@[i]@,
                    )
            },
            r is Err ==> (r matches Err(TreeValidationError::NoRoot) || r matches Err(
                TreeValidationError::OrphanSubtree { .. },
            )),
    {
        let n = nodes.len();
        if n == 0 {
            return Ok(());
        }
        let ghost m = nodes@;
        let ghost ks = nodes.key_seq();
        let mut i: usize = 0;
        let mut found: Option<usize> = None;
        while i < n
            invariant
                n == ks.len(),
                ks == nodes.key_seq(),
                m == nodes@,
                0 <= i <= n,
                found is None ==> first_root_key(m, ks.subrange(0, i as int)) is None,
                found matches Some(f) ==> f < n && first_root_key(m, ks) == Some(ks[f as int]),
            decreases n - i,
        {
            if found.is_none() {
                let node = nodes.value_at(i);
                proof {
                    assert(ks.subrange(0, i + 1).drop_last() =~= ks.subrange(0, i as int));
                    assert(ks.subrange(0, i + 1).last() == ks[i as int]);
                }
                if node.parent_id.is_none() {
                    proof {
                        lemma_first_root_extend(m, ks, i + 1, n as int);
                        assert(ks.subrange(0, n as int) =~= ks);
                    }
                    found = Some(i);
                }
            }
            i = i + 1;
        }
        let root_index = match found {
            Some(f) => f,
            None => {
                proof {
                    assert(ks.subrange(0, n as int) =~= ks);
                }
                return Err(TreeValidationError::NoRoot);
            },
        };
        let root = nodes.value_at(root_index);
        let mut seeds: Vec<String> = Vec::new();
        seeds.push(root.id.clone());
        let ghost root_id = root.id@;
        proof {
            assert(str_views(seeds@).to_set() =~= set![root_id]) by {
                assert(str_views(seeds@)[0] == root_id);
            }
        }
        let visited = reach(nodes, seeds);
        let mut disconnected: Vec<String> = Vec::new();
        let mut j: usize = 0;
        while j < n
            invariant
                n == ks.len(),
                ks == nodes.key_seq(),
                m == nodes@,
                forall|k: Seq<char>| #[trigger] m.contains_key(k) <==> ks.contains(k),
                0 <= j <= n,
                forall|x: Seq<char>| #[trigger] holds_str(visited@, x) <==> reachable(m, set![root_id], x),
                forall|a: int|
                    0 <= a < j ==> reachable(m, set![root_id], #[trigger] ks[a]) || holds_str(
                        disconnected@,
                        ks[a],
                    ),
                forall|a: int|
                    0 <= a < disconnected@.len() ==> m.contains_key(#[trigger] disconnected@[a]@)
                        && !reachable(m, set![root_id], disconnected@[a]@),
                ks.no_duplicates(),
                str_views(disconnected@).no_duplicates(),
                forall|a: int|
                    0 <= a < disconnected@.len() ==> exists|b: int| 0 <= b < j && ks[b] == (#[trigger] disconnected@[a])@,
            decreases n - j,
        {
            let key = nodes.key_at(j);
            if !contains_string(&visited, key) {
                let ghost old_d = disconnected@;
                disconnected.push(key.clone());
                proof {
                    assert forall|a: int| 0 <= a < j && !reachable(m, set![root_id], #[trigger] ks[a])
                        implies holds_str(disconnected@, ks[a]) by {
                        let x = choose|x: int| 0 <= x < old_d.len() && old_d[x]@ == ks[a];
                        assert(disconnected@[x] == old_d[x]);
                    }
                    assert(disconnected@[old_d.len() as int]@ == ks[j as int]);
                    assert forall|a: int| 0 <= a < old_d.len() implies (#[trigger] str_views(disconnected@)[a]) != ks[j as int] by {
                        assert(disconnected@[a] == old_d[a]);
                        let b = choose|b: int| 0 <= b < j && ks[b] == old_d[a]@;
                    }
                    assert forall|a: int, c: int| 0 <= a < c < disconnected@.len() implies str_views(disconnected@)[a] != str_views(disconnected@)[c] by {
                        if c < old_d.len() {
                            assert(disconnected@[a] == old_d[a]);
                            assert(disconnected@[c] == old_d[c]);
                            assert(str_views(old_d)[a] != str_views(old_d)[c]);
                        }
                    }
                    assert forall|a: int| 0 <= a < disconnected@.len() implies exists|b: int| 0 <= b < j + 1 && ks[b] == (#[trigger] disconnected@[a])@ by {
                        if a < old_d.len() {
                            assert(disconnected@[a] == old_d[a]);
                            let b = choose|b: int| 0 <= b < j && ks[b] == old_d[a]@;
                            assert(0 <= b < j + 1 && ks[b] == disconnected@[a]@);
                        } else {
                            assert(ks[j as int] == disconnected@[a]@);
                        }
                    }
                }
            }
            j = j + 1;
        }
        if disconnected.len() == 0 {
            proof {
                assert forall|k: Seq<char>| #[trigger] m.contains_key(k) implies reachable(
                    m,
                    set![root_id],
                    k,
                ) by {
                    let a = choose|a: int| 0 <= a < ks.len() && ks[a] == k;
                    if !reachable(m, set![root_id], ks[a]) {
                        assert(holds_str(disconnected@, ks[a]));
                    }
                }
            }
            Ok(())
        } else {
            proof {
                let d0 = disconnected@[0]@;
                assert(m.contains_key(d0) && !reachable(m, set![root_id], d0));
                let ids = str_views(disconnected@);
                assert forall|k: Seq<char>| #[trigger] ids.contains(k) <==> (m.contains_key(k) && !reachable(
                    m,
                    set![root_id],
                    k,
                )) by {
                    if ids.contains(k) {
                        let a = choose|a: int| 0 <= a < ids.len() && ids[a] == k;
                        assert(m.contains_key(disconnected@[a]@));
                    }
                    if m.contains_key(k) && !reachable(m, set![root_id], k) {
                        let a = choose|a: int| 0 <= a < ks.len() && ks[a] == k;
                        assert(holds_str(disconnected@, ks[a]));
                        let x = choose|x: int| 0 <= x < disconnected@.len() && disconnected@[x]@ == ks[a];
                        assert(ids[x] == k);
                    }
                }
            }
            Err(TreeValidationError::OrphanSubtree { disconnected_node_ids: disconnected })
        }
    }

    /// Validate a move: the node and the new parent must exist (the workspace
    /// root sentinel always does), and the node must not move under itself or
    /// one of its descendants.
    pub fn validate_move(nodes: &NodeMap, node_id: &str, new_parent_id: &str) -> (r: Result<(), TreeValidationError>)
        requires
            move_check_stops(nodes@, node_id@, new_parent_id@),
        ensures
            r is Ok <==> move_ok(nodes@, node_id@, new_parent_id@),
            !nodes@.contains_key(node_id@) <==> r matches Err(TreeValidationError::NodeNotFound { .. }),
            r matches Err(TreeValidationError::NodeNotFound { node_id: e }) ==> e@ == node_id@,
            (nodes@.contains_key(node_id@) && new_parent_id@ != WORKSPACE_ROOT_ID@ && !nodes@.contains_key(
                new_parent_id@,
            )) <==> r matches Err(TreeValidationError::ParentNotFound { .. }),
            r matches Err(TreeValidationError::ParentNotFound { parent_id: e }) ==> e@ == new_parent_id@,
            r matches Err(TreeValidationError::WouldCreateCycle { node_id: a, new_parent_id: b }) ==> a@
                == node_id@ && b@ == new_parent_id@,
            r is Err ==> (r matches Err(TreeValidationError::NodeNotFound { .. }) || r matches Err(
                TreeValidationError::ParentNotFound { .. },
            ) || r matches Err(TreeValidationError::WouldCreateCycle { .. })),
    {
        if !nodes.contains_key(node_id) {
            return Err(TreeValidationError::NodeNotFound { node_id: node_id.to_owned() });
        }
        let is_workspace_root = crate::text::str_eq(new_parent_id, WORKSPACE_ROOT_ID);
        if !is_workspace_root && !nodes.contains_key(new_parent_id) {
            return Err(TreeValidationError::ParentNotFound { parent_id: new_parent_id.to_owned() });
        }
        if crate::text::str_eq(node_id, new_parent_id) {
            return Err(
                TreeValidationError::WouldCreateCycle {
                    node_id: node_id.to_owned(),
                    new_parent_id: new_parent_id.to_owned(),
                },
            );
        }
        if !is_workspace_root && Self::is_ancestor_of(nodes, node_id, new_parent_id) {
            return Err(
                TreeValidationError::WouldCreateCycle {
                    node_id: node_id.to_owned(),
                    new_parent_id: new_parent_id.to_owned(),
                },
            );
        }
        Ok(())
    }

    /// Validate a single mutation before it is applied.
    pub fn validate_mutation(nodes: &NodeMap, mutation: &NodeMutation) -> (r: Result<(), TreeValidationError>)
        requires
            mutation_check_stops(*nodes, *mutation),
        ensures
            mutation_verdict(*nodes, *mutation, r),
            r is Ok <==> mutation_ok(*nodes, *mutation),
            mutation matches NodeMutation::Move { node_id, .. } ==> (!nodes@.contains_key(node_id@)
                <==> r matches Err(TreeValidationError::NodeNotFound { .. })),
            mutation matches NodeMutation::Move { node_id, new_parent_id } ==> ((nodes@.contains_key(node_id@)
                && new_parent_id@ != WORKSPACE_ROOT_ID@ && !nodes@.contains_key(new_parent_id@)) <==> r matches Err(
                TreeValidationError::ParentNotFound { .. },
            )),
            mutation matches NodeMutation::Delete { node_id } ==> ((nodes@.contains_key(node_id@)
                && nodes@[node_id@].parent_id is None) ==> r matches Err(
                TreeValidationError::CannotDeleteRoot { .. },
            )),
            mutation matches NodeMutation::Create { parent_id: None, .. } ==> (r is Err ==> r matches Err(
                TreeValidationError::MultipleRoots { .. },
            )),
            mutation matches NodeMutation::Create { parent_id: Some(_), .. } ==> (r is Err ==> r matches Err(
                TreeValidationError::ParentNotFound { .. },
            )),
            mutation matches NodeMutation::UpdateType { .. } ==> (r is Err ==> r matches Err(
                TreeValidationError::NodeNotFound { .. },
            )),
            !(r matches Err(TreeValidationError::DepthExceedsSchema { .. })),
            !(r matches Err(TreeValidationError::InvalidChildType { .. })),
    {
        match mutation {
            NodeMutation::Create { node_id, parent_id, .. } => {
                let p: Option<&str> = match parent_id {
                    Some(s) => Some(s.as_str()),
                    None => None,
                };
                Self::validate_create(nodes, node_id.as_str(), p)
            },
            NodeMutation::Move { node_id, new_parent_id } => Self::validate_move(
                nodes,
                node_id.as_str(),
                new_parent_id.as_str(),
            ),
            NodeMutation::Delete { node_id } => Self::validate_delete(nodes, node_id.as_str()),
            NodeMutation::UpdateType { node_id, .. } => {
                if !nodes.contains_key(node_id.as_str()) {
                    return Err(TreeValidationError::NodeNotFound { node_id: node_id.clone() });
                }
                Ok(())
            },
        }
    }

    /// Validate the whole tree: one root, no dangling parent, no cycle, and
    /// every node reachable from the root. An empty tree is valid.
    pub fn validate_tree(nodes: &NodeMap) -> (r: Result<(), TreeValidationError>)
        ensures
            r is Ok <==> tree_valid(*nodes),
            nodes@.dom().len() > 0 ==> (r matches Err(TreeValidationError::NoRoot) <==> root_ids(*nodes).len()
                == 0),
            nodes@.dom().len() > 0 ==> (r matches Err(TreeValidationError::MultipleRoots { .. })
                <==> root_ids(*nodes).len() >= 2),
            (nodes@.dom().len() > 0 && root_ids(*nodes).len() == 1 && has_dangling(nodes@)) ==> r matches Err(
                TreeValidationError::DanglingNode { .. },
            ),
            (nodes@.dom().len() > 0 && root_ids(*nodes).len() == 1 && !has_dangling(nodes@) && has_cycle(
                nodes@,
            )) ==> r matches Err(TreeValidationError::CycleDetected { .. }),
            r matches Err(TreeValidationError::OrphanSubtree { .. }) ==> (root_ids(*nodes).len() == 1
                && !has_dangling(nodes@) && !has_cycle(nodes@)),
            r matches Err(TreeValidationError::MultipleRoots { root_ids: ids }) ==> str_views(ids@) == root_ids(
                *nodes,
            ),
            (nodes@.dom().len() > 0 && root_ids(*nodes).len() == 1 && !has_dangling(nodes@) && !has_cycle(nodes@)
                && !tree_valid(*nodes)) ==> r matches Err(TreeValidationError::OrphanSubtree { .. }),
            r matches Err(TreeValidationError::OrphanSubtree { disconnected_node_ids: ids }) ==> lists_unreachable(
                nodes@,
                nodes@[first_root_key(nodes@, nodes.key_seq())->0].id@,
                str_views(ids@),
            ),
            r is Err ==> (r matches Err(TreeValidationError::NoRoot) || r matches Err(
                TreeValidationError::MultipleRoots { .. },
            ) || r matches Err(TreeValidationError::DanglingNode { .. }) || r matches Err(
                TreeValidationError::CycleDetected { .. },
            ) || r matches Err(TreeValidationError::OrphanSubtree { .. })),
    {
        if nodes.len() == 0 {
            return Ok(());
        }
        proof {
            lemma_roots_first(nodes@, nodes.key_seq());
        }
        match Self::check_single_root(nodes) {
            Ok(()) => {},
            Err(e) => return Err(e),
        }
        match Self::check_no_dangling_parents(nodes) {
            Ok(()) => {},
            Err(e) => return Err(e),
        }
        match Self::check_no_cycles(nodes) {
            Ok(()) => {},
            Err(e) => return Err(e),
        }
        match Self::check_all_reachable_from_root(nodes) {
            Ok(()) => {},
            Err(e) => return Err(e),
        }
        Ok(())
    }

    /// Validate the tree, then the schema's depth bound, then (when the schema
    /// has rules) the type of every node under its parent's type.
    pub fn validate_tree_with_schema(nodes: &NodeMap, schema: &TreeSchema) -> (r: Result<
        (),
        TreeValidationError,
    >)
        ensures
            r is Ok <==> (tree_valid(*nodes) && depth_within(nodes@, schema.max_depth)
                && child_types_allowed(nodes@, *schema)),
            r matches Err(TreeValidationError::DepthExceedsSchema { node_id, depth, max_depth }) ==> (
            tree_valid(*nodes) && schema.max_depth == Some(max_depth) && depth > max_depth),
            r matches Err(TreeValidationError::DepthExceedsSchema { node_id, depth, max_depth }) ==> exists|j: int|
                0 <= j < nodes.key_seq().len() && nodes@[#[trigger] nodes.key_seq()[j]].id@ == node_id@
                    && nodes@[nodes.key_seq()[j]].depth == depth && forall|i: int|
                    0 <= i < j ==> nodes@[#[trigger] nodes.key_seq()[i]].depth <= max_depth,
            (tree_valid(*nodes) && !depth_within(nodes@, schema.max_depth)) ==> r matches Err(
                TreeValidationError::DepthExceedsSchema { .. },
            ),
            r matches Err(TreeValidationError::InvalidChildType { parent_type, child_type }) ==> (
            tree_valid(*nodes) && depth_within(nodes@, schema.max_depth) && !schema.allows(
                parent_type@,
                child_type@,
            )),
    {
        match Self::validate_tree(nodes) {
            Ok(()) => {},
            Err(e) => return Err(e),
        }
        let n = nodes.len();
        match schema.max_depth {
            Some(max_depth) => {
                let mut i: usize = 0;
                while i < n
                    invariant
                        n == nodes.key_seq().len(),
                        0 <= i <= n,
                        tree_valid(*nodes),
                        schema.max_depth == Some(max_depth),
                        forall|k: Seq<char>| #[trigger] nodes@.contains_key(k) <==> nodes.key_seq().contains(k),
                        forall|j: int| 0 <= j < i ==> nodes@[#[trigger] nodes.key_seq()[j]].depth <= max_depth,
                    decreases n - i,
                {
                    let node = nodes.value_at(i);
                    if node.depth > max_depth {
                        proof {
                            assert(nodes@[nodes.key_seq()[i as int]].depth == node.depth);
                        }
                        return Err(
                            TreeValidationError::DepthExceedsSchema {
                                node_id: node.id.clone(),
                                depth: node.depth,
                                max_depth,
                            },
                        );
                    }
                    i = i + 1;
                }
                proof {
                    assert forall|k: Seq<char>| #[trigger] nodes@.contains_key(k) && schema.max_depth is Some
                        implies nodes@[k].depth <= schema.max_depth->0 by {
                        let j = choose|j: int| 0 <= j < nodes.key_seq().len() && nodes.key_seq()[j] == k;
                        assert(nodes@[nodes.key_seq()[j]].depth <= max_depth);
                    }
                }
            },
            None => {},
        }
        if schema.rules.len() != 0 {
            let mut i: usize = 0;
            while i < n
                invariant
                    n == nodes.key_seq().len(),
                    0 <= i <= n,
                    tree_valid(*nodes),
                    depth_within(nodes@, schema.max_depth),
                    schema.rules@.len() != 0,
                    forall|k: Seq<char>| #[trigger] nodes@.contains_key(k) <==> nodes.key_seq().contains(k),
                    forall|j: int|
                        0 <= j < i ==> {
                            let k = #[trigger] nodes.key_seq()[j];
                            nodes@[k].parent_id is Some && nodes@.contains_key(nodes@[k].parent_id->0@)
                                ==> schema.allows(
                                nodes@[nodes@[k].parent_id->0@].entity_type.kind_name_spec(),
                                nodes@[k].entity_type.kind_name_spec(),
                            )
                        },
                decreases n - i,
            {
                let node = nodes.value_at(i);
                match &node.parent_id {
                    Some(parent_id) => {
                        match nodes.get(parent_id.as_str()) {
                            Some(parent) => {
                                let parent_type = parent.entity_type.kind_name();
                                let child_type = node.entity_type.kind_name();
                                if !schema.is_child_allowed(parent_type, child_type) {
                                    return Err(
                                        TreeValidationError::InvalidChildType {
                                            parent_type: parent_type.to_owned(),
                                            child_type: child_type.to_owned(),
                                        },
                                    );
                                }
                            },
                            None => {},
                        }
                    },
                    None => {},
                }
                i = i + 1;
            }
            proof {
                assert forall|k: Seq<char>|
                    #[trigger] nodes@.contains_key(k) && nodes@[k].parent_id is Some && nodes@.contains_key(
                        nodes@[k].parent_id->0@,
                    ) implies schema.allows(
                    nodes@[nodes@[k].parent_id->0@].entity_type.kind_name_spec(),
                    nodes@[k].entity_type.kind_name_spec(),
                ) by {
                    let j = choose|j: int| 0 <= j < nodes.key_seq().len() && nodes.key_seq()[j] == k;
                    assert(nodes.key_seq()[j] == k);
                }
            }
        }
        Ok(())
    }

    /// Validate a mutation, then the schema's constraints on it.
    pub fn validate_mutation_with_schema(
        nodes: &NodeMap,
        mutation: &NodeMutation,
        schema: &TreeSchema,
    ) -> (r: Result<(), TreeValidationError>)
        requires
            mutation_check_stops(*nodes, *mutation),
        ensures
            !mutation_ok(*nodes, *mutation) ==> mutation_verdict(*nodes, *mutation, r),
            mutation_ok(*nodes, *mutation) ==> schema_verdict(*nodes, *mutation, *schema, r),
            r is Ok <==> (mutation_ok(*nodes, *mutation) && schema_mutation_ok(*nodes, *mutation, *schema)),
            (r is Err && mutation_ok(*nodes, *mutation)) ==> (r matches Err(
                TreeValidationError::DepthExceedsSchema { .. },
            ) || r matches Err(TreeValidationError::InvalidChildType { .. })),
            r matches Err(TreeValidationError::InvalidChildType { parent_type, child_type }) ==> !schema.allows(
                parent_type@,
                child_type@,
            ),
            r matches Err(TreeValidationError::DepthExceedsSchema { depth, max_depth, .. }) ==> (
            schema.max_depth == Some(max_depth) && (depth > max_depth || depth == u32::MAX)),
    {
        match Self::validate_mutation(nodes, mutation) {
            Ok(()) => {},
            Err(e) => return Err(e),
        }
        match mutation {
            NodeMutation::Create { parent_id, node_type, depth, .. } => {
                match schema.max_depth {
                    Some(max_depth) => {
                        if *depth > max_depth {
                            return Err(
                                TreeValidationError::DepthExceedsSchema {
                                    node_id: NEW_NODE_PLACEHOLDER.to_owned(),
                                    depth: *depth,
                                    max_depth,
                                },
                            );
                        }
                    },
                    None => {},
                }
                match parent_id {
                    Some(p) => {
                        let parent_type: &str = if crate::text::str_eq(p.as_str(), WORKSPACE_ROOT_ID) {
                            WORKSPACE_TYPE_NAME
                        } else {
                            match nodes.get(p.as_str()) {
                                Some(parent) => parent.entity_type.kind_name(),
                                None => {
                                    return Ok(());
                                },
                            }
                        };
                        if !schema.is_child_allowed(parent_type, node_type.as_str()) {
                            return Err(
                                TreeValidationError::InvalidChildType {
                                    parent_type: parent_type.to_owned(),
                                    child_type: node_type.clone(),
                                },
                            );
                        }
                    },
                    None => {},
                }
                Ok(())
            },
            NodeMutation::Move { node_id, new_parent_id } => {
                let node = match nodes.get(node_id.as_str()) {
                    Some(n) => n,
                    None => {
                        return Ok(());
                    },
                };
                let is_workspace_root = crate::text::str_eq(new_parent_id.as_str(), WORKSPACE_ROOT_ID);
                let (parent_type, parent_depth): (&str, u32) = if is_workspace_root {
                    (WORKSPACE_TYPE_NAME, 0)
                } else {
                    match nodes.get(new_parent_id.as_str()) {
                        Some(new_parent) => (new_parent.entity_type.kind_name(), new_parent.depth),
                        None => {
                            return Ok(());
                        },
                    }
                };
                let child_type = node.entity_type.kind_name();
                if !schema.is_child_allowed(parent_type, child_type) {
                    return Err(
                        TreeValidationError::InvalidChildType {
                            parent_type: parent_type.to_owned(),
                            child_type: child_type.to_owned(),
                        },
                    );
                }
                match schema.max_depth {
                    Some(max_depth) => {
                        let new_depth: u64 = parent_depth as u64 + 1;
                        let subtree_max_depth = Self::get_subtree_max_depth(nodes, node_id.as_str());
                        let depth_increase: u64 = if new_depth >= node.depth as u64 {
                            new_depth - node.depth as u64
                        } else {
                            0
                        };
                        let new_subtree_max: u64 = subtree_max_depth as u64 + depth_increase;
                        if new_subtree_max > max_depth as u64 {
                            let reported: u32 = if new_subtree_max > u32::MAX as u64 {
                                u32::MAX
                            } else {
                                new_subtree_max as u32
                            };
                            proof {
                                let x = choose|x: Seq<char>|
                                    #[trigger] nodes@.contains_key(x) && reachable(nodes@, set![node_id@], x)
                                        && nodes@[x].depth == subtree_max_depth;
                                assert(nodes@[x].depth + depth_gain(parent_depth, node.depth) > max_depth);
                                assert(subtree_max_is(nodes@, node_id@, subtree_max_depth));
                                assert(depth_increase == depth_gain(parent_depth, node.depth));
                                assert(reported == capped(subtree_max_depth + depth_gain(parent_depth, node.depth)));
                            }
                            return Err(
                                TreeValidationError::DepthExceedsSchema {
                                    node_id: node_id.clone(),
                                    depth: reported,
                                    max_depth,
                                },
                            );
                        }
                    },
                    None => {},
                }
                Ok(())
            },
            _ => Ok(()),
        }
    }
}

} // verus!
