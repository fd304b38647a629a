//! Laying out a workspace's offices and rooms from its configuration.
//!
//! Each configured office becomes a node directly under the workspace root,
//! at depth 1, and each of its rooms a node under it, at depth 2. Every node
//! gets a fresh random id, and a fresh random chat channel when chat is
//! enabled for it. At most one office may be marked the default; when none
//! is, the first office is.

use vstd::prelude::*;
use crate::kernel::new_random_id;
use crate::seqs::{copy_strings, str_views};
use crate::strmap::StrMap;
use crate::tree::{
    all_reachable_from, children_of, closed_under_children, first_root_key, has_cycle, has_dangling,
    lemma_roots_first, node_walk, opt_view, parent_of, reachable, root_ids, root_ids_of, tree_valid, up,
    walk_repeats, DomainNode, NodeEntityType, NodeMap, WORKSPACE_ROOT_ID,
};

verus! {

/// A room to lay out, its markdown already read.
#[derive(Debug)]
pub struct RoomSetup {
    pub name: String,
    pub description: Option<String>,
    pub mdx_content: String,
    pub chat_enabled: bool,
}

/// An office to lay out, its markdown already read, with its rooms.
#[derive(Debug)]
pub struct OfficeSetup {
    pub name: String,
    pub description: Option<String>,
    pub mdx_content: String,
    pub chat_enabled: bool,
    pub is_default: bool,
    pub rooms: Vec<RoomSetup>,
}

/// The ids drawn for one office: its own and its chat channel's, and for
/// each room its own and its chat channel's.
#[derive(Debug)]
pub struct DrawnIds {
    pub office: String,
    pub office_chat: Option<String>,
    pub rooms: Vec<(String, Option<String>)>,
}

/// Why a structure cannot be laid out.
#[derive(Debug, Clone, Copy, PartialEq, Eq, Structural)]
pub enum StructureError {
    /// More than one office is marked the default; the count.
    MultipleDefaultOffices(usize),
    /// A drawn id is already taken.
    IdCollision,
}

/// The start of the message for more than one default office.
pub const MULTIPLE_DEFAULTS_PREFIX: &'static str = "Multiple default offices found (";
/// The end of the message for more than one default office.
pub const MULTIPLE_DEFAULTS_SUFFIX: &'static str = "). Only one office can be marked as default.";
/// The message for a drawn id that is already taken.
pub const ID_COLLISION_MESSAGE: &'static str = "A freshly drawn id is already taken";

impl StructureError {
    /// The error as a sentence fit to show.
    pub fn message(&self) -> (m: String)
        ensures
            m@ == match *self {
                StructureError::MultipleDefaultOffices(n) => MULTIPLE_DEFAULTS_PREFIX@ + crate::describe::decimal(
                    n as nat,
                ) + MULTIPLE_DEFAULTS_SUFFIX@,
                StructureError::IdCollision => ID_COLLISION_MESSAGE@,
            },
    {
        match self {
            StructureError::MultipleDefaultOffices(n) => {
                let count = crate::describe::count_text(*n);
                let head = crate::text::concat(MULTIPLE_DEFAULTS_PREFIX, count.as_str());
                crate::text::concat(head.as_str(), MULTIPLE_DEFAULTS_SUFFIX)
            },
            StructureError::IdCollision => ID_COLLISION_MESSAGE.to_owned(),
        }
    }
}

/// The number of offices marked the default.
pub open spec fn marked_defaults(offices: Seq<OfficeSetup>) -> nat
    decreases offices.len(),
{
    if offices.len() == 0 {
        0
    } else {
        marked_defaults(offices.drop_last()) + if offices.last().is_default {
            1nat
        } else {
            0nat
        }
    }
}

/// Whether the office at `i` is the default: the one marked, or the first
/// when none is.
pub open spec fn default_at(offices: Seq<OfficeSetup>, i: int) -> bool {
    if marked_defaults(offices) == 0 {
        i == 0
    } else {
        offices[i].is_default
    }
}

/// The description given, or the empty one.
pub open spec fn description_or_empty(d: Option<String>) -> Seq<char> {
    match d {
        Some(s) => s@,
        None => Seq::empty(),
    }
}

/// The ids have the shape of the offices: one entry per office, one per
/// room, and a chat channel exactly where chat is enabled.
pub open spec fn ids_fit(offices: Seq<OfficeSetup>, ids: Seq<DrawnIds>) -> bool {
    &&& ids.len() == offices.len()
    &&& forall|i: int|
        0 <= i < ids.len() ==> {
            &&& (#[trigger] ids[i]).rooms@.len() == offices[i].rooms@.len()
            &&& (ids[i].office_chat is Some <==> offices[i].chat_enabled)
            &&& forall|j: int|
                0 <= j < ids[i].rooms@.len() ==> ((#[trigger] ids[i].rooms@[j]).1 is Some
                    <==> offices[i].rooms@[j].chat_enabled)
        }
}

/// The id drawn for room `j` of office `i`.
pub open spec fn room_key(ids: Seq<DrawnIds>, i: int, j: int) -> Seq<char> {
    ids[i].rooms@[j].0@
}

/// Whether `k` is one of the ids drawn for a node.
pub open spec fn is_new_id(ids: Seq<DrawnIds>, k: Seq<char>) -> bool {
    exists|i: int|
        0 <= i < ids.len() && (#[trigger] ids[i].office@ == k || exists|j: int|
            0 <= j < ids[i].rooms@.len() && room_key(ids, i, j) == k)
}

/// The ids drawn for nodes are all different, none is the root's, and none
/// is taken in `m`.
pub open spec fn ids_fresh(m: Map<Seq<char>, DomainNode>, ids: Seq<DrawnIds>) -> bool {
    &&& forall|k: Seq<char>| is_new_id(ids, k) ==> !m.contains_key(k) && k != WORKSPACE_ROOT_ID@
    &&& forall|a: int, b: int|
        0 <= a < ids.len() && 0 <= b < ids.len() && a != b ==> (#[trigger] ids[a]).office@ != (#[trigger] ids[b]).office@
    &&& forall|a: int, b: int, j: int|
        0 <= a < ids.len() && 0 <= b < ids.len() && 0 <= j < ids[b].rooms@.len() ==> ids[a].office@ != room_key(
            ids,
            b,
            j,
        )
    &&& forall|a: int, j: int, b: int, l: int|
        0 <= a < ids.len() && 0 <= b < ids.len() && 0 <= j < ids[a].rooms@.len() && 0 <= l < ids[b].rooms@.len()
            && (a != b || j != l) ==> room_key(ids, a, j) != room_key(ids, b, l)
}

/// `n` is the node of office `o`, with ids `d`: directly under the root at
/// depth 1, unowned and without members, its rooms as its children.
pub open spec fn office_node_made(
    n: DomainNode,
    o: OfficeSetup,
    d: DrawnIds,
    is_default: bool,
    office_type: Seq<char>,
    now: u64,
) -> bool {
    &&& n.id == d.office
    &&& opt_view(n.parent_id) == Some(WORKSPACE_ROOT_ID@)
    &&& n.entity_type matches NodeEntityType::Child(t) && t@ == office_type
    &&& n.depth == 1
    &&& n.name == o.name
    &&& n.description@ == description_or_empty(o.description)
    &&& n.owner_id@.len() == 0
    &&& n.members@.len() == 0
    &&& str_views(n.children@) == Seq::new(d.rooms@.len(), |j: int| d.rooms@[j].0@)
    &&& n.mdx_content == o.mdx_content
    &&& n.chat_enabled == o.chat_enabled
    &&& opt_view(n.chat_channel_id) == opt_view(d.office_chat)
    &&& n.is_default == is_default
    &&& n.created_at == now
    &&& n.updated_at == now
}

/// `n` is the node of room `r`, with ids `d`, in the office with id
/// `office`: under it at depth 2, unowned, without members or children.
pub open spec fn room_node_made(
    n: DomainNode,
    r: RoomSetup,
    d: (String, Option<String>),
    office: Seq<char>,
    room_type: Seq<char>,
    now: u64,
) -> bool {
    &&& n.id == d.0
    &&& opt_view(n.parent_id) == Some(office)
    &&& n.entity_type matches NodeEntityType::Child(t) && t@ == room_type
    &&& n.depth == 2
    &&& n.name == r.name
    &&& n.description@ == description_or_empty(r.description)
    &&& n.owner_id@.len() == 0
    &&& n.members@.len() == 0
    &&& n.children@.len() == 0
    &&& n.mdx_content == r.mdx_content
    &&& n.chat_enabled == r.chat_enabled
    &&& opt_view(n.chat_channel_id) == opt_view(d.1)
    &&& !n.is_default
    &&& n.created_at == now
    &&& n.updated_at == now
}

/// `new` is the root node `old` with `added` appended to its children.
pub open spec fn root_extended(old: DomainNode, new: DomainNode, added: Seq<Seq<char>>) -> bool {
    &&& new.id == old.id
    &&& new.parent_id == old.parent_id
    &&& new.entity_type == old.entity_type
    &&& new.depth == old.depth
    &&& new.name == old.name
    &&& new.description == old.description
    &&& new.owner_id == old.owner_id
    &&& new.members@ == old.members@
    &&& str_views(new.children@) == str_views(old.children@) + added
    &&& new.mdx_content == old.mdx_content
    &&& new.chat_enabled == old.chat_enabled
    &&& new.chat_channel_id == old.chat_channel_id
    &&& new.is_default == old.is_default
    &&& new.created_at == old.created_at
    &&& new.updated_at == old.updated_at
}

/// `new` is `old` with the offices laid out under the root with the ids
/// `ids`: the drawn ids are added, the root lists the offices after its
/// other children, every other entry is unchanged, and each office and room
/// has its node.
pub open spec fn placed(
    old: Map<Seq<char>, DomainNode>,
    new: Map<Seq<char>, DomainNode>,
    offices: Seq<OfficeSetup>,
    ids: Seq<DrawnIds>,
    office_type: Seq<char>,
    room_type: Seq<char>,
    now: u64,
) -> bool {
    &&& forall|k: Seq<char>| #[trigger] new.contains_key(k) <==> old.contains_key(k) || is_new_id(ids, k)
    &&& forall|k: Seq<char>| #[trigger] old.contains_key(k) && k != WORKSPACE_ROOT_ID@ ==> new[k] == old[k]
    &&& old.contains_key(WORKSPACE_ROOT_ID@) ==> root_extended(
        old[WORKSPACE_ROOT_ID@],
        new[WORKSPACE_ROOT_ID@],
        office_keys(ids, ids.len() as int),
    )
    &&& forall|i: int|
        0 <= i < ids.len() ==> office_node_made(
            new[(#[trigger] ids[i]).office@],
            offices[i],
            ids[i],
            default_at(offices, i),
            office_type,
            now,
        )
    &&& forall|i: int, j: int|
        0 <= i < ids.len() && 0 <= j < ids[i].rooms@.len() ==> room_node_made(
            new[#[trigger] room_key(ids, i, j)],
            offices[i].rooms@[j],
            ids[i].rooms@[j],
            ids[i].office@,
            room_type,
            now,
        )
}

/// The keys of office `d`'s rooms, in order.
pub open spec fn room_keys_of(d: DrawnIds) -> Seq<Seq<char>> {
    Seq::new(d.rooms@.len(), |j: int| d.rooms@[j].0@)
}

/// The keys a layout adds, in the order it adds them: for each office, its
/// rooms' and then its own.
pub open spec fn layout_keys(ids: Seq<DrawnIds>) -> Seq<Seq<char>>
    decreases ids.len(),
{
    if ids.len() == 0 {
        Seq::empty()
    } else {
        layout_keys(ids.drop_last()) + room_keys_of(ids.last()) + seq![ids.last().office@]
    }
}

/// The ids of the first `n` offices.
pub open spec fn office_keys(ids: Seq<DrawnIds>, n: int) -> Seq<Seq<char>> {
    Seq::new(n as nat, |i: int| ids[i].office@)
}

/// Which offices are the default, one flag per office: the one marked, or
/// the first when none is. More than one marked is refused, with the count.
pub fn default_offices(offices: &Vec<OfficeSetup>) -> (r: Result<Vec<bool>, StructureError>)
    ensures
        marked_defaults(offices@) > 1 ==> r == Err::<Vec<bool>, StructureError>(
            StructureError::MultipleDefaultOffices(marked_defaults(offices@) as usize),
        ),
        r is Ok <==> marked_defaults(offices@) <= 1,
        r matches Ok(v) ==> v@.len() == offices@.len() && forall|i: int|
            0 <= i < v@.len() ==> v@[i] == default_at(offices@, i),
{
    let mut count: usize = 0;
    let mut i: usize = 0;
    while i < offices.len()
        invariant
            0 <= i <= offices@.len(),
            count == marked_defaults(offices@.subrange(0, i as int)),
            count <= i,
        decreases offices@.len() - i,
    {
        proof {
            assert(offices@.subrange(0, i + 1).drop_last() =~= offices@.subrange(0, i as int));
        }
        if offices[i].is_default {
            count = count + 1;
        }
        i = i + 1;
    }
    proof {
        assert(offices@.subrange(0, offices@.len() as int) =~= offices@);
    }
    if count > 1 {
        return Err(StructureError::MultipleDefaultOffices(count));
    }
    let mut flags: Vec<bool> = Vec::new();
    let mut i: usize = 0;
    while i < offices.len()
        invariant
            0 <= i <= offices@.len(),
            count == marked_defaults(offices@),
            flags@.len() == i,
            forall|a: int| 0 <= a < i ==> flags@[a] == default_at(offices@, a),
        decreases offices@.len() - i,
    {
        if count == 0 {
            flags.push(i == 0);
        } else {
            flags.push(offices[i].is_default);
        }
        i = i + 1;
    }
    Ok(flags)
}


/// Whether `k` is one of the ids drawn for the first `n` offices or their
/// rooms.
pub open spec fn is_new_id_upto(ids: Seq<DrawnIds>, n: int, k: Seq<char>) -> bool {
    exists|a: int|
        0 <= a < n && (#[trigger] ids[a].office@ == k || exists|j: int|
            0 <= j < ids[a].rooms@.len() && room_key(ids, a, j) == k)
}

/// A copy of an optional string.
fn copy_opt(o: &Option<String>) -> (r: Option<String>)
    ensures
        r == *o,
{
    match o {
        Some(s) => Some(s.clone()),
        None => None,
    }
}

/// The description given, or the empty one.
fn description_text(d: &Option<String>) -> (s: String)
    ensures
        s@ == description_or_empty(*d),
{
    match d {
        Some(t) => t.clone(),
        None => String::new(),
    }
}

/// A copy of the entity type `t`.
fn copy_entity_type(t: &NodeEntityType) -> (r: NodeEntityType)
    ensures
        r == *t,
{
    match t {
        NodeEntityType::Workspace => NodeEntityType::Workspace,
        NodeEntityType::Child(name) => NodeEntityType::Child(name.clone()),
    }
}

/// A copy of the node `n` with `child` appended to its children.
fn with_child(n: &DomainNode, child: &String) -> (r: DomainNode)
    ensures
        root_extended(*n, r, seq![child@]),
{
    let mut children = copy_strings(&n.children);
    children.push(child.clone());
    proof {
        assert(str_views(children@) =~= str_views(n.children@) + seq![child@]);
    }
    DomainNode {
        id: n.id.clone(),
        parent_id: copy_opt(&n.parent_id),
        entity_type: copy_entity_type(&n.entity_type),
        depth: n.depth,
        name: n.name.clone(),
        description: n.description.clone(),
        owner_id: n.owner_id.clone(),
        members: copy_strings(&n.members),
        children,
        mdx_content: n.mdx_content.clone(),
        chat_enabled: n.chat_enabled,
        chat_channel_id: copy_opt(&n.chat_channel_id),
        is_default: n.is_default,
        created_at: n.created_at,
        updated_at: n.updated_at,
    }
}

/// The node of room `room`, with id `id` and chat channel `chat`, in the
/// office `office_id`.
fn room_node(
    room: &RoomSetup,
    id: &String,
    chat: &Option<String>,
    office_id: &String,
    room_type: &str,
    now: u64,
) -> (n: DomainNode)
    ensures
        room_node_made(n, *room, (*id, *chat), office_id@, room_type@, now),
{
    DomainNode {
        id: id.clone(),
        parent_id: Some(office_id.clone()),
        entity_type: NodeEntityType::Child(room_type.to_owned()),
        depth: 2,
        name: room.name.clone(),
        description: description_text(&room.description),
        owner_id: String::new(),
        members: Vec::new(),
        children: Vec::new(),
        mdx_content: room.mdx_content.clone(),
        chat_enabled: room.chat_enabled,
        chat_channel_id: copy_opt(chat),
        is_default: false,
        created_at: now,
        updated_at: now,
    }
}

/// The node of office `office`, with ids `drawn`, its rooms' ids as its
/// children.
fn office_node(
    office: &OfficeSetup,
    drawn: &DrawnIds,
    children: Vec<String>,
    is_default: bool,
    office_type: &str,
    now: u64,
) -> (n: DomainNode)
    requires
        str_views(children@) == Seq::new(drawn.rooms@.len(), |j: int| drawn.rooms@[j].0@),
    ensures
        office_node_made(n, *office, *drawn, is_default, office_type@, now),
{
    let root: String = WORKSPACE_ROOT_ID.to_owned();
    DomainNode {
        id: drawn.office.clone(),
        parent_id: Some(root),
        entity_type: NodeEntityType::Child(office_type.to_owned()),
        depth: 1,
        name: office.name.clone(),
        description: description_text(&office.description),
        owner_id: String::new(),
        members: Vec::new(),
        children,
        mdx_content: office.mdx_content.clone(),
        chat_enabled: office.chat_enabled,
        chat_channel_id: copy_opt(&drawn.office_chat),
        is_default,
        created_at: now,
        updated_at: now,
    }
}

/// Lay the offices out under the workspace root, with the ids drawn for
/// them: office nodes at depth 1 under the root, which lists them after its
/// other children; room nodes at depth 2 under their office. Nothing else
/// changes. More than one office marked the default is refused.
#[verifier::rlimit(60)]
pub fn place_structure(
    nodes: &mut NodeMap,
    offices: &Vec<OfficeSetup>,
    ids: &Vec<DrawnIds>,
    office_type: &str,
    room_type: &str,
    now: u64,
) -> (r: Result<(), StructureError>)
    requires
        ids_fit(offices@, ids@),
        ids_fresh(old(nodes)@, ids@),
    ensures
        marked_defaults(offices@) > 1 ==> r == Err::<(), StructureError>(
            StructureError::MultipleDefaultOffices(marked_defaults(offices@) as usize),
        ),
        r is Ok <==> marked_defaults(offices@) <= 1,
        r is Err ==> final(nodes)@ == old(nodes)@,
        r is Ok ==> placed(old(nodes)@, final(nodes)@, offices@, ids@, office_type@, room_type@, now),
        r is Ok ==> final(nodes).key_seq() == old(nodes).key_seq() + layout_keys(ids@),
        r is Err ==> final(nodes).key_seq() == old(nodes).key_seq(),
{
    let flags = match default_offices(offices) {
        Ok(f) => f,
        Err(e) => {
            return Err(e);
        },
    };
    let ghost start = nodes@;
    let ghost start_keys = nodes.key_seq();
    let mut i: usize = 0;
    while i < offices.len()
        invariant
            0 <= i <= offices@.len(),
            start_keys == old(nodes).key_seq(),
            nodes.key_seq() == start_keys + layout_keys(ids@.subrange(0, i as int)),
            ids_fit(offices@, ids@),
            ids_fresh(start, ids@),
            start == old(nodes)@,
            flags@.len() == offices@.len(),
            forall|a: int| 0 <= a < flags@.len() ==> flags@[a] == default_at(offices@, a),
            forall|k: Seq<char>|
                #[trigger] nodes@.contains_key(k) <==> start.contains_key(k) || is_new_id_upto(ids@, i as int, k),
            forall|k: Seq<char>|
                #[trigger] start.contains_key(k) && k != WORKSPACE_ROOT_ID@ ==> nodes@[k] == start[k],
            start.contains_key(WORKSPACE_ROOT_ID@) ==> root_extended(
                start[WORKSPACE_ROOT_ID@],
                nodes@[WORKSPACE_ROOT_ID@],
                office_keys(ids@, i as int),
            ),
            forall|a: int|
                0 <= a < i ==> office_node_made(
                    nodes@[(#[trigger] ids@[a]).office@],
                    offices@[a],
                    ids@[a],
                    default_at(offices@, a),
                    office_type@,
                    now,
                ),
            forall|a: int, j: int|
                0 <= a < i && 0 <= j < ids@[a].rooms@.len() ==> room_node_made(
                    nodes@[#[trigger] room_key(ids@, a, j)],
                    offices@[a].rooms@[j],
                    ids@[a].rooms@[j],
                    ids@[a].office@,
                    room_type@,
                    now,
                ),
        decreases offices@.len() - i,
    {
        let setup = &offices[i];
        let drawn = &ids[i];
        proof {
            assert(drawn.rooms@.len() == setup.rooms@.len());
        }
        let mut children: Vec<String> = Vec::new();
        let mut j: usize = 0;
        while j < setup.rooms.len()
            invariant
                0 <= i < offices@.len(),
                0 <= j <= setup.rooms@.len(),
                nodes.key_seq() == start_keys + layout_keys(ids@.subrange(0, i as int)) + Seq::new(
                    j as nat,
                    |l: int| drawn.rooms@[l].0@,
                ),
                *setup == offices@[i as int],
                *drawn == ids@[i as int],
                drawn.rooms@.len() == setup.rooms@.len(),
                ids_fit(offices@, ids@),
                ids_fresh(start, ids@),
                children@.len() == j,
                str_views(children@) == Seq::new(j as nat, |l: int| drawn.rooms@[l].0@),
                forall|k: Seq<char>|
                    #[trigger] nodes@.contains_key(k) <==> start.contains_key(k) || is_new_id_upto(ids@, i as int, k)
                        || exists|l: int| 0 <= l < j && room_key(ids@, i as int, l) == k,
                forall|k: Seq<char>|
                    #[trigger] start.contains_key(k) && k != WORKSPACE_ROOT_ID@ ==> nodes@[k] == start[k],
                start.contains_key(WORKSPACE_ROOT_ID@) ==> root_extended(
                    start[WORKSPACE_ROOT_ID@],
                    nodes@[WORKSPACE_ROOT_ID@],
                    office_keys(ids@, i as int),
                ),
                forall|a: int|
                    0 <= a < i ==> office_node_made(
                        nodes@[(#[trigger] ids@[a]).office@],
                        offices@[a],
                        ids@[a],
                        default_at(offices@, a),
                        office_type@,
                        now,
                    ),
                forall|a: int, l: int|
                    (0 <= a < i && 0 <= l < ids@[a].rooms@.len()) || (a == i && 0 <= l < j) ==> room_node_made(
                        nodes@[#[trigger] room_key(ids@, a, l)],
                        offices@[a].rooms@[l],
                        ids@[a].rooms@[l],
                        ids@[a].office@,
                        room_type@,
                        now,
                    ),
            decreases setup.rooms@.len() - j,
        {
            let room_id = &drawn.rooms[j].0;
            let node = room_node(&setup.rooms[j], room_id, &drawn.rooms[j].1, &drawn.office, room_type, now);
            let ghost key = room_key(ids@, i as int, j as int);
            let ghost before = nodes@;
            let ghost kids = children@;
            children.push(room_id.clone());
            nodes.insert(room_id.clone(), node);
            proof {
                assert(is_new_id(ids@, key));
                assert(!start.contains_key(key) && key != WORKSPACE_ROOT_ID@);
                assert forall|a: int| 0 <= a < i implies ids@[a].office@ != key by {}
                assert forall|a: int, l: int|
                    (0 <= a < i && 0 <= l < ids@[a].rooms@.len()) || (a == i && 0 <= l < j) implies room_key(
                        ids@,
                        a,
                        l,
                    ) != key by {}
                assert(!before.contains_key(key));
                assert(children@ == kids.push(*room_id));
                assert forall|l: int| 0 <= l < j + 1 implies #[trigger] str_views(children@)[l] == drawn.rooms@[l].0@ by {
                    if l < j {
                        assert(children@[l] == kids[l]);
                        assert(str_views(kids)[l] == drawn.rooms@[l].0@);
                    }
                }
                assert(str_views(children@) =~= Seq::new((j + 1) as nat, |l: int| drawn.rooms@[l].0@));
                assert(Seq::new((j + 1) as nat, |l: int| drawn.rooms@[l].0@) =~= Seq::new(
                    j as nat,
                    |l: int| drawn.rooms@[l].0@,
                ).push(key));
            }
            j = j + 1;
        }
        let is_default = flags[i];
        let office_id = drawn.office.clone();
        let node = office_node(setup, drawn, children, is_default, office_type, now);
        let ghost okey = office_id@;
        proof {
            assert(is_new_id(ids@, okey));
            assert forall|a: int| 0 <= a < i implies ids@[a].office@ != okey by {}
            assert forall|a: int, l: int|
                (0 <= a < i && 0 <= l < ids@[a].rooms@.len()) || (a == i && 0 <= l < setup.rooms@.len()) implies room_key(
                ids@,
                a,
                l,
            ) != okey by {}
        }
        let ghost mid0 = nodes@;
        let ghost made = node;
        nodes.insert(office_id, node);
        let ghost mid1 = nodes@;
        let extended = match nodes.get(WORKSPACE_ROOT_ID) {
            Some(root) => Some(with_child(root, &drawn.office)),
            None => None,
        };
        match extended {
            Some(root) => {
                nodes.insert(WORKSPACE_ROOT_ID.to_owned(), root);
            },
            None => {},
        }
        proof {
            assert(ids@.subrange(0, i + 1).drop_last() =~= ids@.subrange(0, i as int));
            assert(ids@.subrange(0, i + 1).last() == ids@[i as int]);
            assert(Seq::new(setup.rooms@.len(), |l: int| drawn.rooms@[l].0@) =~= room_keys_of(ids@[i as int]));
            if start.contains_key(WORKSPACE_ROOT_ID@) {
                assert(mid1.contains_key(WORKSPACE_ROOT_ID@));
            }
            assert(nodes.key_seq() =~= start_keys + layout_keys(ids@.subrange(0, i + 1)));
            assert(office_keys(ids@, i + 1) =~= office_keys(ids@, i as int).push(okey));
            assert(okey != WORKSPACE_ROOT_ID@);
            assert forall|k: Seq<char>| k != WORKSPACE_ROOT_ID@ && k != okey implies #[trigger] nodes@[k] == mid0[k] by {}
            assert(nodes@[okey] == made);
            assert forall|a: int|
                0 <= a < i + 1 implies office_node_made(
                    nodes@[(#[trigger] ids@[a]).office@],
                    offices@[a],
                    ids@[a],
                    default_at(offices@, a),
                    office_type@,
                    now,
                ) by {
                if a < i {
                    assert(is_new_id(ids@, ids@[a].office@));
                    assert(ids@[a].office@ != okey);
                    assert(nodes@[ids@[a].office@] == mid0[ids@[a].office@]);
                }
            }
            assert forall|a: int, j: int|
                0 <= a < i + 1 && 0 <= j < ids@[a].rooms@.len() implies room_node_made(
                    nodes@[#[trigger] room_key(ids@, a, j)],
                    offices@[a].rooms@[j],
                    ids@[a].rooms@[j],
                    ids@[a].office@,
                    room_type@,
                    now,
                ) by {
                assert(is_new_id(ids@, room_key(ids@, a, j)));
                assert(room_key(ids@, a, j) != okey);
                assert(nodes@[room_key(ids@, a, j)] == mid0[room_key(ids@, a, j)]);
            }
            if start.contains_key(WORKSPACE_ROOT_ID@) {
                assert(mid0.contains_key(WORKSPACE_ROOT_ID@));
                assert(mid1[WORKSPACE_ROOT_ID@] == mid0[WORKSPACE_ROOT_ID@]);
                assert(str_views(nodes@[WORKSPACE_ROOT_ID@].children@) =~= str_views(
                    start[WORKSPACE_ROOT_ID@].children@,
                ) + office_keys(ids@, i + 1));
            }
            assert forall|k: Seq<char>|
                start.contains_key(k) || is_new_id_upto(ids@, i + 1, k) implies #[trigger] nodes@.contains_key(k) by {
                if is_new_id_upto(ids@, i + 1, k) && !is_new_id_upto(ids@, i as int, k) {
                    let a = choose|a: int|
                        0 <= a < i + 1 && (#[trigger] ids@[a].office@ == k || exists|j: int|
                            0 <= j < ids@[a].rooms@.len() && room_key(ids@, a, j) == k);
                    assert(a == i);
                }
            }
            assert forall|k: Seq<char>|
                #[trigger] nodes@.contains_key(k) implies start.contains_key(k) || is_new_id_upto(ids@, i + 1, k) by {
                if k == okey {
                    assert(ids@[i as int].office@ == k);
                } else if !start.contains_key(k) && !is_new_id_upto(ids@, i as int, k) {
                    assert(mid0.contains_key(k));
                    let l = choose|l: int| 0 <= l < setup.rooms@.len() && room_key(ids@, i as int, l) == k;
                    assert(0 <= l < ids@[i as int].rooms@.len() && room_key(ids@, i as int, l) == k);
                }
            }
        }
        i = i + 1;
    }
    proof {
        assert(ids@.subrange(0, ids@.len() as int) =~= ids@);
    }
    Ok(())
}


/// The id drawn at slot `s` of office `a`: its own at slot 0, its room
/// `s - 1`'s after that.
pub open spec fn slot_key(ids: Seq<DrawnIds>, a: int, s: int) -> Seq<char> {
    if s == 0 {
        ids[a].office@
    } else {
        room_key(ids, a, s - 1)
    }
}

/// Whether `(a, s)` is a slot of the drawn ids.
pub open spec fn valid_slot(ids: Seq<DrawnIds>, a: int, s: int) -> bool {
    0 <= a < ids.len() && 0 <= s <= ids[a].rooms@.len()
}

/// Whether slot `(a, s)` comes before slot `(b, t)`.
pub open spec fn slot_before(a: int, s: int, b: int, t: int) -> bool {
    a < b || (a == b && s < t)
}

/// The drawn ids, slot by slot, are all different, none is the root's, and
/// none is taken in `m`.
pub open spec fn slots_fresh(m: Map<Seq<char>, DomainNode>, ids: Seq<DrawnIds>) -> bool {
    &&& forall|a: int, s: int|
        #[trigger] valid_slot(ids, a, s) ==> !m.contains_key(slot_key(ids, a, s)) && slot_key(ids, a, s)
            != WORKSPACE_ROOT_ID@
    &&& forall|a: int, s: int, b: int, t: int|
        #[trigger] valid_slot(ids, a, s) && #[trigger] valid_slot(ids, b, t) && (a != b || s != t) ==> slot_key(
            ids,
            a,
            s,
        ) != slot_key(ids, b, t)
}

/// Freshness slot by slot is freshness.
proof fn lemma_slots_fresh(m: Map<Seq<char>, DomainNode>, ids: Seq<DrawnIds>)
    ensures
        slots_fresh(m, ids) <==> ids_fresh(m, ids),
{
    if slots_fresh(m, ids) {
        assert forall|k: Seq<char>| is_new_id(ids, k) implies !m.contains_key(k) && k != WORKSPACE_ROOT_ID@ by {
            let a = choose|a: int|
                0 <= a < ids.len() && (#[trigger] ids[a].office@ == k || exists|j: int|
                    0 <= j < ids[a].rooms@.len() && room_key(ids, a, j) == k);
            if ids[a].office@ == k {
                assert(valid_slot(ids, a, 0));
            } else {
                let j = choose|j: int| 0 <= j < ids[a].rooms@.len() && room_key(ids, a, j) == k;
                assert(valid_slot(ids, a, j + 1));
            }
        }
        assert forall|a: int, b: int|
            0 <= a < ids.len() && 0 <= b < ids.len() && a != b implies (#[trigger] ids[a]).office@
            != (#[trigger] ids[b]).office@ by {
            assert(valid_slot(ids, a, 0) && valid_slot(ids, b, 0));
        }
        assert forall|a: int, b: int, j: int|
            0 <= a < ids.len() && 0 <= b < ids.len() && 0 <= j < ids[b].rooms@.len() implies ids[a].office@
            != room_key(ids, b, j) by {
            assert(valid_slot(ids, a, 0) && valid_slot(ids, b, j + 1));
        }
        assert forall|a: int, j: int, b: int, l: int|
            0 <= a < ids.len() && 0 <= b < ids.len() && 0 <= j < ids[a].rooms@.len() && 0 <= l
                < ids[b].rooms@.len() && (a != b || j != l) implies room_key(ids, a, j) != room_key(ids, b, l) by {
            assert(valid_slot(ids, a, j + 1) && valid_slot(ids, b, l + 1));
        }
    }
    if ids_fresh(m, ids) {
        assert forall|a: int, s: int| #[trigger] valid_slot(ids, a, s) implies !m.contains_key(slot_key(ids, a, s))
            && slot_key(ids, a, s) != WORKSPACE_ROOT_ID@ by {
            if s == 0 {
                assert(is_new_id(ids, ids[a].office@));
            } else {
                assert(room_key(ids, a, s - 1) == slot_key(ids, a, s));
                assert(is_new_id(ids, room_key(ids, a, s - 1)));
            }
        }
        assert forall|a: int, s: int, b: int, t: int|
            #[trigger] valid_slot(ids, a, s) && #[trigger] valid_slot(ids, b, t) && (a != b || s != t) implies slot_key(
            ids,
            a,
            s,
        ) != slot_key(ids, b, t) by {
            if s == 0 && t == 0 {
                assert(ids[a].office@ != ids[b].office@);
            } else if s == 0 {
                assert(ids[a].office@ != room_key(ids, b, t - 1));
            } else if t == 0 {
                assert(ids[b].office@ != room_key(ids, a, s - 1));
            } else {
                assert(room_key(ids, a, s - 1) != room_key(ids, b, t - 1));
            }
        }
    }
}


/// The table `seen` records, for every slot before `(a, s)`, that slot under
/// its id, and nothing else; the ids of those slots are not taken in `m`
/// and are not the root's.
pub open spec fn seen_ok(
    seen: Map<Seq<char>, (usize, usize)>,
    m: Map<Seq<char>, DomainNode>,
    ids: Seq<DrawnIds>,
    a: int,
    s: int,
) -> bool {
    &&& forall|b: int, t: int|
        #[trigger] valid_slot(ids, b, t) && slot_before(b, t, a, s) ==> {
            &&& !m.contains_key(slot_key(ids, b, t))
            &&& slot_key(ids, b, t) != WORKSPACE_ROOT_ID@
            &&& seen.contains_key(slot_key(ids, b, t))
            &&& seen[slot_key(ids, b, t)].0 == b
            &&& seen[slot_key(ids, b, t)].1 == t
        }
    &&& forall|k: Seq<char>|
        #[trigger] seen.contains_key(k) ==> {
            &&& valid_slot(ids, seen[k].0 as int, seen[k].1 as int)
            &&& slot_before(seen[k].0 as int, seen[k].1 as int, a, s)
            &&& slot_key(ids, seen[k].0 as int, seen[k].1 as int) == k
        }
}

/// Take the id `x` of slot `(a, s)` into `seen`; false when it is taken in
/// `nodes`, is the root's, or was drawn before.
fn record_slot(
    seen: &mut StrMap<(usize, usize)>,
    nodes: &NodeMap,
    ids: &Vec<DrawnIds>,
    a: usize,
    s: usize,
    x: &String,
) -> (ok: bool)
    requires
        seen_ok(old(seen)@, nodes@, ids@, a as int, s as int),
        valid_slot(ids@, a as int, s as int),
        x@ == slot_key(ids@, a as int, s as int),
    ensures
        ok ==> seen_ok(final(seen)@, nodes@, ids@, a as int, s + 1),
        !ok ==> !slots_fresh(nodes@, ids@),
{
    if nodes.contains_key(x.as_str()) || crate::text::str_eq(x.as_str(), WORKSPACE_ROOT_ID) {
        proof {
            assert(valid_slot(ids@, a as int, s as int));
        }
        return false;
    }
    match seen.get(x.as_str()) {
        Some(earlier) => {
            proof {
                let (b, t) = *earlier;
                assert(old(seen)@.contains_key(x@));
                assert(valid_slot(ids@, b as int, t as int));
                assert(slot_before(b as int, t as int, a as int, s as int));
                assert(valid_slot(ids@, a as int, s as int));
            }
            return false;
        },
        None => {},
    }
    seen.insert(x.clone(), (a, s));
    proof {
        assert forall|b: int, t: int|
            #[trigger] valid_slot(ids@, b, t) && slot_before(b, t, a as int, s + 1) implies {
                &&& !nodes@.contains_key(slot_key(ids@, b, t))
                &&& slot_key(ids@, b, t) != WORKSPACE_ROOT_ID@
                &&& seen@.contains_key(slot_key(ids@, b, t))
                &&& seen@[slot_key(ids@, b, t)].0 == b
                &&& seen@[slot_key(ids@, b, t)].1 == t
            } by {
            if slot_before(b, t, a as int, s as int) {
                assert(old(seen)@.contains_key(slot_key(ids@, b, t)));
                assert(slot_key(ids@, b, t) != x@);
            }
        }
    }
    true
}

/// Whether the ids drawn are fresh in `nodes`: all different, none the
/// root's, and none taken.
pub fn ids_are_fresh(nodes: &NodeMap, ids: &Vec<DrawnIds>) -> (b: bool)
    ensures
        b == ids_fresh(nodes@, ids@),
{
    proof {
        lemma_slots_fresh(nodes@, ids@);
    }
    let mut seen: StrMap<(usize, usize)> = StrMap::new();
    let mut a: usize = 0;
    while a < ids.len()
        invariant
            0 <= a <= ids@.len(),
            seen_ok(seen@, nodes@, ids@, a as int, 0),
            slots_fresh(nodes@, ids@) == ids_fresh(nodes@, ids@),
        decreases ids@.len() - a,
    {
        let d = &ids[a];
        if !record_slot(&mut seen, nodes, ids, a, 0, &d.office) {
            return false;
        }
        let n = d.rooms.len();
        let mut j: usize = 0;
        while j < n
            invariant
                0 <= a < ids@.len(),
                *d == ids@[a as int],
                n == d.rooms@.len(),
                0 <= j <= n,
                seen_ok(seen@, nodes@, ids@, a as int, j + 1),
                slots_fresh(nodes@, ids@) == ids_fresh(nodes@, ids@),
            decreases n - j,
        {
            if !record_slot(&mut seen, nodes, ids, a, j + 1, &d.rooms[j].0) {
                return false;
            }
            j = j + 1;
        }
        proof {
            assert forall|b: int, t: int|
                #[trigger] valid_slot(ids@, b, t) && slot_before(b, t, a + 1, 0) implies slot_before(
                b,
                t,
                a as int,
                n + 1,
            ) by {}
            assert forall|k: Seq<char>| #[trigger] seen@.contains_key(k) implies slot_before(
                seen@[k].0 as int,
                seen@[k].1 as int,
                a + 1,
                0,
            ) by {}
        }
        a = a + 1;
    }
    proof {
        assert forall|b: int, t: int, c: int, u: int|
            #[trigger] valid_slot(ids@, b, t) && #[trigger] valid_slot(ids@, c, u) && (b != c || t != u) implies slot_key(
            ids@,
            b,
            t,
        ) != slot_key(ids@, c, u) by {
            assert(slot_before(b, t, a as int, 0));
            assert(slot_before(c, u, a as int, 0));
        }
    }
    true
}


/// Draw a fresh random id for every office and room, and one for the chat
/// channel of each that has chat enabled.
pub fn draw_structure_ids(offices: &Vec<OfficeSetup>) -> (ids: Vec<DrawnIds>)
    ensures
        ids_fit(offices@, ids@),
{
    let mut ids: Vec<DrawnIds> = Vec::new();
    let mut i: usize = 0;
    while i < offices.len()
        invariant
            0 <= i <= offices@.len(),
            ids@.len() == i,
            forall|a: int|
                0 <= a < i ==> {
                    &&& (#[trigger] ids@[a]).rooms@.len() == offices@[a].rooms@.len()
                    &&& (ids@[a].office_chat is Some <==> offices@[a].chat_enabled)
                    &&& forall|j: int|
                        0 <= j < ids@[a].rooms@.len() ==> ((#[trigger] ids@[a].rooms@[j]).1 is Some
                            <==> offices@[a].rooms@[j].chat_enabled)
                },
        decreases offices@.len() - i,
    {
        let office = &offices[i];
        let mut rooms: Vec<(String, Option<String>)> = Vec::new();
        let mut j: usize = 0;
        while j < office.rooms.len()
            invariant
                0 <= j <= office.rooms@.len(),
                rooms@.len() == j,
                forall|l: int| 0 <= l < j ==> ((#[trigger] rooms@[l]).1 is Some <==> office.rooms@[l].chat_enabled),
            decreases office.rooms@.len() - j,
        {
            let chat = if office.rooms[j].chat_enabled {
                Some(new_random_id())
            } else {
                None
            };
            rooms.push((new_random_id(), chat));
            j = j + 1;
        }
        let office_chat = if office.chat_enabled {
            Some(new_random_id())
        } else {
            None
        };
        ids.push(DrawnIds { office: new_random_id(), office_chat, rooms });
        i = i + 1;
    }
    ids
}

/// Lay the configured offices out under the workspace root of `nodes`,
/// with freshly drawn random ids. More than one office marked the default
/// is refused; so, leaving `nodes` as it was, is a drawn id that is already
/// taken.
pub fn initialize_workspace_structure(
    nodes: &mut NodeMap,
    offices: &Vec<OfficeSetup>,
    office_type: &str,
    room_type: &str,
    now: u64,
) -> (r: Result<(), StructureError>)
    ensures
        marked_defaults(offices@) > 1 ==> r == Err::<(), StructureError>(
            StructureError::MultipleDefaultOffices(marked_defaults(offices@) as usize),
        ),
        marked_defaults(offices@) <= 1 ==> r is Ok || r == Err::<(), StructureError>(StructureError::IdCollision),
        r == Err::<(), StructureError>(StructureError::IdCollision) ==> exists|ids: Seq<DrawnIds>|
            ids_fit(offices@, ids) && !ids_fresh(old(nodes)@, ids),
        r is Err ==> final(nodes)@ == old(nodes)@,
        r is Ok ==> exists|ids: Seq<DrawnIds>|
            ids_fit(offices@, ids) && ids_fresh(old(nodes)@, ids) && placed(
                old(nodes)@,
                final(nodes)@,
                offices@,
                ids,
                office_type@,
                room_type@,
                now,
            ) && final(nodes).key_seq() == old(nodes).key_seq() + layout_keys(ids),
        r is Err ==> final(nodes).key_seq() == old(nodes).key_seq(),
        offices@.len() == 0 ==> r is Ok && final(nodes)@ == old(nodes)@ && final(nodes).key_seq() == old(
            nodes,
        ).key_seq(),
{
    match default_offices(offices) {
        Ok(_) => {},
        Err(e) => {
            return Err(e);
        },
    }
    if offices.len() == 0 {
        proof {
            let e = Seq::<DrawnIds>::empty();
            let r = WORKSPACE_ROOT_ID@;
            assert(layout_keys(e) =~= Seq::<Seq<char>>::empty());
            assert(old(nodes).key_seq() + layout_keys(e) =~= old(nodes).key_seq());
            assert forall|k: Seq<char>| !is_new_id(e, k) by {}
            if nodes@.contains_key(r) {
                assert(str_views(nodes@[r].children@) + office_keys(e, 0) =~= str_views(nodes@[r].children@));
            }
            assert(placed(nodes@, nodes@, offices@, e, office_type@, room_type@, now));
            assert(ids_fit(offices@, e) && ids_fresh(nodes@, e));
        }
        return Ok(());
    }
    let ids = draw_structure_ids(offices);
    if !ids_are_fresh(nodes, &ids) {
        return Err(StructureError::IdCollision);
    }
    place_structure(nodes, offices, &ids, office_type, room_type, now)
}


// ─────────────────── the layout keeps the tree valid ───────────────────

/// Walking `a` steps up and then `b` more is walking `a + b` steps.
proof fn lemma_up_add(m: Map<Seq<char>, DomainNode>, s: Option<Seq<char>>, a: nat, b: nat)
    ensures
        up(m, up(m, s, a), b) == up(m, s, a + b),
    decreases b,
{
    if b > 0 {
        lemma_up_add(m, s, a, (b - 1) as nat);
        assert((a + b - 1) as nat == a + (b - 1) as nat);
    }
}

/// After its first step, a key's own walk is the walk up from the key.
proof fn lemma_walk_is_up(m: Map<Seq<char>, DomainNode>, c: Seq<char>, t: nat)
    requires
        m.contains_key(c),
        t >= 1,
    ensures
        node_walk(m, c, t) == up(m, Some(c), t),
{
    lemma_up_add(m, Some(c), 1, (t - 1) as nat);
    assert(up(m, Some(c), 0) == Some(c));
    assert(up(m, Some(c), 1) == parent_of(m, c));
}

/// When `m1` gives every key of `m0` the parent `m0` gives it, and `m0` has
/// no dangling parent, a walk that starts at a key of `m0` is the same in
/// both tables and stays among the keys of `m0`.
proof fn lemma_up_agrees(
    m0: Map<Seq<char>, DomainNode>,
    m1: Map<Seq<char>, DomainNode>,
    s: Option<Seq<char>>,
    k: nat,
)
    requires
        forall|c: Seq<char>| #[trigger] m0.contains_key(c) ==> parent_of(m1, c) == parent_of(m0, c),
        !has_dangling(m0),
        s matches Some(c) ==> m0.contains_key(c),
    ensures
        up(m1, s, k) == up(m0, s, k),
        up(m0, s, k) matches Some(c) ==> m0.contains_key(c),
    decreases k,
{
    if k > 0 {
        lemma_up_agrees(m0, m1, s, (k - 1) as nat);
        match up(m0, s, (k - 1) as nat) {
            Some(c) => {
                assert(m0.contains_key(c));
                assert(parent_of(m1, c) == parent_of(m0, c));
            },
            None => {},
        }
    }
}

/// In a table without dangling parents or cycles, the walk up from a key
/// never visits an id twice.
proof fn lemma_ancestors_distinct(m: Map<Seq<char>, DomainNode>, x: Seq<char>, a: nat, b: nat)
    requires
        m.contains_key(x),
        !has_dangling(m),
        !has_cycle(m),
        a < b,
        up(m, Some(x), b) is Some,
    ensures
        up(m, Some(x), a) != up(m, Some(x), b),
{
    if up(m, Some(x), a) == up(m, Some(x), b) {
        lemma_up_agrees(m, m, Some(x), a);
        let c = up(m, Some(x), a)->0;
        let d = (b - a) as nat;
        lemma_up_add(m, Some(x), a, d);
        assert(up(m, Some(c), d) == Some(c));
        lemma_up_add(m, Some(c), d, d);
        lemma_walk_is_up(m, c, d);
        lemma_walk_is_up(m, c, d + d);
        assert(node_walk(m, c, d) == node_walk(m, c, d + d));
        assert(d < d + d);
        assert(walk_repeats(m, c));
        assert(m.contains_key(c));
        assert(has_cycle(m));
    }
}

/// A key whose id and parent are as in `m0`, where `m1` agrees with `m0` on
/// the parents of its keys, walks the same way in both tables.
proof fn lemma_old_walk_kept(m0: Map<Seq<char>, DomainNode>, m1: Map<Seq<char>, DomainNode>, key: Seq<char>)
    requires
        forall|c: Seq<char>| #[trigger] m0.contains_key(c) ==> parent_of(m1, c) == parent_of(m0, c),
        !has_dangling(m0),
        m0.contains_key(key),
        m1[key].id == m0[key].id,
        m1[key].parent_id == m0[key].parent_id,
        !walk_repeats(m0, key),
    ensures
        !walk_repeats(m1, key),
{
    let s = opt_view(m0[key].parent_id);
    assert(m0.contains_key(key));
    assert forall|t: nat| #[trigger] node_walk(m1, key, t) == node_walk(m0, key, t) by {
        if t >= 1 {
            lemma_up_agrees(m0, m1, s, (t - 1) as nat);
        }
    }
    if walk_repeats(m1, key) {
        let (i, j) = choose|i: nat, j: nat|
            #![trigger node_walk(m1, key, i), node_walk(m1, key, j)]
            i < j && node_walk(m1, key, j) is Some && node_walk(m1, key, i) == node_walk(m1, key, j);
        assert(node_walk(m0, key, i) == node_walk(m0, key, j));
    }
}

/// A new office, directly under the root `root` of `m0`, does not walk in a
/// circle in `m1`.
proof fn lemma_office_walk(
    m0: Map<Seq<char>, DomainNode>,
    m1: Map<Seq<char>, DomainNode>,
    root: Seq<char>,
    o: Seq<char>,
)
    requires
        forall|c: Seq<char>| #[trigger] m0.contains_key(c) ==> parent_of(m1, c) == parent_of(m0, c),
        !has_dangling(m0),
        !has_cycle(m0),
        m0.contains_key(root),
        !m0.contains_key(o),
        m1[o].id@ == o,
        opt_view(m1[o].parent_id) == Some(root),
    ensures
        !walk_repeats(m1, o),
{
    if walk_repeats(m1, o) {
        let (i, j) = choose|i: nat, j: nat|
            #![trigger node_walk(m1, o, i), node_walk(m1, o, j)]
            i < j && node_walk(m1, o, j) is Some && node_walk(m1, o, i) == node_walk(m1, o, j);
        lemma_up_agrees(m0, m1, Some(root), (j - 1) as nat);
        if i == 0 {
            assert(m0.contains_key(o));
        } else {
            lemma_up_agrees(m0, m1, Some(root), (i - 1) as nat);
            lemma_ancestors_distinct(m0, root, (i - 1) as nat, (j - 1) as nat);
        }
    }
}

/// A new room, under a new office `o` directly under the root `root` of
/// `m0`, does not walk in a circle in `m1`.
proof fn lemma_room_walk(
    m0: Map<Seq<char>, DomainNode>,
    m1: Map<Seq<char>, DomainNode>,
    root: Seq<char>,
    o: Seq<char>,
    r: Seq<char>,
)
    requires
        forall|c: Seq<char>| #[trigger] m0.contains_key(c) ==> parent_of(m1, c) == parent_of(m0, c),
        !has_dangling(m0),
        !has_cycle(m0),
        m0.contains_key(root),
        !m0.contains_key(o),
        !m0.contains_key(r),
        o != r,
        m1.contains_key(o),
        opt_view(m1[o].parent_id) == Some(root),
        m1[r].id@ == r,
        opt_view(m1[r].parent_id) == Some(o),
    ensures
        !walk_repeats(m1, r),
{
    assert forall|t: nat| t >= 2 implies #[trigger] node_walk(m1, r, t) == up(m0, Some(root), (t - 2) as nat) by {
        lemma_up_add(m1, Some(o), 1, (t - 2) as nat);
        assert(up(m1, Some(o), 0) == Some(o));
        assert(up(m1, Some(o), 1) == Some(root));
        lemma_up_agrees(m0, m1, Some(root), (t - 2) as nat);
    }
    assert(node_walk(m1, r, 1) == Some(o));
    if walk_repeats(m1, r) {
        let (i, j) = choose|i: nat, j: nat|
            #![trigger node_walk(m1, r, i), node_walk(m1, r, j)]
            i < j && node_walk(m1, r, j) is Some && node_walk(m1, r, i) == node_walk(m1, r, j);
        if j >= 2 {
            lemma_up_agrees(m0, m1, Some(root), (j - 2) as nat);
            if i >= 2 {
                lemma_ancestors_distinct(m0, root, (i - 2) as nat, (j - 2) as nat);
            }
        }
    }
}

/// Appending keys that all name a parent adds no root.
proof fn lemma_root_ids_append(m: Map<Seq<char>, DomainNode>, ks: Seq<Seq<char>>, l: Seq<Seq<char>>)
    requires
        forall|i: int| 0 <= i < l.len() ==> m[#[trigger] l[i]].parent_id is Some,
    ensures
        root_ids_of(m, ks + l) == root_ids_of(m, ks),
        first_root_key(m, ks) is Some ==> first_root_key(m, ks + l) == first_root_key(m, ks),
    decreases l.len(),
{
    if l.len() > 0 {
        let l0 = l.drop_last();
        assert forall|i: int| 0 <= i < l0.len() implies m[#[trigger] l0[i]].parent_id is Some by {
            assert(l0[i] == l[i]);
        }
        lemma_root_ids_append(m, ks, l0);
        assert((ks + l).drop_last() =~= ks + l0);
        assert((ks + l).last() == l[l.len() - 1]);
    }
}

/// Two tables that give the keys of `ks` the same ids and parents have the
/// same roots among them.
proof fn lemma_root_ids_same(m0: Map<Seq<char>, DomainNode>, m1: Map<Seq<char>, DomainNode>, ks: Seq<Seq<char>>)
    requires
        forall|i: int|
            0 <= i < ks.len() ==> m1[#[trigger] ks[i]].parent_id == m0[ks[i]].parent_id && m1[ks[i]].id
                == m0[ks[i]].id,
    ensures
        root_ids_of(m1, ks) == root_ids_of(m0, ks),
        first_root_key(m1, ks) == first_root_key(m0, ks),
    decreases ks.len(),
{
    if ks.len() > 0 {
        let k0 = ks.drop_last();
        assert forall|i: int| 0 <= i < k0.len() implies m1[#[trigger] k0[i]].parent_id == m0[k0[i]].parent_id
            && m1[k0[i]].id == m0[k0[i]].id by {
            assert(k0[i] == ks[i]);
        }
        lemma_root_ids_same(m0, m1, k0);
        assert(ks.last() == ks[ks.len() - 1]);
    }
}

/// Every key a layout adds is one of the drawn ids.
#[verifier::spinoff_prover]
proof fn lemma_layout_keys_new(ids: Seq<DrawnIds>)
    ensures
        forall|i: int| 0 <= i < layout_keys(ids).len() ==> is_new_id(ids, #[trigger] layout_keys(ids)[i]),
    decreases ids.len(),
{
    if ids.len() > 0 {
        let d = ids.drop_last();
        let n = ids.len() - 1;
        lemma_layout_keys_new(d);
        let a = layout_keys(d);
        let rk = room_keys_of(ids.last());
        assert forall|i: int| 0 <= i < layout_keys(ids).len() implies is_new_id(ids, #[trigger] layout_keys(ids)[i]) by {
            let x = layout_keys(ids)[i];
            if i < a.len() {
                assert(x == a[i]);
                assert(is_new_id(d, x));
                assert forall|b: int| 0 <= b < d.len() implies #[trigger] d[b] == ids[b] by {}
                assert forall|b: int, j: int|
                    0 <= b < d.len() && 0 <= j < d[b].rooms@.len() implies #[trigger] room_key(d, b, j) == room_key(
                    ids,
                    b,
                    j,
                ) by {}
            } else if i < a.len() + rk.len() {
                let j = i - a.len();
                assert(x == rk[j]);
                assert(room_key(ids, n, j) == x);
                assert(ids[n].office@ == ids[n].office@);
            } else {
                assert(x == ids.last().office@);
                assert(ids[n].office@ == x);
            }
        }
    }
}

/// The node that the layout made for a drawn id names a parent: the root
/// for an office, the office for a room.
proof fn lemma_new_node_parent(
    m1: Map<Seq<char>, DomainNode>,
    offices: Seq<OfficeSetup>,
    ids: Seq<DrawnIds>,
    office_type: Seq<char>,
    room_type: Seq<char>,
    now: u64,
    x: Seq<char>,
) -> (a: int)
    requires
        is_new_id(ids, x),
        forall|i: int|
            0 <= i < ids.len() ==> office_node_made(
                m1[(#[trigger] ids[i]).office@],
                offices[i],
                ids[i],
                default_at(offices, i),
                office_type,
                now,
            ),
        forall|i: int, j: int|
            0 <= i < ids.len() && 0 <= j < ids[i].rooms@.len() ==> room_node_made(
                m1[#[trigger] room_key(ids, i, j)],
                offices[i].rooms@[j],
                ids[i].rooms@[j],
                ids[i].office@,
                room_type,
                now,
            ),
    ensures
        0 <= a < ids.len(),
        m1[x].id@ == x,
        x == ids[a].office@ ==> opt_view(m1[x].parent_id) == Some(WORKSPACE_ROOT_ID@),
        x != ids[a].office@ ==> opt_view(m1[x].parent_id) == Some(ids[a].office@) && exists|j: int|
            0 <= j < ids[a].rooms@.len() && room_key(ids, a, j) == x,
{
    let a = choose|a: int|
        0 <= a < ids.len() && (#[trigger] ids[a].office@ == x || exists|j: int|
            0 <= j < ids[a].rooms@.len() && room_key(ids, a, j) == x);
    if ids[a].office@ == x {
        assert(office_node_made(m1[ids[a].office@], offices[a], ids[a], default_at(offices, a), office_type, now));
    } else {
        let j = choose|j: int| 0 <= j < ids[a].rooms@.len() && room_key(ids, a, j) == x;
        assert(room_node_made(
            m1[room_key(ids, a, j)],
            offices[a].rooms@[j],
            ids[a].rooms@[j],
            ids[a].office@,
            room_type,
            now,
        ));
    }
    a
}

/// Laying offices out keeps a valid workspace tree valid: when the tree
/// holds the workspace root, the tree with the new offices under the root and
/// the new rooms under their offices again has one root, no dangling parent,
/// no cycle, and every node reachable from the root.
pub proof fn law_layout_keeps_tree_valid(
    old: NodeMap,
    new: NodeMap,
    offices: Seq<OfficeSetup>,
    ids: Seq<DrawnIds>,
    office_type: Seq<char>,
    room_type: Seq<char>,
    now: u64,
)
    requires
        old@.dom() == old.key_seq().to_set(),
        old@.dom().finite(),
        tree_valid(old),
        old@.contains_key(WORKSPACE_ROOT_ID@),
        ids_fresh(old@, ids),
        placed(old@, new@, offices, ids, office_type, room_type, now),
        new.key_seq() == old.key_seq() + layout_keys(ids),
    ensures
        tree_valid(new),
{
    let m0 = old@;
    let m1 = new@;
    let root = WORKSPACE_ROOT_ID@;
    let ks = old.key_seq();
    let l = layout_keys(ids);
    vstd::set_lib::lemma_set_empty_equivalency_len(m0.dom());
    assert(m0.dom().contains(root));
    assert(m0.dom().len() != 0);
    assert(root_ids(old).len() == 1);
    assert(!has_dangling(m0));
    assert(!has_cycle(m0));
    // The old entries keep their ids and parents.
    assert forall|c: Seq<char>| #[trigger] m0.contains_key(c) implies m1.contains_key(c) && m1[c].parent_id
        == m0[c].parent_id && m1[c].id == m0[c].id by {
        if c == root {
            assert(root_extended(m0[root], m1[root], office_keys(ids, ids.len() as int)));
        }
    }
    assert forall|c: Seq<char>| #[trigger] m0.contains_key(c) implies parent_of(m1, c) == parent_of(m0, c) by {}
    // One root, the old one.
    lemma_layout_keys_new(ids);
    assert forall|i: int| 0 <= i < l.len() implies m1[#[trigger] l[i]].parent_id is Some by {
        let a = lemma_new_node_parent(m1, offices, ids, office_type, room_type, now, l[i]);
    }
    lemma_root_ids_append(m1, ks, l);
    assert forall|i: int|
        0 <= i < ks.len() implies m1[#[trigger] ks[i]].parent_id == m0[ks[i]].parent_id && m1[ks[i]].id
        == m0[ks[i]].id by {
        assert(ks.to_set().contains(ks[i]));
        assert(m0.contains_key(ks[i]));
    }
    lemma_root_ids_same(m0, m1, ks);
    lemma_roots_first(m0, ks);
    let fk = first_root_key(m0, ks)->0;
    assert(ks.to_set().contains(fk));
    assert(m0.contains_key(fk));
    let root_id = m0[fk].id@;
    assert(root_ids(new) == root_ids(old));
    assert(first_root_key(m1, new.key_seq()) == Some(fk));
    assert(m1[fk].id@ == root_id);
    assert(all_reachable_from(m0, root_id));
    // No dangling parent.
    assert forall|key: Seq<char>| #[trigger] m1.contains_key(key) implies !(m1[key].parent_id is Some
        && !m1.contains_key(m1[key].parent_id->0@)) by {
        if m0.contains_key(key) {
            assert(m0.contains_key(key));
        } else {
            let a = lemma_new_node_parent(m1, offices, ids, office_type, room_type, now, key);
            assert(is_new_id(ids, ids[a].office@));
        }
    }
    assert(!has_dangling(m1));
    // No cycle.
    assert forall|key: Seq<char>| m1.contains_key(key) implies !#[trigger] walk_repeats(m1, key) by {
        if m0.contains_key(key) {
            lemma_old_walk_kept(m0, m1, key);
        } else {
            let a = lemma_new_node_parent(m1, offices, ids, office_type, room_type, now, key);
            let o = ids[a].office@;
            assert(is_new_id(ids, o));
            if key == o {
                lemma_office_walk(m0, m1, root, key);
            } else {
                let b = lemma_new_node_parent(m1, offices, ids, office_type, room_type, now, o);
                assert(ids[b].office@ == o) by {
                    if ids[b].office@ != o {
                        let j = choose|j: int| 0 <= j < ids[b].rooms@.len() && room_key(ids, b, j) == o;
                    }
                }
                lemma_room_walk(m0, m1, root, o, key);
            }
        }
    }
    assert(!has_cycle(m1));
    // Everything is reachable from the root.
    assert forall|k: Seq<char>| #[trigger] m1.contains_key(k) implies reachable(m1, set![root_id], k) by {
        assert forall|s: Set<Seq<char>>|
            set![root_id].subset_of(s) && #[trigger] closed_under_children(m1, s) implies s.contains(k) by {
            let added = office_keys(ids, ids.len() as int);
            assert(root_extended(m0[root], m1[root], added));
            assert(children_of(m1, root) == children_of(m0, root) + added);
            assert forall|c: Seq<char>, i: int|
                s.contains(c) && 0 <= i < children_of(m0, c).len() implies s.contains(
                #[trigger] children_of(m0, c)[i],
            ) by {
                assert(m0.contains_key(c));
                if c == root {
                    assert(children_of(m1, root)[i] == children_of(m0, root)[i]);
                } else {
                    assert(children_of(m1, c) == children_of(m0, c));
                }
                assert(s.contains(children_of(m1, c)[i]));
            }
            assert(closed_under_children(m0, s));
            assert(reachable(m0, set![root_id], root));
            assert(s.contains(root));
            if m0.contains_key(k) {
                assert(reachable(m0, set![root_id], k));
            } else {
                let a = lemma_new_node_parent(m1, offices, ids, office_type, room_type, now, k);
                let o = ids[a].office@;
                let n0 = children_of(m0, root).len();
                assert(children_of(m1, root)[n0 + a] == o);
                assert(s.contains(o));
                if k != o {
                    let j = choose|j: int| 0 <= j < ids[a].rooms@.len() && room_key(ids, a, j) == k;
                    assert(office_node_made(m1[o], offices[a], ids[a], default_at(offices, a), office_type, now));
                    assert(is_new_id(ids, o));
                    assert(children_of(m1, o)[j] == k);
                }
            }
        }
    }
}

} // verus!
