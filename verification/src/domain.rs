//! The entities of a workspace: the workspace itself, its offices and their
//! rooms. Each has an owner and a member list; offices list their rooms and
//! the workspace lists its offices.

use vstd::prelude::*;
use crate::seqs::{copy_strings, holds_str};
use crate::tree::WORKSPACE_ROOT_ID;

verus! {

/// The workspace.
#[derive(Debug)]
pub struct Workspace {
    pub id: String,
    pub name: String,
    pub description: String,
    pub owner_id: String,
    pub members: Vec<String>,
    pub offices: Vec<String>,
    pub metadata: Vec<u8>,
}

/// An office of the workspace.
#[derive(Debug)]
pub struct Office {
    pub id: String,
    pub name: String,
    pub description: String,
    pub owner_id: String,
    pub members: Vec<String>,
    pub rooms: Vec<String>,
    pub mdx_content: String,
}

/// A room of an office.
#[derive(Debug)]
pub struct Room {
    pub id: String,
    pub name: String,
    pub description: String,
    pub owner_id: String,
    pub office_id: String,
    pub members: Vec<String>,
    pub mdx_content: String,
}

/// Any entity of the workspace.
#[derive(Debug)]
pub enum Domain {
    Workspace { workspace: Workspace },
    Office { office: Office },
    Room { room: Room },
}

impl Clone for Workspace {
    /// A copy with the same contents.
    fn clone(&self) -> (r: Workspace)
        ensures
            r.id == self.id,
            r.name == self.name,
            r.description == self.description,
            r.owner_id == self.owner_id,
            r.members@ == self.members@,
            r.offices@ == self.offices@,
            r.metadata@ == self.metadata@,
    {
        Workspace {
            id: self.id.clone(),
            name: self.name.clone(),
            description: self.description.clone(),
            owner_id: self.owner_id.clone(),
            members: copy_strings(&self.members),
            offices: copy_strings(&self.offices),
            metadata: copy_bytes(&self.metadata),
        }
    }
}

impl Clone for Office {
    /// A copy with the same contents.
    fn clone(&self) -> (r: Office)
        ensures
            r.id == self.id,
            r.name == self.name,
            r.description == self.description,
            r.owner_id == self.owner_id,
            r.members@ == self.members@,
            r.rooms@ == self.rooms@,
            r.mdx_content == self.mdx_content,
    {
        Office {
            id: self.id.clone(),
            name: self.name.clone(),
            description: self.description.clone(),
            owner_id: self.owner_id.clone(),
            members: copy_strings(&self.members),
            rooms: copy_strings(&self.rooms),
            mdx_content: self.mdx_content.clone(),
        }
    }
}

impl Clone for Room {
    /// A copy with the same contents.
    fn clone(&self) -> (r: Room)
        ensures
            r.id == self.id,
            r.name == self.name,
            r.description == self.description,
            r.owner_id == self.owner_id,
            r.office_id == self.office_id,
            r.members@ == self.members@,
            r.mdx_content == self.mdx_content,
    {
        Room {
            id: self.id.clone(),
            name: self.name.clone(),
            description: self.description.clone(),
            owner_id: self.owner_id.clone(),
            office_id: self.office_id.clone(),
            members: copy_strings(&self.members),
            mdx_content: self.mdx_content.clone(),
        }
    }
}

/// A copy of a byte vector.
fn copy_bytes(v: &Vec<u8>) -> (r: Vec<u8>)
    ensures
        r@ == v@,
{
    let mut r: Vec<u8> = Vec::new();
    let mut i: usize = 0;
    while i < v.len()
        invariant
            0 <= i <= v@.len(),
            r@ == v@.subrange(0, i as int),
        decreases v@.len() - i,
    {
        r.push(v[i]);
        proof {
            assert(r@ =~= v@.subrange(0, i + 1));
        }
        i = i + 1;
    }
    proof {
        assert(r@ =~= v@);
    }
    r
}

impl Domain {
    /// The entity's id.
    pub open spec fn id_view(&self) -> Seq<char> {
        match self {
            Domain::Workspace { workspace } => workspace.id@,
            Domain::Office { office } => office.id@,
            Domain::Room { room } => room.id@,
        }
    }

    /// The entity's owner.
    pub open spec fn owner_view(&self) -> Seq<char> {
        match self {
            Domain::Workspace { workspace } => workspace.owner_id@,
            Domain::Office { office } => office.owner_id@,
            Domain::Room { room } => room.owner_id@,
        }
    }

    /// The entity's member list.
    pub open spec fn members_view(&self) -> Seq<String> {
        match self {
            Domain::Workspace { workspace } => workspace.members@,
            Domain::Office { office } => office.members@,
            Domain::Room { room } => room.members@,
        }
    }

    /// Whether `user` is on the entity's member list.
    pub open spec fn has_member(&self, user: Seq<char>) -> bool {
        holds_str(self.members_view(), user)
    }

    /// The two values hold the same entity, field by field.
    pub open spec fn same_as(&self, other: Domain) -> bool {
        match (*self, other) {
            (Domain::Workspace { workspace: a }, Domain::Workspace { workspace: b }) => a.id == b.id && a.name
                == b.name && a.description == b.description && a.owner_id == b.owner_id && a.members@
                == b.members@ && a.offices@ == b.offices@ && a.metadata@ == b.metadata@,
            (Domain::Office { office: a }, Domain::Office { office: b }) => a.id == b.id && a.name == b.name
                && a.description == b.description && a.owner_id == b.owner_id && a.members@ == b.members@
                && a.rooms@ == b.rooms@ && a.mdx_content == b.mdx_content,
            (Domain::Room { room: a }, Domain::Room { room: b }) => a.id == b.id && a.name == b.name
                && a.description == b.description && a.owner_id == b.owner_id && a.office_id == b.office_id
                && a.members@ == b.members@ && a.mdx_content == b.mdx_content,
            _ => false,
        }
    }

    /// The entity's id.
    pub fn id(&self) -> (r: &String)
        ensures
            r@ == self.id_view(),
    {
        match self {
            Domain::Workspace { workspace } => &workspace.id,
            Domain::Office { office } => &office.id,
            Domain::Room { room } => &room.id,
        }
    }

    /// The entity's owner.
    pub fn owner_id(&self) -> (r: &String)
        ensures
            r@ == self.owner_view(),
    {
        match self {
            Domain::Workspace { workspace } => &workspace.owner_id,
            Domain::Office { office } => &office.owner_id,
            Domain::Room { room } => &room.owner_id,
        }
    }

    /// The entity's member list.
    pub fn members(&self) -> (r: &Vec<String>)
        ensures
            r@ == self.members_view(),
    {
        match self {
            Domain::Workspace { workspace } => &workspace.members,
            Domain::Office { office } => &office.members,
            Domain::Room { room } => &room.members,
        }
    }
}

impl Clone for Domain {
    /// A copy holding the same entity.
    fn clone(&self) -> (r: Domain)
        ensures
            r.same_as(*self),
            r.id_view() == self.id_view(),
            r.owner_view() == self.owner_view(),
            r.members_view() == self.members_view(),
    {
        match self {
            Domain::Workspace { workspace } => Domain::Workspace { workspace: workspace.clone() },
            Domain::Office { office } => Domain::Office { office: office.clone() },
            Domain::Room { room } => Domain::Room { room: room.clone() },
        }
    }
}

/// The three kinds of entity.
#[derive(Debug, Clone, Copy, PartialEq, Eq, Structural)]
pub enum EntityKind {
    Workspace,
    Office,
    Room,
}

impl Domain {
    /// The kind of entity held.
    pub open spec fn kind(&self) -> EntityKind {
        match self {
            Domain::Workspace { .. } => EntityKind::Workspace,
            Domain::Office { .. } => EntityKind::Office,
            Domain::Room { .. } => EntityKind::Room,
        }
    }

    /// Whether the value holds a newly made entity with the given id, name
    /// and description: no owner, no members, nothing below it and no
    /// content. A workspace always takes the root id.
    pub open spec fn fresh(&self, id: Seq<char>, name: Seq<char>, description: Seq<char>) -> bool {
        match self {
            Domain::Workspace { workspace: w } => w.id@ == WORKSPACE_ROOT_ID@ && w.name@ == name
                && w.description@ == description && w.owner_id@.len() == 0 && w.members@.len() == 0
                && w.offices@.len() == 0 && w.metadata@.len() == 0,
            Domain::Office { office: o } => o.id@ == id && o.name@ == name && o.description@ == description
                && o.owner_id@.len() == 0 && o.members@.len() == 0 && o.rooms@.len() == 0
                && o.mdx_content@.len() == 0,
            Domain::Room { room: r } => r.id@ == id && r.name@ == name && r.description@ == description
                && r.owner_id@.len() == 0 && r.office_id@.len() == 0 && r.members@.len() == 0
                && r.mdx_content@.len() == 0,
        }
    }
}

/// An entity type of the workspace, with its conversions to and from
/// `Domain`.
pub trait DomainEntity: Sized {
    /// The kind of entity this type is.
    spec fn kind() -> EntityKind;

    /// The `Domain` value that holds this entity.
    spec fn held(self) -> Domain;

    /// The kind of entity this type is.
    fn entity_kind() -> (k: EntityKind)
        ensures
            k == Self::kind(),
    ;

    fn id(&self) -> String;

    fn name(&self) -> String;

    fn description(&self) -> String;

    fn owner_id(&self) -> String;

    /// The id of the domain the entity lives in: its own for a workspace or
    /// an office, its office's for a room.
    fn domain_id(&self) -> String;

    fn into_domain(self) -> (d: Domain)
        ensures
            d == self.held(),
    ;

    /// A new entity without owner or members.
    fn create(id: String, name: &str, description: &str) -> (e: Self)
        ensures
            e.held().kind() == Self::kind(),
            e.held().fresh(id@, name@, description@),
    ;

    /// The entity held by `domain`, when it is of this kind.
    fn from_domain(domain: Domain) -> (r: Option<Self>)
        ensures
            r is Some <==> domain.kind() == Self::kind(),
            r matches Some(e) ==> e.held() == domain,
    ;
}

impl DomainEntity for Workspace {
    open spec fn kind() -> EntityKind {
        EntityKind::Workspace
    }

    open spec fn held(self) -> Domain {
        Domain::Workspace { workspace: self }
    }

    fn entity_kind() -> (k: EntityKind) {
        EntityKind::Workspace
    }

    fn id(&self) -> (r: String)
        ensures
            r == self.id,
    {
        self.id.clone()
    }

    fn name(&self) -> (r: String)
        ensures
            r == self.name,
    {
        self.name.clone()
    }

    fn description(&self) -> (r: String)
        ensures
            r == self.description,
    {
        self.description.clone()
    }

    fn owner_id(&self) -> (r: String)
        ensures
            r == self.owner_id,
    {
        self.owner_id.clone()
    }

    fn domain_id(&self) -> (r: String)
        ensures
            r == self.id,
    {
        self.id.clone()
    }

    fn into_domain(self) -> (d: Domain)
        ensures
            d == (Domain::Workspace { workspace: self }),
    {
        Domain::Workspace { workspace: self }
    }

    /// The workspace is always created under the root id; `id` is ignored.
    fn create(id: String, name: &str, description: &str) -> (w: Workspace)
        ensures
            w.id@ == WORKSPACE_ROOT_ID@,
            w.name@ == name@,
            w.description@ == description@,
            w.owner_id@ == Seq::<char>::empty(),
            w.members@ == Seq::<String>::empty(),
            w.offices@ == Seq::<String>::empty(),
            w.metadata@ == Seq::<u8>::empty(),
    {
        Workspace {
            id: WORKSPACE_ROOT_ID.to_owned(),
            name: name.to_owned(),
            description: description.to_owned(),
            owner_id: String::new(),
            members: Vec::new(),
            offices: Vec::new(),
            metadata: Vec::new(),
        }
    }

    fn from_domain(domain: Domain) -> (r: Option<Workspace>)
        ensures
            match domain {
                Domain::Workspace { workspace } => r == Some(workspace),
                _ => r is None,
            },
    {
        match domain {
            Domain::Workspace { workspace } => Some(workspace),
            _ => None,
        }
    }
}

impl DomainEntity for Office {
    open spec fn kind() -> EntityKind {
        EntityKind::Office
    }

    open spec fn held(self) -> Domain {
        Domain::Office { office: self }
    }

    fn entity_kind() -> (k: EntityKind) {
        EntityKind::Office
    }

    fn id(&self) -> (r: String)
        ensures
            r == self.id,
    {
        self.id.clone()
    }

    fn name(&self) -> (r: String)
        ensures
            r == self.name,
    {
        self.name.clone()
    }

    fn description(&self) -> (r: String)
        ensures
            r == self.description,
    {
        self.description.clone()
    }

    fn owner_id(&self) -> (r: String)
        ensures
            r == self.owner_id,
    {
        self.owner_id.clone()
    }

    fn domain_id(&self) -> (r: String)
        ensures
            r == self.id,
    {
        self.id.clone()
    }

    fn into_domain(self) -> (d: Domain)
        ensures
            d == (Domain::Office { office: self }),
    {
        Domain::Office { office: self }
    }

    fn create(id: String, name: &str, description: &str) -> (o: Office)
        ensures
            o.id == id,
            o.name@ == name@,
            o.description@ == description@,
            o.owner_id@ == Seq::<char>::empty(),
            o.members@ == Seq::<String>::empty(),
            o.rooms@ == Seq::<String>::empty(),
            o.mdx_content@ == Seq::<char>::empty(),
    {
        Office {
            id,
            name: name.to_owned(),
            description: description.to_owned(),
            owner_id: String::new(),
            members: Vec::new(),
            rooms: Vec::new(),
            mdx_content: String::new(),
        }
    }

    fn from_domain(domain: Domain) -> (r: Option<Office>)
        ensures
            match domain {
                Domain::Office { office } => r == Some(office),
                _ => r is None,
            },
    {
        match domain {
            Domain::Office { office } => Some(office),
            _ => None,
        }
    }
}

impl DomainEntity for Room {
    open spec fn kind() -> EntityKind {
        EntityKind::Room
    }

    open spec fn held(self) -> Domain {
        Domain::Room { room: self }
    }

    fn entity_kind() -> (k: EntityKind) {
        EntityKind::Room
    }

    fn id(&self) -> (r: String)
        ensures
            r == self.id,
    {
        self.id.clone()
    }

    fn name(&self) -> (r: String)
        ensures
            r == self.name,
    {
        self.name.clone()
    }

    fn description(&self) -> (r: String)
        ensures
            r == self.description,
    {
        self.description.clone()
    }

    fn owner_id(&self) -> (r: String)
        ensures
            r == self.owner_id,
    {
        self.owner_id.clone()
    }

    /// A room lives in its office's domain.
    fn domain_id(&self) -> (r: String)
        ensures
            r == self.office_id,
    {
        self.office_id.clone()
    }

    fn into_domain(self) -> (d: Domain)
        ensures
            d == (Domain::Room { room: self }),
    {
        Domain::Room { room: self }
    }

    fn create(id: String, name: &str, description: &str) -> (r: Room)
        ensures
            r.id == id,
            r.name@ == name@,
            r.description@ == description@,
            r.owner_id@ == Seq::<char>::empty(),
            r.office_id@ == Seq::<char>::empty(),
            r.members@ == Seq::<String>::empty(),
            r.mdx_content@ == Seq::<char>::empty(),
    {
        Room {
            id,
            name: name.to_owned(),
            description: description.to_owned(),
            owner_id: String::new(),
            office_id: String::new(),
            members: Vec::new(),
            mdx_content: String::new(),
        }
    }

    fn from_domain(domain: Domain) -> (r: Option<Room>)
        ensures
            match domain {
                Domain::Room { room } => r == Some(room),
                _ => r is None,
            },
    {
        match domain {
            Domain::Room { room } => Some(room),
            _ => None,
        }
    }
}

} // verus!
