//! Operations on offices and rooms, written once for every entity type:
//! reading, creating, updating, deleting and listing them, and the room
//! access rule.
//!
//! Reading an entity needs `ReadMessages` on it; updating or deleting it
//! needs `All`. Only an administrator creates an office at the top level; a
//! room is created by an administrator or by a holder of `AddRoom` on its
//! office. The creator becomes the entity's first member.

use vstd::prelude::*;
use vstd::string::StringSliceAdditionalSpecFns;
use crate::domain::{Domain, DomainEntity, EntityKind, Office, Room};
use crate::kernel::{WorkspaceServerKernel, error_of, new_random_id};
use crate::permissions::Permission;
use crate::seqs::{contains_str, holds_str, str_views};
use crate::store::{KernelError, admin_spec, entity_permission_spec};
use crate::workspace_ops::{check_error, read_check, workspace_at};
use crate::text::str_eq;
use crate::tree::WORKSPACE_ROOT_ID;
use crate::user::{User, meta_view, perm_view};

verus! {

/// Whether `user` may enter the room `room_id`: administrators may; others
/// must own it or be on its member list, or else own or belong to its office.
pub open spec fn room_access_spec(
    domains: Map<Seq<char>, Domain>,
    users: Map<Seq<char>, User>,
    user: Seq<char>,
    room_id: Seq<char>,
) -> Result<bool, KernelError> {
    if admin_spec(users, user) {
        Ok(true)
    } else if !domains.contains_key(room_id) {
        Err(KernelError::RoomNotFound)
    } else {
        match domains[room_id] {
            Domain::Room { room } => {
                if room.owner_id@ == user || holds_str(room.members@, user) {
                    Ok(true)
                } else if domains.contains_key(room.office_id@) && domains[room.office_id@] is Office {
                    let office = domains[room.office_id@]->office;
                    Ok(office.owner_id@ == user || holds_str(office.members@, user))
                } else {
                    Ok(false)
                }
            },
            _ => Err(KernelError::NotARoom),
        }
    }
}

/// May `user` read the entity `entity` as one of kind `T`: they need
/// `ReadMessages` on it, and it must exist and be of that kind.
pub open spec fn read_entity_check<T: DomainEntity>(
    domains: Map<Seq<char>, Domain>,
    users: Map<Seq<char>, User>,
    user: Seq<char>,
    entity: Seq<char>,
) -> Result<(), KernelError> {
    let p = entity_permission_spec(domains, users, user, entity, Permission::ReadMessages);
    if p is Err {
        Err(error_of(p))
    } else if p == Ok::<bool, KernelError>(false) {
        Err(KernelError::NoPermission)
    } else if !domains.contains_key(entity) {
        Err(KernelError::EntityNotFound)
    } else if domains[entity].kind() != T::kind() {
        Err(KernelError::WrongEntityKind)
    } else {
        Ok(())
    }
}

/// The error of a failed check.
pub open spec fn refusal(r: Result<(), KernelError>) -> KernelError {
    match r {
        Err(e) => e,
        Ok(_) => KernelError::EntityNotFound,
    }
}

/// The content an entity is given at creation, or the empty text.
pub open spec fn content_text(content: Option<&str>) -> Seq<char> {
    match content {
        Some(c) => c@,
        None => Seq::empty(),
    }
}

/// The bytes a workspace keeps as its content: those of the text given, or
/// none.
pub open spec fn content_bytes(content: Option<&str>) -> Seq<u8> {
    match content {
        Some(c) => c.spec_bytes(),
        None => Seq::empty(),
    }
}

/// Whether `d`, stored under `key`, is a newly created entity named `name`
/// and described by `description`, with `user` as its only member, no owner,
/// nothing below it, and `content` as its content. A workspace keeps the
/// root id whatever its key.
pub open spec fn created_entity(
    d: Domain,
    key: Seq<char>,
    name: Seq<char>,
    description: Seq<char>,
    user: Seq<char>,
    content: Option<&str>,
) -> bool {
    match d {
        Domain::Workspace { workspace: w } => w.id@ == WORKSPACE_ROOT_ID@ && w.name@ == name && w.description@
            == description && w.owner_id@.len() == 0 && str_views(w.members@) == seq![user] && w.offices@.len()
            == 0 && w.metadata@ == content_bytes(content),
        Domain::Office { office: o } => o.id@ == key && o.name@ == name && o.description@ == description
            && o.owner_id@.len() == 0 && str_views(o.members@) == seq![user] && o.rooms@.len() == 0
            && o.mdx_content@ == content_text(content),
        Domain::Room { room: r } => r.id@ == key && r.name@ == name && r.description@ == description
            && r.owner_id@.len() == 0 && r.office_id@.len() == 0 && str_views(r.members@) == seq![user]
            && r.mdx_content@ == content_text(content),
    }
}

/// May `user` create an entity of kind `kind` under `parent`: an
/// administrator may; an office at the top level needs one; under a parent,
/// `AddRoom` on that parent is needed.
pub open spec fn create_check(
    domains: Map<Seq<char>, Domain>,
    users: Map<Seq<char>, User>,
    user: Seq<char>,
    parent: Option<Seq<char>>,
    kind: EntityKind,
) -> Result<(), KernelError> {
    if admin_spec(users, user) {
        Ok(())
    } else {
        match parent {
            None => if kind == EntityKind::Office {
                Err(KernelError::OnlyAdminsCreateOffices)
            } else {
                Ok(())
            },
            Some(p) => {
                let c = entity_permission_spec(domains, users, user, p, Permission::AddRoom);
                if c is Err {
                    Err(error_of(c))
                } else if c == Ok::<bool, KernelError>(false) {
                    Err(KernelError::NoPermission)
                } else {
                    Ok(())
                }
            },
        }
    }
}

/// The view of an optional id.
pub open spec fn opt_view(o: Option<&str>) -> Option<Seq<char>> {
    match o {
        Some(s) => Some(s@),
        None => None,
    }
}

/// `d`, a new entity, with `user_id` as its first member and `content` as
/// its content.
fn with_creator(d: Domain, user_id: &str, content: Option<&str>) -> (r: Domain)
    requires
        d.members_view().len() == 0,
    ensures
        r.kind() == d.kind(),
        str_views(r.members_view()) == seq![user_id@],
        match (d, r) {
            (Domain::Workspace { workspace: a }, Domain::Workspace { workspace: b }) => a.id == b.id && a.name
                == b.name && a.description == b.description && a.owner_id == b.owner_id && a.offices@
                == b.offices@ && b.metadata@ == content_bytes(content),
            (Domain::Office { office: a }, Domain::Office { office: b }) => a.id == b.id && a.name == b.name
                && a.description == b.description && a.owner_id == b.owner_id && a.rooms@ == b.rooms@
                && b.mdx_content@ == (match content {
                    Some(c) => c@,
                    None => a.mdx_content@,
                }),
            (Domain::Room { room: a }, Domain::Room { room: b }) => a.id == b.id && a.name == b.name
                && a.description == b.description && a.owner_id == b.owner_id && a.office_id == b.office_id
                && b.mdx_content@ == (match content {
                    Some(c) => c@,
                    None => a.mdx_content@,
                }),
            _ => false,
        },
{
    let mut members: Vec<String> = Vec::new();
    members.push(user_id.to_owned());
    proof {
        assert(str_views(members@) =~= seq![user_id@]);
    }
    match d {
        Domain::Workspace { workspace } => {
            let metadata = match content {
                Some(c) => c.as_bytes_vec(),
                None => Vec::new(),
            };
            Domain::Workspace {
                workspace: crate::domain::Workspace {
                    id: workspace.id,
                    name: workspace.name,
                    description: workspace.description,
                    owner_id: workspace.owner_id,
                    members,
                    offices: workspace.offices,
                    metadata,
                },
            }
        },
        Domain::Office { office } => {
            let mdx_content = match content {
                Some(c) => c.to_owned(),
                None => office.mdx_content,
            };
            Domain::Office {
                office: Office {
                    id: office.id,
                    name: office.name,
                    description: office.description,
                    owner_id: office.owner_id,
                    members,
                    rooms: office.rooms,
                    mdx_content,
                },
            }
        },
        Domain::Room { room } => {
            let mdx_content = match content {
                Some(c) => c.to_owned(),
                None => room.mdx_content,
            };
            Domain::Room {
                room: Room {
                    id: room.id,
                    name: room.name,
                    description: room.description,
                    owner_id: room.owner_id,
                    office_id: room.office_id,
                    members,
                    mdx_content,
                },
            }
        },
    }
}

/// The text given, or the one kept.
pub open spec fn pick(given: Option<&str>, kept: Seq<char>) -> Seq<char> {
    match given {
        Some(s) => s@,
        None => kept,
    }
}

/// `new` is `old` with the name, description and content given replacing
/// the old ones, and nothing else changed. A workspace keeps its content as
/// bytes.
pub open spec fn edited(
    old: Domain,
    new: Domain,
    name: Option<&str>,
    description: Option<&str>,
    content: Option<&str>,
) -> bool {
    match (old, new) {
        (Domain::Workspace { workspace: a }, Domain::Workspace { workspace: b }) => a.id == b.id && b.name@
            == pick(name, a.name@) && b.description@ == pick(description, a.description@) && a.owner_id
            == b.owner_id && a.members@ == b.members@ && a.offices@ == b.offices@ && b.metadata@ == (
        match content {
            Some(c) => c.spec_bytes(),
            None => a.metadata@,
        }),
        (Domain::Office { office: a }, Domain::Office { office: b }) => a.id == b.id && b.name@ == pick(
            name,
            a.name@,
        ) && b.description@ == pick(description, a.description@) && a.owner_id == b.owner_id && a.members@
            == b.members@ && a.rooms@ == b.rooms@ && b.mdx_content@ == pick(content, a.mdx_content@),
        (Domain::Room { room: a }, Domain::Room { room: b }) => a.id == b.id && b.name@ == pick(name, a.name@)
            && b.description@ == pick(description, a.description@) && a.owner_id == b.owner_id && a.office_id
            == b.office_id && a.members@ == b.members@ && b.mdx_content@ == pick(content, a.mdx_content@),
        _ => false,
    }
}

/// May `user` change the entity `entity` as one of kind `T`: they need
/// `All` on it, and it must exist and be of that kind.
pub open spec fn change_entity_check<T: DomainEntity>(
    domains: Map<Seq<char>, Domain>,
    users: Map<Seq<char>, User>,
    user: Seq<char>,
    entity: Seq<char>,
) -> Result<(), KernelError> {
    let p = entity_permission_spec(domains, users, user, entity, Permission::All);
    if p is Err {
        Err(error_of(p))
    } else if p == Ok::<bool, KernelError>(false) {
        Err(KernelError::NoPermission)
    } else if !domains.contains_key(entity) {
        Err(KernelError::EntityNotFound)
    } else if domains[entity].kind() != T::kind() {
        Err(KernelError::WrongEntityKind)
    } else {
        Ok(())
    }
}

/// May `user` delete or change the entity `entity` as one of kind `T`
/// after reading it: they must be able to read it, and hold `All` on it.
pub open spec fn read_and_all_check<T: DomainEntity>(
    domains: Map<Seq<char>, Domain>,
    users: Map<Seq<char>, User>,
    user: Seq<char>,
    entity: Seq<char>,
) -> Result<(), KernelError> {
    let p = entity_permission_spec(domains, users, user, entity, Permission::All);
    if read_entity_check::<T>(domains, users, user, entity) is Err {
        read_entity_check::<T>(domains, users, user, entity)
    } else if p is Err {
        Err(error_of(p))
    } else if p == Ok::<bool, KernelError>(false) {
        Err(KernelError::NoPermission)
    } else {
        Ok(())
    }
}

/// Whether `d` is listed under `parent`: an office under the root
/// workspace's id, a room under its office's id, a workspace under its own
/// id or that of one of its offices (the empty id when no parent is given).
pub open spec fn parent_matches(d: Domain, parent: Option<Seq<char>>) -> bool {
    match d {
        Domain::Office { .. } => parent == Some(WORKSPACE_ROOT_ID@),
        Domain::Room { room } => parent matches Some(p) && room.office_id@ == p,
        Domain::Workspace { workspace } => workspace.id@ == parent_or_empty(parent) || holds_str(
            workspace.offices@,
            parent_or_empty(parent),
        ),
    }
}

/// Whether `e` holds the same as an entity of its kind listed under
/// `parent`.
pub open spec fn listed_under<T: DomainEntity>(domains: Map<Seq<char>, Domain>, parent: Option<Seq<char>>, e: T) -> bool {
    exists|k: Seq<char>|
        #[trigger] domains.contains_key(k) && parent_matches(domains[k], parent) && domains[k].kind() == T::kind()
            && e.held().same_as(domains[k])
}

/// May `user` list the entities under `parent`: administrators may, and
/// anyone may list without a parent; otherwise the user must be on the
/// parent's member list.
pub open spec fn list_check(
    domains: Map<Seq<char>, Domain>,
    users: Map<Seq<char>, User>,
    user: Seq<char>,
    parent: Option<Seq<char>>,
) -> Result<(), KernelError> {
    match parent {
        Some(p) => if admin_spec(users, user) {
            Ok(())
        } else if !domains.contains_key(p) {
            Err(KernelError::DomainNotFound)
        } else if !domains[p].has_member(user) {
            Err(KernelError::NoPermission)
        } else {
            Ok(())
        },
        None => Ok(()),
    }
}

/// `d` with the name, description and content given replaced.
pub(crate) fn edit_domain(d: Domain, name: Option<&str>, description: Option<&str>, content: Option<&str>) -> (r: Domain)
    ensures
        edited(d, r, name, description, content),
        r.kind() == d.kind(),
{
    match d {
        Domain::Workspace { workspace: w } => Domain::Workspace {
            workspace: crate::domain::Workspace {
                id: w.id,
                name: match name {
                    Some(n) => n.to_owned(),
                    None => w.name,
                },
                description: match description {
                    Some(x) => x.to_owned(),
                    None => w.description,
                },
                owner_id: w.owner_id,
                members: w.members,
                offices: w.offices,
                metadata: match content {
                    Some(c) => c.as_bytes_vec(),
                    None => w.metadata,
                },
            },
        },
        Domain::Office { office: o } => Domain::Office {
            office: Office {
                id: o.id,
                name: match name {
                    Some(n) => n.to_owned(),
                    None => o.name,
                },
                description: match description {
                    Some(x) => x.to_owned(),
                    None => o.description,
                },
                owner_id: o.owner_id,
                members: o.members,
                rooms: o.rooms,
                mdx_content: match content {
                    Some(c) => c.to_owned(),
                    None => o.mdx_content,
                },
            },
        },
        Domain::Room { room: m } => Domain::Room {
            room: Room {
                id: m.id,
                name: match name {
                    Some(n) => n.to_owned(),
                    None => m.name,
                },
                description: match description {
                    Some(x) => x.to_owned(),
                    None => m.description,
                },
                owner_id: m.owner_id,
                office_id: m.office_id,
                members: m.members,
                mdx_content: match content {
                    Some(c) => c.to_owned(),
                    None => m.mdx_content,
                },
            },
        },
    }
}

/// What a read of the entity `entity` as one of kind `T` gives, after
/// `check`: the refusal, or a copy of the entity.
pub open spec fn read_outcome<T: DomainEntity>(
    domains: Map<Seq<char>, Domain>,
    check: Result<(), KernelError>,
    entity: Seq<char>,
    r: Result<T, KernelError>,
) -> bool {
    &&& check is Err ==> r == Err::<T, KernelError>(refusal(check))
    &&& r is Ok <==> check is Ok
    &&& r matches Ok(e) ==> e.held().same_as(domains[entity])
}

/// What creating an entity of kind `T` under `parent` does: the refusal,
/// leaving the domains as they were, or the new entity, stored under a new
/// key and handed back.
pub open spec fn create_outcome<T: DomainEntity>(
    old_domains: Map<Seq<char>, Domain>,
    old_users: Map<Seq<char>, User>,
    new_domains: Map<Seq<char>, Domain>,
    new_users: Map<Seq<char>, User>,
    user: Seq<char>,
    parent: Option<Seq<char>>,
    name: Seq<char>,
    description: Seq<char>,
    content: Option<&str>,
    r: Result<T, KernelError>,
) -> bool {
    let check = create_check(old_domains, old_users, user, parent, T::kind());
    &&& check is Err ==> r == Err::<T, KernelError>(refusal(check))
    &&& r is Ok <==> check is Ok
    &&& r is Err ==> new_domains == old_domains
    &&& new_users == old_users
    &&& r matches Ok(e) ==> exists|k: Seq<char>|
        #![trigger new_domains[k]]
        {
            &&& new_domains == old_domains.insert(k, new_domains[k])
            &&& new_domains[k].kind() == T::kind()
            &&& created_entity(new_domains[k], k, name, description, user, content)
            &&& e.held().same_as(new_domains[k])
        }
}

/// What changing the entity `entity` does, after `check`: the refusal,
/// leaving the domains as they were, or the entity with the name,
/// description and content given, stored in place and handed back.
pub open spec fn update_outcome<T: DomainEntity>(
    old_domains: Map<Seq<char>, Domain>,
    old_users: Map<Seq<char>, User>,
    new_domains: Map<Seq<char>, Domain>,
    new_users: Map<Seq<char>, User>,
    check: Result<(), KernelError>,
    entity: Seq<char>,
    name: Option<&str>,
    description: Option<&str>,
    content: Option<&str>,
    r: Result<T, KernelError>,
) -> bool {
    &&& check is Err ==> r == Err::<T, KernelError>(refusal(check))
    &&& r is Ok <==> check is Ok
    &&& r is Err ==> new_domains == old_domains
    &&& new_users == old_users
    &&& r matches Ok(e) ==> {
        &&& new_domains == old_domains.insert(entity, new_domains[entity])
        &&& edited(old_domains[entity], new_domains[entity], name, description, content)
        &&& e.held().same_as(new_domains[entity])
    }
}

/// What deleting the entity `entity` does, after `check`: the refusal,
/// leaving the domains as they were, or the entity removed and handed back.
pub open spec fn delete_outcome<T: DomainEntity>(
    old_domains: Map<Seq<char>, Domain>,
    old_users: Map<Seq<char>, User>,
    new_domains: Map<Seq<char>, Domain>,
    new_users: Map<Seq<char>, User>,
    check: Result<(), KernelError>,
    entity: Seq<char>,
    r: Result<T, KernelError>,
) -> bool {
    &&& check is Err ==> r == Err::<T, KernelError>(refusal(check))
    &&& r is Ok <==> check is Ok
    &&& r is Err ==> new_domains == old_domains
    &&& new_users == old_users
    &&& r matches Ok(e) ==> {
        &&& new_domains == old_domains.remove(entity)
        &&& e.held().same_as(old_domains[entity])
    }
}

/// What listing the entities of kind `T` under `parent` gives: the
/// refusal, or copies of exactly the entities of that kind listed there.
pub open spec fn list_outcome<T: DomainEntity>(
    domains: Map<Seq<char>, Domain>,
    users: Map<Seq<char>, User>,
    user: Seq<char>,
    parent: Option<Seq<char>>,
    r: Result<Vec<T>, KernelError>,
) -> bool {
    let check = list_check(domains, users, user, parent);
    &&& check is Err ==> r == Err::<Vec<T>, KernelError>(refusal(check))
    &&& r is Ok <==> check is Ok
    &&& r matches Ok(v) ==> {
        &&& forall|i: int| 0 <= i < v@.len() ==> listed_under::<T>(domains, parent, #[trigger] v@[i])
        &&& forall|k: Seq<char>|
            #[trigger] domains.contains_key(k) && parent_matches(domains[k], parent) && domains[k].kind()
                == T::kind() ==> in_list(v@, domains[k])
    }
}

/// Whether `user` is shown the office under `id` of a workspace they read:
/// administrators see every office; others those they own or belong to.
pub open spec fn office_shown(
    domains: Map<Seq<char>, Domain>,
    users: Map<Seq<char>, User>,
    user: Seq<char>,
    id: Seq<char>,
) -> bool {
    &&& domains.contains_key(id)
    &&& domains[id] is Office
    &&& (admin_spec(users, user) || domains[id]->office.owner_id@ == user || holds_str(
        domains[id]->office.members@,
        user,
    ))
}

/// The ids, among `ids` and in their order, of the offices shown to `user`.
pub open spec fn shown_offices(
    domains: Map<Seq<char>, Domain>,
    users: Map<Seq<char>, User>,
    user: Seq<char>,
    ids: Seq<String>,
) -> Seq<Seq<char>>
    decreases ids.len(),
{
    if ids.len() == 0 {
        Seq::empty()
    } else {
        let rest = shown_offices(domains, users, user, ids.drop_last());
        if office_shown(domains, users, user, ids.last()@) {
            rest.push(ids.last()@)
        } else {
            rest
        }
    }
}

/// The parent's id, or the empty id when none is given.
pub open spec fn parent_or_empty(parent: Option<Seq<char>>) -> Seq<char> {
    match parent {
        Some(p) => p,
        None => Seq::empty(),
    }
}

/// Whether `d` is listed under `parent` and of kind `T`.
pub open spec fn wanted_entry<T: DomainEntity>(d: Domain, parent: Option<Seq<char>>) -> bool {
    parent_matches(d, parent) && d.kind() == T::kind()
}

/// Whether some entity of `v` holds the same as `d`.
pub open spec fn in_list<T: DomainEntity>(v: Seq<T>, d: Domain) -> bool {
    exists|a: int| 0 <= a < v.len() && v[a].held().same_as(d)
}

/// Whether `d` is listed under `parent_id`; `wanted` is the parent's id, or
/// the empty id.
fn listed_under_parent(d: &Domain, parent_id: Option<&str>, wanted: &str) -> (b: bool)
    requires
        wanted@ == parent_or_empty(opt_view(parent_id)),
    ensures
        b == parent_matches(*d, opt_view(parent_id)),
{
    match d {
        Domain::Office { .. } => match parent_id {
            Some(p) => str_eq(WORKSPACE_ROOT_ID, p),
            None => false,
        },
        Domain::Room { room } => match parent_id {
            Some(p) => str_eq(room.office_id.as_str(), p),
            None => false,
        },
        Domain::Workspace { workspace } => str_eq(workspace.id.as_str(), wanted) || contains_str(
            &workspace.offices,
            wanted,
        ),
    }
}

impl WorkspaceServerKernel {
    /// A copy of the record of `user_id`, if there is one.
    pub fn get_user(&self, user_id: &str) -> (r: Option<User>)
        ensures
            r is Some <==> self.users().contains_key(user_id@),
            r matches Some(u) ==> {
                let o = self.users()[user_id@];
                &&& u.id == o.id
                &&& u.name == o.name
                &&& u.role == o.role
                &&& perm_view(u.permissions@) == perm_view(o.permissions@)
                &&& meta_view(u.metadata@) == meta_view(o.metadata@)
            },
    {
        match self.store().get_user(user_id) {
            Some(u) => Some(u.clone()),
            None => None,
        }
    }

    /// A copy of the domain `domain_id`, if there is one.
    pub fn get_domain(&self, domain_id: &str) -> (r: Option<Domain>)
        ensures
            r is Some <==> self.domains().contains_key(domain_id@),
            r matches Some(d) ==> d.same_as(self.domains()[domain_id@]),
    {
        match self.store().get_domain(domain_id) {
            Some(d) => Some(d.clone()),
            None => None,
        }
    }

    /// Whether `user_id` may enter the room `room_id`.
    pub fn check_room_access(&self, user_id: &str, room_id: &str) -> (r: Result<bool, KernelError>)
        ensures
            r == room_access_spec(self.domains(), self.users(), user_id@, room_id@),
    {
        if self.is_admin(user_id) {
            return Ok(true);
        }
        let store = self.store();
        match store.get_domain(room_id) {
            None => Err(KernelError::RoomNotFound),
            Some(Domain::Room { room }) => {
                if str_eq(room.owner_id.as_str(), user_id) || contains_str(&room.members, user_id) {
                    return Ok(true);
                }
                match store.get_domain(room.office_id.as_str()) {
                    Some(Domain::Office { office }) => Ok(
                        str_eq(office.owner_id.as_str(), user_id) || contains_str(&office.members, user_id),
                    ),
                    _ => Ok(false),
                }
            },
            Some(_) => Err(KernelError::NotARoom),
        }
    }

    /// The entity `entity_id` as one of kind `T`, for a reader holding
    /// `ReadMessages` on it.
    pub fn get_domain_entity<T: DomainEntity>(&self, user_id: &str, entity_id: &str) -> (r: Result<T, KernelError>)
        ensures
            read_outcome::<T>(
                self.domains(),
                read_entity_check::<T>(self.domains(), self.users(), user_id@, entity_id@),
                entity_id@,
                r,
            ),
    {
        match self.check_entity_permission(user_id, entity_id, Permission::ReadMessages) {
            Ok(true) => {},
            Ok(false) => {
                return Err(KernelError::NoPermission);
            },
            Err(e) => {
                return Err(e);
            },
        }
        match self.get_domain(entity_id) {
            Some(domain) => match T::from_domain(domain) {
                Some(entity) => Ok(entity),
                None => Err(KernelError::WrongEntityKind),
            },
            None => Err(KernelError::EntityNotFound),
        }
    }

    /// Create an entity of kind `T` named `name`, under `parent_id` when one
    /// is given, with `user_id` as its first member and `mdx_content` as its
    /// content, stored under a fresh random key.
    pub fn create_domain_entity<T: DomainEntity>(
        &mut self,
        user_id: &str,
        parent_id: Option<&str>,
        name: &str,
        description: &str,
        mdx_content: Option<&str>,
    ) -> (r: Result<T, KernelError>)
        ensures
            create_outcome::<T>(
                old(self).domains(),
                old(self).users(),
                final(self).domains(),
                final(self).users(),
                user_id@,
                opt_view(parent_id),
                name@,
                description@,
                mdx_content,
                r,
            ),
    {
        if !self.is_admin(user_id) {
            if parent_id.is_none() && T::entity_kind() == EntityKind::Office {
                return Err(KernelError::OnlyAdminsCreateOffices);
            }
            match parent_id {
                Some(office_id) => match self.check_entity_permission(user_id, office_id, Permission::AddRoom) {
                    Ok(true) => {},
                    Ok(false) => {
                        return Err(KernelError::NoPermission);
                    },
                    Err(e) => {
                        return Err(e);
                    },
                },
                None => {},
            }
        }
        let id = new_random_id();
        let entity = T::create(id.clone(), name, description);
        let domain = entity.into_domain();
        let ghost fresh = domain;
        let stored = with_creator(domain, user_id, mdx_content);
        let copy = stored.clone();
        let ghost key = id@;
        let ghost kept = stored;
        let mut tx = self.begin_write();
        tx.insert_domain(id, stored);
        match T::from_domain(copy) {
            Some(e) => {
                self.end_write(tx, true);
                proof {
                    assert(fresh.fresh(key, name@, description@));
                    match fresh {
                        Domain::Office { office: a } => {
                            assert(a.mdx_content@ =~= Seq::<char>::empty());
                        },
                        Domain::Room { room: a } => {
                            assert(a.mdx_content@ =~= Seq::<char>::empty());
                        },
                        _ => {},
                    }
                    assert(created_entity(kept, key, name@, description@, user_id@, mdx_content));
                    assert(self.domains()[key] == kept);
                    assert(self.domains() == old(self).domains().insert(key, self.domains()[key]));
                }
                Ok(e)
            },
            None => {
                self.end_write(tx, false);
                Err(KernelError::WrongEntityKind)
            },
        }
    }

    /// Change the name, description and content of the entity `entity_id`,
    /// of kind `T`, where new ones are given; the user needs `All` on it.
    pub fn update_domain_entity<T: DomainEntity>(
        &mut self,
        user_id: &str,
        entity_id: &str,
        name: Option<&str>,
        description: Option<&str>,
        mdx_content: Option<&str>,
    ) -> (r: Result<T, KernelError>)
        ensures
            update_outcome::<T>(
                old(self).domains(),
                old(self).users(),
                final(self).domains(),
                final(self).users(),
                change_entity_check::<T>(old(self).domains(), old(self).users(), user_id@, entity_id@),
                entity_id@,
                name,
                description,
                mdx_content,
                r,
            ),
    {
        match self.check_entity_permission(user_id, entity_id, Permission::All) {
            Ok(true) => {},
            Ok(false) => {
                return Err(KernelError::NoPermission);
            },
            Err(e) => {
                return Err(e);
            },
        }
        let mut tx = self.begin_write();
        let current = match tx.store().get_domain(entity_id) {
            Some(d) => d.clone(),
            None => {
                self.end_write(tx, false);
                return Err(KernelError::EntityNotFound);
            },
        };
        let updated = edit_domain(current, name, description, mdx_content);
        let copy = updated.clone();
        let ghost kept = updated;
        let _ = tx.update_domain(entity_id, updated);
        match T::from_domain(copy) {
            Some(e) => {
                self.end_write(tx, true);
                proof {
                    assert(self.domains()[entity_id@] == kept);
                }
                Ok(e)
            },
            None => {
                self.end_write(tx, false);
                Err(KernelError::WrongEntityKind)
            },
        }
    }

    /// Delete the entity `entity_id`, of kind `T`, and hand back what it
    /// held; the user must be able to read it and hold `All` on it.
    pub fn delete_domain_entity<T: DomainEntity>(&mut self, user_id: &str, entity_id: &str) -> (r: Result<
        T,
        KernelError,
    >)
        ensures
            delete_outcome::<T>(
                old(self).domains(),
                old(self).users(),
                final(self).domains(),
                final(self).users(),
                read_and_all_check::<T>(old(self).domains(), old(self).users(), user_id@, entity_id@),
                entity_id@,
                r,
            ),
    {
        let entity = match self.get_domain_entity::<T>(user_id, entity_id) {
            Ok(e) => e,
            Err(e) => {
                return Err(e);
            },
        };
        match self.check_entity_permission(user_id, entity_id, Permission::All) {
            Ok(true) => {},
            Ok(false) => {
                return Err(KernelError::NoPermission);
            },
            Err(e) => {
                return Err(e);
            },
        }
        let mut tx = self.begin_write();
        let _ = tx.remove_domain(entity_id);
        self.end_write(tx, true);
        Ok(entity)
    }

    /// The entities of kind `T` listed under `parent_id`, for a user who may
    /// list there.
    pub fn list_domain_entities<T: DomainEntity>(&self, user_id: &str, parent_id: Option<&str>) -> (r: Result<
        Vec<T>,
        KernelError,
    >)
        ensures
            list_outcome::<T>(self.domains(), self.users(), user_id@, opt_view(parent_id), r),
    {
        if !self.is_admin(user_id) {
            match parent_id {
                Some(p) => match self.is_member_of_domain(user_id, p) {
                    Ok(true) => {},
                    Ok(false) => {
                        return Err(KernelError::NoPermission);
                    },
                    Err(e) => {
                        return Err(e);
                    },
                },
                None => {},
            }
        }
        Ok(self.entities_under::<T>(parent_id))
    }

    /// The entities of kind `T` listed under `parent_id`.
    fn entities_under<T: DomainEntity>(&self, parent_id: Option<&str>) -> (v: Vec<T>)
        ensures
            forall|i: int| 0 <= i < v@.len() ==> listed_under::<T>(self.domains(), opt_view(parent_id), #[trigger] v@[i]),
            forall|k: Seq<char>|
                #[trigger] self.domains().contains_key(k) && parent_matches(self.domains()[k], opt_view(parent_id))
                    && self.domains()[k].kind() == T::kind() ==> in_list(v@, self.domains()[k]),
    {
        let nothing: &str = "";
        proof {
            reveal_strlit("");
            assert(nothing@ =~= Seq::<char>::empty());
        }
        let wanted: &str = match parent_id {
            Some(p) => p,
            None => nothing,
        };
        let domains = &self.store().domains;
        let n = domains.len();
        let mut listed: Vec<T> = Vec::new();
        let mut i: usize = 0;
        while i < n
            invariant
                n == domains.key_seq().len(),
                0 <= i <= n,
                domains@ == self.domains(),
                wanted@ == parent_or_empty(opt_view(parent_id)),
                forall|k: Seq<char>| #[trigger] domains@.contains_key(k) <==> domains.key_seq().contains(k),
                forall|a: int|
                    0 <= a < listed@.len() ==> listed_under::<T>(self.domains(), opt_view(parent_id), #[trigger] listed@[a]),
                forall|j: int|
                    0 <= j < i ==> wanted_entry::<T>(self.domains()[#[trigger] domains.key_seq()[j]], opt_view(parent_id))
                        ==> in_list(listed@, self.domains()[domains.key_seq()[j]]),
            decreases n - i,
        {
            let ghost key = domains.key_seq()[i as int];
            let domain = domains.value_at(i);
            proof {
                assert(self.domains().contains_key(key));
            }
            if listed_under_parent(domain, parent_id, wanted) {
                match T::from_domain(domain.clone()) {
                    Some(e) => {
                        let ghost before = listed@;
                        listed.push(e);
                        proof {
                            assert(listed@[before.len() as int] == e);
                            assert(listed_under::<T>(self.domains(), opt_view(parent_id), e));
                            assert forall|a: int|
                                0 <= a < listed@.len() implies listed_under::<T>(
                                    self.domains(),
                                    opt_view(parent_id),
                                    #[trigger] listed@[a],
                                ) by {
                                if a < before.len() {
                                    assert(listed@[a] == before[a]);
                                }
                            }
                            assert forall|j: int|
                                0 <= j < i + 1 && wanted_entry::<T>(
                                    self.domains()[#[trigger] domains.key_seq()[j]],
                                    opt_view(parent_id),
                                ) implies in_list(listed@, self.domains()[domains.key_seq()[j]]) by {
                                let d = self.domains()[domains.key_seq()[j]];
                                if j < i {
                                    let a = choose|a: int| 0 <= a < before.len() && before[a].held().same_as(d);
                                    assert(listed@[a] == before[a]);
                                } else {
                                    assert(listed@[before.len() as int].held().same_as(d));
                                }
                            }
                        }
                    },
                    None => {},
                }
            }
            i = i + 1;
        }
        proof {
            assert forall|k: Seq<char>|
                #[trigger] self.domains().contains_key(k) && parent_matches(self.domains()[k], opt_view(parent_id))
                    && self.domains()[k].kind() == T::kind() implies in_list(listed@, self.domains()[k]) by {
                let j = choose|j: int| 0 <= j < n && domains.key_seq()[j] == k;
                assert(domains.key_seq()[j] == k);
                assert(wanted_entry::<T>(self.domains()[domains.key_seq()[j]], opt_view(parent_id)));
            }
        }
        listed
    }

    /// Create an office; only an administrator may.
    pub fn create_office(&mut self, user_id: &str, name: &str, description: &str, mdx_content: Option<&str>) -> (r:
        Result<Office, KernelError>)
        ensures
            create_outcome::<Office>(
                old(self).domains(),
                old(self).users(),
                final(self).domains(),
                final(self).users(),
                user_id@,
                None,
                name@,
                description@,
                mdx_content,
                r,
            ),
    {
        self.create_domain_entity::<Office>(user_id, None, name, description, mdx_content)
    }

    /// Create a room in the office `office_id`.
    pub fn create_room(
        &mut self,
        user_id: &str,
        office_id: &str,
        name: &str,
        description: &str,
        mdx_content: Option<&str>,
    ) -> (r: Result<Room, KernelError>)
        ensures
            create_outcome::<Room>(
                old(self).domains(),
                old(self).users(),
                final(self).domains(),
                final(self).users(),
                user_id@,
                Some(office_id@),
                name@,
                description@,
                mdx_content,
                r,
            ),
    {
        self.create_domain_entity::<Room>(user_id, Some(office_id), name, description, mdx_content)
    }

    /// The office `office_id`.
    pub fn get_office(&self, user_id: &str, office_id: &str) -> (r: Result<Office, KernelError>)
        ensures
            read_outcome::<Office>(
                self.domains(),
                read_entity_check::<Office>(self.domains(), self.users(), user_id@, office_id@),
                office_id@,
                r,
            ),
    {
        self.get_domain_entity::<Office>(user_id, office_id)
    }

    /// The room `room_id`.
    pub fn get_room(&self, user_id: &str, room_id: &str) -> (r: Result<Room, KernelError>)
        ensures
            read_outcome::<Room>(
                self.domains(),
                read_entity_check::<Room>(self.domains(), self.users(), user_id@, room_id@),
                room_id@,
                r,
            ),
    {
        self.get_domain_entity::<Room>(user_id, room_id)
    }

    /// Delete the office `office_id`, which the user must be able to read.
    pub fn delete_office(&mut self, user_id: &str, office_id: &str) -> (r: Result<Office, KernelError>)
        ensures
            delete_outcome::<Office>(
                old(self).domains(),
                old(self).users(),
                final(self).domains(),
                final(self).users(),
                read_and_all_check::<Office>(old(self).domains(), old(self).users(), user_id@, office_id@),
                office_id@,
                r,
            ),
    {
        match self.get_office(user_id, office_id) {
            Ok(_) => {},
            Err(e) => {
                return Err(e);
            },
        }
        self.delete_domain_entity::<Office>(user_id, office_id)
    }

    /// Delete the room `room_id`, which the user must be able to read.
    pub fn delete_room(&mut self, user_id: &str, room_id: &str) -> (r: Result<Room, KernelError>)
        ensures
            delete_outcome::<Room>(
                old(self).domains(),
                old(self).users(),
                final(self).domains(),
                final(self).users(),
                read_and_all_check::<Room>(old(self).domains(), old(self).users(), user_id@, room_id@),
                room_id@,
                r,
            ),
    {
        match self.get_room(user_id, room_id) {
            Ok(_) => {},
            Err(e) => {
                return Err(e);
            },
        }
        self.delete_domain_entity::<Room>(user_id, room_id)
    }

    /// Change the office `office_id`, which the user must be able to read.
    pub fn update_office(
        &mut self,
        user_id: &str,
        office_id: &str,
        name: Option<&str>,
        description: Option<&str>,
        mdx_content: Option<&str>,
    ) -> (r: Result<Office, KernelError>)
        ensures
            update_outcome::<Office>(
                old(self).domains(),
                old(self).users(),
                final(self).domains(),
                final(self).users(),
                read_and_all_check::<Office>(old(self).domains(), old(self).users(), user_id@, office_id@),
                office_id@,
                name,
                description,
                mdx_content,
                r,
            ),
    {
        match self.get_office(user_id, office_id) {
            Ok(_) => {},
            Err(e) => {
                return Err(e);
            },
        }
        self.update_domain_entity::<Office>(user_id, office_id, name, description, mdx_content)
    }

    /// Change the room `room_id`, which the user must be able to read.
    pub fn update_room(
        &mut self,
        user_id: &str,
        room_id: &str,
        name: Option<&str>,
        description: Option<&str>,
        mdx_content: Option<&str>,
    ) -> (r: Result<Room, KernelError>)
        ensures
            update_outcome::<Room>(
                old(self).domains(),
                old(self).users(),
                final(self).domains(),
                final(self).users(),
                read_and_all_check::<Room>(old(self).domains(), old(self).users(), user_id@, room_id@),
                room_id@,
                name,
                description,
                mdx_content,
                r,
            ),
    {
        match self.get_room(user_id, room_id) {
            Ok(_) => {},
            Err(e) => {
                return Err(e);
            },
        }
        self.update_domain_entity::<Room>(user_id, room_id, name, description, mdx_content)
    }

    /// The offices listed without a parent. Offices are listed only under the
    /// root workspace's id, so there are none.
    pub fn list_offices(&self, user_id: &str) -> (r: Result<Vec<Office>, KernelError>)
        ensures
            list_outcome::<Office>(self.domains(), self.users(), user_id@, None, r),
            r matches Ok(v) && v@.len() == 0,
    {
        let r = self.list_domain_entities::<Office>(user_id, None);
        proof {
            if r is Ok && r->Ok_0@.len() > 0 {
                assert(listed_under::<Office>(self.domains(), None, r->Ok_0@[0]));
            }
        }
        r
    }

    /// The rooms of the office `office_id`.
    pub fn list_rooms(&self, user_id: &str, office_id: &str) -> (r: Result<Vec<Room>, KernelError>)
        ensures
            list_outcome::<Room>(self.domains(), self.users(), user_id@, Some(office_id@), r),
    {
        self.list_domain_entities::<Room>(user_id, Some(office_id))
    }

    /// The offices of the workspace `workspace_id` shown to `user_id`, who
    /// must be able to read the workspace, in the workspace's order.
    pub fn list_offices_in_workspace(&self, user_id: &str, workspace_id: &str) -> (r: Result<
        Vec<Office>,
        KernelError,
    >)
        ensures
            read_check(self.domains(), self.users(), user_id@, workspace_id@) is Err ==> r == Err::<
                Vec<Office>,
                KernelError,
            >(check_error(read_check(self.domains(), self.users(), user_id@, workspace_id@))),
            r is Ok <==> read_check(self.domains(), self.users(), user_id@, workspace_id@) is Ok,
            r matches Ok(v) ==> {
                let ids = shown_offices(
                    self.domains(),
                    self.users(),
                    user_id@,
                    workspace_at(self.domains(), workspace_id@).offices@,
                );
                &&& v@.len() == ids.len()
                &&& forall|i: int|
                    0 <= i < v@.len() ==> (Domain::Office { office: #[trigger] v@[i] }).same_as(self.domains()[ids[i]])
            },
    {
        let workspace = match self.get_workspace(user_id, workspace_id) {
            Ok(w) => w,
            Err(e) => {
                return Err(e);
            },
        };
        let is_admin = self.is_admin(user_id);
        let store = self.store();
        let ids = &workspace.offices;
        let mut offices: Vec<Office> = Vec::new();
        let mut i: usize = 0;
        while i < ids.len()
            invariant
                0 <= i <= ids@.len(),
                is_admin == admin_spec(self.users(), user_id@),
                store.domains@ == self.domains(),
                offices@.len() == shown_offices(self.domains(), self.users(), user_id@, ids@.subrange(0, i as int)).len(),
                forall|a: int|
                    0 <= a < offices@.len() ==> (Domain::Office { office: #[trigger] offices@[a] }).same_as(
                        self.domains()[shown_offices(self.domains(), self.users(), user_id@, ids@.subrange(0, i as int))[a]],
                    ),
            decreases ids@.len() - i,
        {
            let ghost before = offices@;
            proof {
                assert(ids@.subrange(0, i + 1).drop_last() =~= ids@.subrange(0, i as int));
                assert(ids@.subrange(0, i + 1).last() == ids@[i as int]);
            }
            match store.get_domain(ids[i].as_str()) {
                Some(Domain::Office { office }) => {
                    if is_admin || str_eq(office.owner_id.as_str(), user_id) || contains_str(&office.members, user_id) {
                        offices.push(office.clone());
                        proof {
                            assert forall|a: int|
                                0 <= a < offices@.len() implies (Domain::Office {
                                    office: #[trigger] offices@[a],
                                }).same_as(
                                    self.domains()[shown_offices(
                                        self.domains(),
                                        self.users(),
                                        user_id@,
                                        ids@.subrange(0, i + 1),
                                    )[a]],
                                ) by {
                                if a < before.len() {
                                    assert(offices@[a] == before[a]);
                                }
                            }
                        }
                    }
                },
                _ => {},
            }
            i = i + 1;
        }
        proof {
            assert(ids@.subrange(0, ids@.len() as int) =~= ids@);
        }
        Ok(offices)
    }
}


/// Holding the same entity is symmetric and transitive.
proof fn lemma_same_as(a: Domain, b: Domain, c: Domain)
    ensures
        a.same_as(b) ==> b.same_as(a),
        a.same_as(b) && b.same_as(c) ==> a.same_as(c),
{
}

/// A read gives back what an update wrote: after a successful update of
/// `entity`, a successful read of it holds the same as the entity the update
/// handed back.
pub proof fn law_read_gives_back_update<T: DomainEntity>(
    old_domains: Map<Seq<char>, Domain>,
    old_users: Map<Seq<char>, User>,
    new_domains: Map<Seq<char>, Domain>,
    new_users: Map<Seq<char>, User>,
    update_check: Result<(), KernelError>,
    entity: Seq<char>,
    name: Option<&str>,
    description: Option<&str>,
    content: Option<&str>,
    updated: T,
    read_check: Result<(), KernelError>,
    read: T,
)
    requires
        update_outcome::<T>(
            old_domains,
            old_users,
            new_domains,
            new_users,
            update_check,
            entity,
            name,
            description,
            content,
            Ok(updated),
        ),
        read_outcome::<T>(new_domains, read_check, entity, Ok(read)),
    ensures
        read.held().same_as(updated.held()),
{
    lemma_same_as(read.held(), new_domains[entity], updated.held());
    lemma_same_as(updated.held(), new_domains[entity], read.held());
}

/// A deleted entity is gone: after a successful delete of `entity`, no user
/// can read it.
pub proof fn law_deleted_entity_cannot_be_read<T: DomainEntity>(
    old_domains: Map<Seq<char>, Domain>,
    old_users: Map<Seq<char>, User>,
    new_domains: Map<Seq<char>, Domain>,
    new_users: Map<Seq<char>, User>,
    check: Result<(), KernelError>,
    entity: Seq<char>,
    deleted: T,
    user: Seq<char>,
)
    requires
        delete_outcome::<T>(old_domains, old_users, new_domains, new_users, check, entity, Ok(deleted)),
    ensures
        read_entity_check::<T>(new_domains, new_users, user, entity) is Err,
{
    assert(!new_domains.contains_key(entity));
}

/// Members of a room's office may enter the room: when the office the room
/// names exists and lists the user (or is owned by them), room access is
/// granted, whatever the room's own member list says.
pub proof fn law_office_members_enter_its_rooms(
    domains: Map<Seq<char>, Domain>,
    users: Map<Seq<char>, User>,
    user: Seq<char>,
    room_id: Seq<char>,
)
    requires
        domains.contains_key(room_id),
        domains[room_id] is Room,
        domains.contains_key(domains[room_id]->room.office_id@),
        domains[domains[room_id]->room.office_id@] is Office,
        ({
            let office = domains[domains[room_id]->room.office_id@]->office;
            office.owner_id@ == user || exists|i: int| 0 <= i < office.members@.len() && office.members@[i]@ == user
        }),
    ensures
        room_access_spec(domains, users, user, room_id) == Ok::<bool, KernelError>(true),
{
}

/// Every office among `ids` that lists `user` as a member, or that `user`
/// owns, is among the offices shown to `user`.
pub proof fn law_own_offices_are_shown(
    domains: Map<Seq<char>, Domain>,
    users: Map<Seq<char>, User>,
    user: Seq<char>,
    ids: Seq<String>,
    k: int,
)
    requires
        0 <= k < ids.len(),
        domains.contains_key(ids[k]@),
        domains[ids[k]@] is Office,
        ({
            let office = domains[ids[k]@]->office;
            office.owner_id@ == user || exists|i: int| 0 <= i < office.members@.len() && office.members@[i]@ == user
        }),
    ensures
        shown_offices(domains, users, user, ids).contains(ids[k]@),
    decreases ids.len(),
{
    let rest = shown_offices(domains, users, user, ids.drop_last());
    if k == ids.len() - 1 {
        assert(office_shown(domains, users, user, ids.last()@));
        assert(shown_offices(domains, users, user, ids) == rest.push(ids.last()@));
        assert(rest.push(ids.last()@)[rest.len() as int] == ids.last()@);
    } else {
        assert(ids.drop_last()[k] == ids[k]);
        law_own_offices_are_shown(domains, users, user, ids.drop_last(), k);
        let j = choose|j: int| 0 <= j < rest.len() && rest[j] == ids[k]@;
        if office_shown(domains, users, user, ids.last()@) {
            assert(rest.push(ids.last()@)[j] == ids[k]@);
        }
    }
}

} // verus!
