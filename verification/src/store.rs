//! The kernel's store of domains and users, and the access rules read from
//! it.
//!
//! An administrator may do anything. Otherwise a user holds a permission on
//! an entity when it was granted explicitly, when they own the entity, or when
//! they belong to it (or to the office or workspace above it) with a role that
//! grants it: Admin and Owner every permission, Member only `ViewContent`,
//! other roles none.

use vstd::prelude::*;
use crate::domain::Domain;
use crate::permissions::{Permission, UserRole};
use crate::seqs::{contains_str, holds_str};
use crate::strmap::StrMap;
use crate::user::{User, grants};

verus! {

/// Why a kernel operation was refused.
#[derive(Debug, Clone, Copy, PartialEq, Eq, Structural)]
pub enum KernelError {
    /// The acting or named user has no record.
    UserNotFound,
    /// The named domain does not exist.
    DomainNotFound,
    /// The user's role ranks below the one required.
    InsufficientPrivileges,
    /// The user is not a member of the domain.
    NotADomainMember,
    /// Only an administrator or the domain's owner may do this.
    NotDomainAdmin,
    /// The member to change has no record.
    MemberNotFound,
    /// The member to change is not in the domain.
    MemberNotInDomain,
    /// Only an administrator may do this.
    NotAdministrator,
    /// The user lacks the permission the operation needs.
    NoPermission,
    /// The entity to change does not exist.
    EntityNotFound,
    /// The named workspace does not exist.
    WorkspaceNotFound,
    /// The user is not a member of the workspace.
    NotAWorkspaceMember,
    /// Only an administrator or the workspace's owner may do this.
    NotWorkspaceOwner,
    /// The named office does not exist.
    OfficeNotFound,
    /// The workspace's owner cannot be removed from it.
    CannotRemoveOwner,
    /// The entity is of another kind than the one asked for.
    WrongEntityKind,
    /// Only an administrator may create an office.
    OnlyAdminsCreateOffices,
    /// The named room does not exist.
    RoomNotFound,
    /// The named entity is not a room.
    NotARoom,
    /// The named entity is not an office.
    NotAnOffice,
    /// Neither an office nor a room was named.
    NoDomainGiven,
    /// A member cannot be added under the empty id.
    EmptyMemberId,
    /// The first entity of a query does not exist.
    FirstEntityNotFound,
    /// The second entity of a query does not exist.
    SecondEntityNotFound,
    /// A query named a second entity without a first.
    InvalidQuery,
    /// The user has no record.
    UserDoesNotExist,
    /// The user belongs to no workspace and to no office.
    NoAccessibleWorkspace,
}

impl KernelError {
    /// The message shown for this refusal.
    pub open spec fn message_spec(self) -> Seq<char> {
        match self {
            KernelError::UserNotFound => "User not found"@,
            KernelError::DomainNotFound => "Domain not found"@,
            KernelError::InsufficientPrivileges => "Permission denied: Insufficient privileges"@,
            KernelError::NotADomainMember => "Permission denied: Not a member of the domain"@,
            KernelError::NotDomainAdmin => "Permission denied: You must be an admin or the domain owner to update permissions"@,
            KernelError::MemberNotFound => "Member not found"@,
            KernelError::MemberNotInDomain => "Member is not in the domain"@,
            KernelError::NotAdministrator => "Only administrators can do this"@,
            KernelError::NoPermission => "Permission denied: no permission for this operation"@,
            KernelError::EntityNotFound => "Entity not found"@,
            KernelError::WorkspaceNotFound => crate::lookup::NO_SUCH_WORKSPACE@,
            KernelError::NotAWorkspaceMember => crate::lookup::NOT_A_MEMBER@,
            KernelError::NotWorkspaceOwner => "Permission denied: Only admins or workspace owners can do this"@,
            KernelError::OfficeNotFound => "Office not found"@,
            KernelError::CannotRemoveOwner => "Cannot remove the workspace owner"@,
            KernelError::WrongEntityKind => "Domain is not of the requested entity type"@,
            KernelError::OnlyAdminsCreateOffices => "Only admin users can create offices"@,
            KernelError::RoomNotFound => "Room not found"@,
            KernelError::NotARoom => "Not a room"@,
            KernelError::NotAnOffice => "Domain is not an office"@,
            KernelError::NoDomainGiven => "Must specify either office_id or room_id"@,
            KernelError::EmptyMemberId => "Cannot add member with empty user_id"@,
            KernelError::FirstEntityNotFound => "First entity not found"@,
            KernelError::SecondEntityNotFound => "Second entity not found"@,
            KernelError::InvalidQuery => "Invalid query: second entity ID provided without first"@,
            KernelError::UserDoesNotExist => "User does not exist"@,
            KernelError::NoAccessibleWorkspace => "User does not have access to any workspaces or offices"@,
        }
    }

    /// The message shown for this refusal.
    pub fn message(&self) -> (m: &'static str)
        ensures
            m@ == self.message_spec(),
            *self == KernelError::WorkspaceNotFound ==> m@ == crate::lookup::NO_SUCH_WORKSPACE@,
            *self == KernelError::NotAWorkspaceMember ==> m@ == crate::lookup::NOT_A_MEMBER@,
    {
        match self {
            KernelError::UserNotFound => "User not found",
            KernelError::DomainNotFound => "Domain not found",
            KernelError::InsufficientPrivileges => "Permission denied: Insufficient privileges",
            KernelError::NotADomainMember => "Permission denied: Not a member of the domain",
            KernelError::NotDomainAdmin => "Permission denied: You must be an admin or the domain owner to update permissions",
            KernelError::MemberNotFound => "Member not found",
            KernelError::MemberNotInDomain => "Member is not in the domain",
            KernelError::NotAdministrator => "Only administrators can do this",
            KernelError::NoPermission => "Permission denied: no permission for this operation",
            KernelError::EntityNotFound => "Entity not found",
            KernelError::WorkspaceNotFound => crate::lookup::NO_SUCH_WORKSPACE,
            KernelError::NotAWorkspaceMember => crate::lookup::NOT_A_MEMBER,
            KernelError::NotWorkspaceOwner => "Permission denied: Only admins or workspace owners can do this",
            KernelError::OfficeNotFound => "Office not found",
            KernelError::CannotRemoveOwner => "Cannot remove the workspace owner",
            KernelError::WrongEntityKind => "Domain is not of the requested entity type",
            KernelError::OnlyAdminsCreateOffices => "Only admin users can create offices",
            KernelError::RoomNotFound => "Room not found",
            KernelError::NotARoom => "Not a room",
            KernelError::NotAnOffice => "Domain is not an office",
            KernelError::NoDomainGiven => "Must specify either office_id or room_id",
            KernelError::EmptyMemberId => "Cannot add member with empty user_id",
            KernelError::FirstEntityNotFound => "First entity not found",
            KernelError::SecondEntityNotFound => "Second entity not found",
            KernelError::InvalidQuery => "Invalid query: second entity ID provided without first",
            KernelError::UserDoesNotExist => "User does not exist",
            KernelError::NoAccessibleWorkspace => "User does not have access to any workspaces or offices",
        }
    }
}

/// Whether `user` has a record with the Admin role.
pub open spec fn admin_spec(users: Map<Seq<char>, User>, user: Seq<char>) -> bool {
    users.contains_key(user) && users[user].role is Admin
}

/// Whether a role grants `p` on an entity its holder belongs to.
pub open spec fn role_grants(role: UserRole, p: Permission) -> bool {
    match role {
        UserRole::Admin => true,
        UserRole::Owner => true,
        UserRole::Member => p == Permission::ViewContent,
        _ => false,
    }
}

/// Whether `user` owns or is a member of a workspace that lists the office
/// `office_id`.
pub open spec fn in_parent_workspace(domains: Map<Seq<char>, Domain>, office_id: Seq<char>, user: Seq<char>) -> bool {
    exists|k: Seq<char>| #[trigger] domains.contains_key(k) && workspace_admits(domains[k], office_id, user)
}

/// Whether `d` is a workspace that lists the office `office_id` and that
/// `user` owns or is a member of.
pub open spec fn workspace_admits(d: Domain, office_id: Seq<char>, user: Seq<char>) -> bool {
    match d {
        Domain::Workspace { workspace } => holds_str(workspace.offices@, office_id) && (workspace.owner_id@
            == user || holds_str(workspace.members@, user)),
        _ => false,
    }
}

/// Whether `user`, whose role is `role`, holds `p` on the existing entity
/// `entity` by ownership or membership (of it, or of what contains it).
pub open spec fn entity_access(
    domains: Map<Seq<char>, Domain>,
    entity: Seq<char>,
    user: Seq<char>,
    role: UserRole,
    p: Permission,
) -> bool {
    let d = domains[entity];
    if d.owner_view() == user {
        true
    } else if d.has_member(user) {
        role_grants(role, p)
    } else {
        match d {
            Domain::Workspace { .. } => false,
            Domain::Office { office } => in_parent_workspace(domains, office.id@, user) && role_grants(role, p),
            Domain::Room { room } => {
                if domains.contains_key(room.office_id@) && domains[room.office_id@] is Office {
                    let o = domains[room.office_id@]->office;
                    if o.owner_id@ == user || holds_str(o.members@, user) {
                        role_grants(role, p)
                    } else {
                        in_parent_workspace(domains, o.id@, user) && role_grants(role, p)
                    }
                } else {
                    false
                }
            },
        }
    }
}

/// The answer to "does `user` hold `p` on `entity`".
pub open spec fn entity_permission_spec(
    domains: Map<Seq<char>, Domain>,
    users: Map<Seq<char>, User>,
    user: Seq<char>,
    entity: Seq<char>,
    p: Permission,
) -> Result<bool, KernelError> {
    if admin_spec(users, user) {
        Ok(true)
    } else if !users.contains_key(user) {
        Err(KernelError::UserNotFound)
    } else if grants(users[user].permissions@, entity, p) {
        Ok(true)
    } else if !domains.contains_key(entity) {
        Err(KernelError::DomainNotFound)
    } else {
        Ok(entity_access(domains, entity, user, users[user].role, p))
    }
}

/// The answer to "may `user`, at `required` standing, act in `domain`".
pub open spec fn role_check_spec(
    domains: Map<Seq<char>, Domain>,
    users: Map<Seq<char>, User>,
    user: Seq<char>,
    domain: Option<Seq<char>>,
    required: UserRole,
) -> Result<(), KernelError> {
    if admin_spec(users, user) {
        Ok(())
    } else if !users.contains_key(user) {
        Err(KernelError::UserNotFound)
    } else if users[user].role.rank() < required.rank() {
        Err(KernelError::InsufficientPrivileges)
    } else {
        match domain {
            None => Ok(()),
            Some(d) => if !domains.contains_key(d) {
                Err(KernelError::DomainNotFound)
            } else if domains[d].has_member(user) {
                Ok(())
            } else {
                Err(KernelError::NotADomainMember)
            },
        }
    }
}

/// Whether `user` administers the entity with id `id` and owner `owner`:
/// an administrator, its owner, or a holder of `All` on it.
pub open spec fn entity_admin_spec(users: Map<Seq<char>, User>, id: Seq<char>, owner: Seq<char>, user: Seq<char>) -> bool {
    admin_spec(users, user) || owner == user || (users.contains_key(user) && grants(
        users[user].permissions@,
        id,
        Permission::All,
    ))
}

/// Whether `user` administers a room: as for any entity, or as an
/// administrator of its office.
pub open spec fn room_admin_spec(
    domains: Map<Seq<char>, Domain>,
    users: Map<Seq<char>, User>,
    room: crate::domain::Room,
    user: Seq<char>,
) -> bool {
    entity_admin_spec(users, room.id@, room.owner_id@, user) || (domains.contains_key(room.office_id@)
        && office_admin_spec(users, domains[room.office_id@], user))
}

/// Whether `d` is an office that `user` administers.
pub open spec fn office_admin_spec(users: Map<Seq<char>, User>, d: Domain, user: Seq<char>) -> bool {
    match d {
        Domain::Office { office } => entity_admin_spec(users, office.id@, office.owner_id@, user),
        _ => false,
    }
}

/// The answer to "does `user` administer `domain`".
pub open spec fn domain_admin_spec(
    domains: Map<Seq<char>, Domain>,
    users: Map<Seq<char>, User>,
    user: Seq<char>,
    domain: Seq<char>,
) -> Result<bool, KernelError> {
    if admin_spec(users, user) {
        Ok(true)
    } else if !domains.contains_key(domain) {
        Err(KernelError::DomainNotFound)
    } else {
        Ok(
            match domains[domain] {
                Domain::Workspace { workspace } => entity_admin_spec(
                    users,
                    workspace.id@,
                    workspace.owner_id@,
                    user,
                ),
                Domain::Office { office } => entity_admin_spec(users, office.id@, office.owner_id@, user),
                Domain::Room { room } => room_admin_spec(domains, users, room, user),
            },
        )
    }
}

/// The domains and users of a workspace server.
#[derive(Debug)]
pub struct Store {
    pub domains: StrMap<Domain>,
    pub users: StrMap<User>,
}

impl Store {
    /// An empty store.
    pub fn new() -> (s: Store)
        ensures
            s.domains@ == Map::<Seq<char>, Domain>::empty(),
            s.users@ == Map::<Seq<char>, User>::empty(),
    {
        Store { domains: StrMap::new(), users: StrMap::new() }
    }

    /// The domain with id `domain_id`.
    pub fn get_domain(&self, domain_id: &str) -> (r: Option<&Domain>)
        ensures
            match r {
                Some(d) => self.domains@.contains_key(domain_id@) && *d == self.domains@[domain_id@],
                None => !self.domains@.contains_key(domain_id@),
            },
    {
        self.domains.get(domain_id)
    }

    /// The user with id `user_id`.
    pub fn get_user(&self, user_id: &str) -> (r: Option<&User>)
        ensures
            match r {
                Some(u) => self.users@.contains_key(user_id@) && *u == self.users@[user_id@],
                None => !self.users@.contains_key(user_id@),
            },
    {
        self.users.get(user_id)
    }

    /// Whether `user_id` is an administrator.
    pub fn is_admin(&self, user_id: &str) -> (b: bool)
        ensures
            b == admin_spec(self.users@, user_id@),
    {
        match self.users.get(user_id) {
            Some(user) => user.role.is_admin(),
            None => false,
        }
    }

    /// Whether `user_id` is on the member list of `domain_id`.
    pub fn is_member_of_domain(&self, user_id: &str, domain_id: &str) -> (r: Result<bool, KernelError>)
        ensures
            r == (if self.domains@.contains_key(domain_id@) {
                Ok(self.domains@[domain_id@].has_member(user_id@))
            } else {
                Err(KernelError::DomainNotFound)
            }),
    {
        match self.domains.get(domain_id) {
            Some(domain) => Ok(contains_str(domain.members(), user_id)),
            None => Err(KernelError::DomainNotFound),
        }
    }
}

/// An administrator holds every permission on every entity, existing or not.
pub proof fn law_admin_holds_everything(
    domains: Map<Seq<char>, Domain>,
    users: Map<Seq<char>, User>,
    user: Seq<char>,
    entity: Seq<char>,
    p: Permission,
)
    requires
        admin_spec(users, user),
    ensures
        entity_permission_spec(domains, users, user, entity, p) == Ok::<bool, KernelError>(true),
        domain_admin_spec(domains, users, user, entity) == Ok::<bool, KernelError>(true),
{
}

/// The owner of an existing entity holds every permission on it.
pub proof fn law_owner_holds_everything(
    domains: Map<Seq<char>, Domain>,
    users: Map<Seq<char>, User>,
    user: Seq<char>,
    entity: Seq<char>,
    p: Permission,
)
    requires
        users.contains_key(user),
        domains.contains_key(entity),
        domains[entity].owner_view() == user,
    ensures
        entity_permission_spec(domains, users, user, entity, p) == Ok::<bool, KernelError>(true),
{
}

/// Without an explicit grant, a user whose role is neither Admin, Owner nor
/// Member holds nothing on an entity they do not own.
pub proof fn law_guest_holds_nothing_unowned(
    domains: Map<Seq<char>, Domain>,
    users: Map<Seq<char>, User>,
    user: Seq<char>,
    entity: Seq<char>,
    p: Permission,
)
    requires
        users.contains_key(user),
        !(users[user].role is Admin || users[user].role is Owner || users[user].role is Member),
        !grants(users[user].permissions@, entity, p),
        domains.contains_key(entity),
        domains[entity].owner_view() != user,
    ensures
        entity_permission_spec(domains, users, user, entity, p) == Ok::<bool, KernelError>(false),
{
}

/// A Member without an explicit grant gets at most `ViewContent` on an
/// entity they do not own.
pub proof fn law_member_only_views(
    domains: Map<Seq<char>, Domain>,
    users: Map<Seq<char>, User>,
    user: Seq<char>,
    entity: Seq<char>,
    p: Permission,
)
    requires
        users.contains_key(user),
        users[user].role is Member,
        p != Permission::ViewContent,
        !grants(users[user].permissions@, entity, p),
        domains.contains_key(entity),
        domains[entity].owner_view() != user,
    ensures
        entity_permission_spec(domains, users, user, entity, p) == Ok::<bool, KernelError>(false),
{
}

/// Permissions flow down from an office to its rooms: a user who owns or is
/// on the member list of a room's office holds, on the room, everything
/// their role grants, whether or not the room lists them.
pub proof fn law_office_standing_reaches_its_rooms(
    domains: Map<Seq<char>, Domain>,
    users: Map<Seq<char>, User>,
    user: Seq<char>,
    room_id: Seq<char>,
    p: Permission,
)
    requires
        users.contains_key(user),
        domains.contains_key(room_id),
        domains[room_id] is Room,
        domains.contains_key(domains[room_id]->room.office_id@),
        domains[domains[room_id]->room.office_id@] is Office,
        ({
            let office = domains[domains[room_id]->room.office_id@]->office;
            office.owner_id@ == user || exists|i: int| 0 <= i < office.members@.len() && office.members@[i]@ == user
        }),
        role_grants(users[user].role, p),
    ensures
        entity_permission_spec(domains, users, user, room_id, p) == Ok::<bool, KernelError>(true),
{
}

/// In particular a plain Member of a room's office may view the room.
pub proof fn law_office_member_views_its_rooms(
    domains: Map<Seq<char>, Domain>,
    users: Map<Seq<char>, User>,
    user: Seq<char>,
    room_id: Seq<char>,
)
    requires
        users.contains_key(user),
        users[user].role is Member,
        domains.contains_key(room_id),
        domains[room_id] is Room,
        domains.contains_key(domains[room_id]->room.office_id@),
        domains[domains[room_id]->room.office_id@] is Office,
        exists|i: int|
            0 <= i < domains[domains[room_id]->room.office_id@]->office.members@.len()
                && domains[domains[room_id]->room.office_id@]->office.members@[i]@ == user,
    ensures
        entity_permission_spec(domains, users, user, room_id, Permission::ViewContent) == Ok::<bool, KernelError>(true),
{
    law_office_standing_reaches_its_rooms(domains, users, user, room_id, Permission::ViewContent);
}

/// Whoever administers a room's office administers the room: its owner, or
/// a holder of `All` on it, is an administrator of every room that names it.
pub proof fn law_office_administrator_administers_its_rooms(
    domains: Map<Seq<char>, Domain>,
    users: Map<Seq<char>, User>,
    user: Seq<char>,
    room_id: Seq<char>,
)
    requires
        domains.contains_key(room_id),
        domains[room_id] is Room,
        domains.contains_key(domains[room_id]->room.office_id@),
        domains[domains[room_id]->room.office_id@] is Office,
        ({
            let office = domains[domains[room_id]->room.office_id@]->office;
            office.owner_id@ == user || (users.contains_key(user) && grants(
                users[user].permissions@,
                office.id@,
                Permission::All,
            ))
        }),
    ensures
        domain_admin_spec(domains, users, user, room_id) == Ok::<bool, KernelError>(true),
        room_admin_spec(domains, users, domains[room_id]->room, user),
{
}

/// Permissions flow down from a workspace to its offices: a user who owns
/// or is on the member list of a workspace that lists an office holds, on
/// the office, everything their role grants.
pub proof fn law_workspace_standing_reaches_its_offices(
    domains: Map<Seq<char>, Domain>,
    users: Map<Seq<char>, User>,
    user: Seq<char>,
    workspace_id: Seq<char>,
    office_id: Seq<char>,
    p: Permission,
)
    requires
        users.contains_key(user),
        domains.contains_key(office_id),
        domains[office_id] is Office,
        domains[office_id]->office.id@ == office_id,
        domains.contains_key(workspace_id),
        domains[workspace_id] is Workspace,
        ({
            let w = domains[workspace_id]->workspace;
            &&& exists|i: int| 0 <= i < w.offices@.len() && w.offices@[i]@ == office_id
            &&& (w.owner_id@ == user || exists|i: int| 0 <= i < w.members@.len() && w.members@[i]@ == user)
        }),
        role_grants(users[user].role, p),
    ensures
        entity_permission_spec(domains, users, user, office_id, p) == Ok::<bool, KernelError>(true),
{
    assert(workspace_admits(domains[workspace_id], office_id, user));
    assert(in_parent_workspace(domains, office_id, user));
}

/// A user on an entity's own member list holds on it everything their role
/// grants.
pub proof fn law_listed_member_holds_role_grants(
    domains: Map<Seq<char>, Domain>,
    users: Map<Seq<char>, User>,
    user: Seq<char>,
    entity: Seq<char>,
    p: Permission,
)
    requires
        users.contains_key(user),
        domains.contains_key(entity),
        exists|i: int| 0 <= i < domains[entity].members_view().len() && domains[entity].members_view()[i]@ == user,
        role_grants(users[user].role, p),
    ensures
        entity_permission_spec(domains, users, user, entity, p) == Ok::<bool, KernelError>(true),
{
}

/// Standing in a workspace reaches the rooms of its offices: a user who
/// owns or is on the member list of a workspace that lists a room's office
/// holds, on the room, everything their role grants.
pub proof fn law_workspace_standing_reaches_rooms(
    domains: Map<Seq<char>, Domain>,
    users: Map<Seq<char>, User>,
    user: Seq<char>,
    workspace_id: Seq<char>,
    room_id: Seq<char>,
    p: Permission,
)
    requires
        users.contains_key(user),
        domains.contains_key(room_id),
        domains[room_id] is Room,
        domains.contains_key(domains[room_id]->room.office_id@),
        domains[domains[room_id]->room.office_id@] is Office,
        domains[domains[room_id]->room.office_id@]->office.id@ == domains[room_id]->room.office_id@,
        domains.contains_key(workspace_id),
        domains[workspace_id] is Workspace,
        ({
            let w = domains[workspace_id]->workspace;
            let o = domains[room_id]->room.office_id@;
            &&& exists|i: int| 0 <= i < w.offices@.len() && w.offices@[i]@ == o
            &&& (w.owner_id@ == user || exists|i: int| 0 <= i < w.members@.len() && w.members@[i]@ == user)
        }),
        role_grants(users[user].role, p),
    ensures
        entity_permission_spec(domains, users, user, room_id, p) == Ok::<bool, KernelError>(true),
{
    let o = domains[room_id]->room.office_id@;
    assert(workspace_admits(domains[workspace_id], o, user));
    assert(in_parent_workspace(domains, o, user));
}

} // verus!
