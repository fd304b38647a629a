//! The server's domain operations over a kernel, under the server's own
//! rules.
//!
//! Here the administrator is the user whose id is `admin`. Otherwise a user
//! holds a permission on an office or a room when it was granted to them
//! there, when they own it, or when they are on its member list with a role
//! that grants it (Admin and Owner every permission, Member `ViewContent`);
//! a room a user is not on refers the question to the entity its `office_id`
//! names. Globally, an Owner holds the permissions that create and manage
//! offices and rooms.

use vstd::prelude::*;
use crate::domain::{Domain, DomainEntity, EntityKind, Office, Room};
use crate::entity_ops::{delete_outcome, edit_domain, in_list, opt_view, read_outcome, refusal, update_outcome};
use crate::kernel::{WorkspaceServerKernel, error_of, new_random_id};
use crate::member_admin::{joined, left};
use crate::permissions::{Permission, UserRole};
use crate::seqs::{contains_str, holds_str, str_views};
use crate::store::{KernelError, role_grants};
use crate::text::str_eq;
use crate::user::{User, grants, meta_view, perm_view};

verus! {

/// The id of the server's administrator.
pub const SERVER_ADMIN_ID: &'static str = "admin";

/// The domain id under which global permissions are granted.
pub const GLOBAL_DOMAIN_ID: &'static str = "global";

/// Whether an Owner holds `p` globally.
pub open spec fn owner_global_grants(p: Permission) -> bool {
    p == Permission::CreateEntity || p == Permission::AddOffice || p == Permission::AddRoom || p
        == Permission::ViewContent || p == Permission::EditOfficeConfig || p == Permission::EditRoomConfig || p
        == Permission::DeleteOffice || p == Permission::DeleteRoom
}

/// Whether `user` holds `p` globally: the administrator does; others need a
/// record, and either a grant under the global id or a role that holds it.
pub open spec fn global_permission_spec(users: Map<Seq<char>, User>, user: Seq<char>, p: Permission) -> Result<
    bool,
    KernelError,
> {
    if user == SERVER_ADMIN_ID@ {
        Ok(true)
    } else if !users.contains_key(user) {
        Err(KernelError::UserNotFound)
    } else if grants(users[user].permissions@, GLOBAL_DOMAIN_ID@, p) {
        Ok(true)
    } else {
        match users[user].role {
            UserRole::Admin => Ok(true),
            UserRole::Owner => Ok(owner_global_grants(p)),
            _ => Ok(false),
        }
    }
}

/// Whether `user` is counted a member of `domain`: the administrator is of
/// every domain; otherwise owners and listed members are, and for a room the
/// owners and members of its office too.
pub open spec fn server_member_spec(domains: Map<Seq<char>, Domain>, user: Seq<char>, domain: Seq<char>) -> Result<
    bool,
    KernelError,
> {
    if user == SERVER_ADMIN_ID@ {
        Ok(true)
    } else if !domains.contains_key(domain) {
        Err(KernelError::DomainNotFound)
    } else {
        match domains[domain] {
            Domain::Room { room } => if room.owner_id@ == user || holds_str(room.members@, user) {
                Ok(true)
            } else if domains.contains_key(room.office_id@) && domains[room.office_id@] is Office {
                let office = domains[room.office_id@]->office;
                Ok(office.owner_id@ == user || holds_str(office.members@, user))
            } else {
                Ok(false)
            },
            d => Ok(d.owner_view() == user || d.has_member(user)),
        }
    }
}

/// Whether the walk that decides `user`'s permission `p` on `entity`, going
/// from a room the user is not on to the entity its `office_id` names, stops
/// within `n` such steps.
pub open spec fn walk_ends(
    domains: Map<Seq<char>, Domain>,
    users: Map<Seq<char>, User>,
    user: Seq<char>,
    entity: Seq<char>,
    p: Permission,
    n: nat,
) -> bool
    decreases n,
{
    if user == SERVER_ADMIN_ID@ || !users.contains_key(user) || grants(users[user].permissions@, entity, p)
        || !domains.contains_key(entity) {
        true
    } else {
        match domains[entity] {
            Domain::Room { room } => if room.owner_id@ == user || holds_str(room.members@, user) {
                true
            } else {
                n > 0 && walk_ends(domains, users, user, room.office_id@, p, (n - 1) as nat)
            },
            _ => true,
        }
    }
}

/// The answer of the walk that decides `user`'s permission `p` on `entity`,
/// taking at most `n` steps.
pub open spec fn walk_permission(
    domains: Map<Seq<char>, Domain>,
    users: Map<Seq<char>, User>,
    user: Seq<char>,
    entity: Seq<char>,
    p: Permission,
    n: nat,
) -> Result<bool, KernelError>
    decreases n,
{
    if user == SERVER_ADMIN_ID@ {
        Ok(true)
    } else if !users.contains_key(user) {
        Err(KernelError::UserNotFound)
    } else if grants(users[user].permissions@, entity, p) {
        Ok(true)
    } else if !domains.contains_key(entity) {
        Err(KernelError::EntityNotFound)
    } else {
        match domains[entity] {
            Domain::Office { office } => if office.owner_id@ == user {
                Ok(true)
            } else if holds_str(office.members@, user) {
                Ok(role_grants(users[user].role, p))
            } else {
                Ok(false)
            },
            Domain::Room { room } => if room.owner_id@ == user {
                Ok(true)
            } else if holds_str(room.members@, user) {
                Ok(role_grants(users[user].role, p))
            } else if n == 0 {
                Ok(false)
            } else {
                walk_permission(domains, users, user, room.office_id@, p, (n - 1) as nat)
            },
            Domain::Workspace { .. } => Ok(false),
        }
    }
}

/// `user`'s permission `p` on `entity`, under the server's rules; defined
/// where the walk ends.
pub open spec fn server_permission_spec(
    domains: Map<Seq<char>, Domain>,
    users: Map<Seq<char>, User>,
    user: Seq<char>,
    entity: Seq<char>,
    p: Permission,
) -> Result<bool, KernelError> {
    walk_permission(
        domains,
        users,
        user,
        entity,
        p,
        choose|n: nat| walk_ends(domains, users, user, entity, p, n),
    )
}

/// Whether `entity` exists and is of kind `T`.
pub open spec fn server_read_check<T: DomainEntity>(domains: Map<Seq<char>, Domain>, entity: Seq<char>) -> Result<
    (),
    KernelError,
> {
    if !domains.contains_key(entity) {
        Err(KernelError::EntityNotFound)
    } else if domains[entity].kind() != T::kind() {
        Err(KernelError::WrongEntityKind)
    } else {
        Ok(())
    }
}

/// May `user` act with `p` on `entity`, which must exist and be of kind `T`.
pub open spec fn server_guarded_check<T: DomainEntity>(
    domains: Map<Seq<char>, Domain>,
    users: Map<Seq<char>, User>,
    user: Seq<char>,
    entity: Seq<char>,
    p: Permission,
) -> Result<(), KernelError> {
    let c = server_permission_spec(domains, users, user, entity, p);
    if server_read_check::<T>(domains, entity) is Err {
        server_read_check::<T>(domains, entity)
    } else if c is Err {
        Err(error_of(c))
    } else if c == Ok::<bool, KernelError>(false) {
        Err(KernelError::NoPermission)
    } else {
        Ok(())
    }
}

/// The permission deleting an entity of kind `k` needs.
pub open spec fn delete_permission_for(k: EntityKind) -> Permission {
    if k == EntityKind::Office {
        Permission::DeleteOffice
    } else {
        Permission::DeleteRoom
    }
}

/// The permission changing an entity of kind `k` needs.
pub open spec fn edit_permission_for(k: EntityKind) -> Permission {
    if k == EntityKind::Office {
        Permission::EditOfficeConfig
    } else {
        Permission::EditRoomConfig
    }
}

/// May `user` create an entity under `parent`: they need `CreateEntity`
/// globally and, under a parent, `AddRoom` on it.
pub open spec fn server_create_check(
    domains: Map<Seq<char>, Domain>,
    users: Map<Seq<char>, User>,
    user: Seq<char>,
    parent: Option<Seq<char>>,
) -> Result<(), KernelError> {
    let g = global_permission_spec(users, user, Permission::CreateEntity);
    if g is Err {
        Err(error_of(g))
    } else if g == Ok::<bool, KernelError>(false) {
        Err(KernelError::NoPermission)
    } else {
        match parent {
            None => Ok(()),
            Some(p) => {
                let c = server_permission_spec(domains, users, user, p, Permission::AddRoom);
                if c is Err {
                    Err(error_of(c))
                } else if c == Ok::<bool, KernelError>(false) {
                    Err(KernelError::NoPermission)
                } else {
                    Ok(())
                }
            },
        }
    }
}

/// May `user` do what needs `p`, as `check` answers: the refusal of a
/// failed check, a plain refusal when it says no.
pub open spec fn allowed_by(check: Result<bool, KernelError>) -> Result<(), KernelError> {
    if check is Err {
        Err(error_of(check))
    } else if check == Ok::<bool, KernelError>(false) {
        Err(KernelError::NoPermission)
    } else {
        Ok(())
    }
}

/// Whether `d` is listed for `user` under `parent` as one of kind `T`: of
/// that kind, a room only under its own office when a parent is given, and
/// one the user is counted a member of.
pub open spec fn server_listed<T: DomainEntity>(
    domains: Map<Seq<char>, Domain>,
    d: Domain,
    parent: Option<Seq<char>>,
    user: Seq<char>,
) -> bool {
    &&& d.kind() == T::kind()
    &&& (parent is Some && d is Room ==> d->room.office_id@ == parent->0)
    &&& server_member_spec(domains, user, d.id_view()) == Ok::<bool, KernelError>(true)
}

/// Whether `e` holds the same as an entry listed for `user` under `parent`.
pub open spec fn server_lists<T: DomainEntity>(
    domains: Map<Seq<char>, Domain>,
    parent: Option<Seq<char>>,
    user: Seq<char>,
    e: T,
) -> bool {
    exists|k: Seq<char>|
        #[trigger] domains.contains_key(k) && server_listed::<T>(domains, domains[k], parent, user) && e.held().same_as(
            domains[k],
        )
}

/// May `user` read `entity` as one of kind `T` after the membership
/// check: they must be counted its member, and it must be of that kind.
pub open spec fn server_access_check<T: DomainEntity>(
    domains: Map<Seq<char>, Domain>,
    user: Seq<char>,
    entity: Seq<char>,
) -> Result<(), KernelError> {
    if allowed_by(server_member_spec(domains, user, entity)) is Err {
        allowed_by(server_member_spec(domains, user, entity))
    } else {
        server_read_check::<T>(domains, entity)
    }
}

/// Domain operations served over a kernel.
#[derive(Debug)]
pub struct ServerDomainOps {
    kernel: WorkspaceServerKernel,
}

impl ServerDomainOps {
    /// The domain table.
    pub closed spec fn domains(&self) -> Map<Seq<char>, Domain> {
        self.kernel.domains()
    }

    /// The user table.
    pub closed spec fn users(&self) -> Map<Seq<char>, User> {
        self.kernel.users()
    }

    /// Operations over `kernel`.
    pub fn new(kernel: WorkspaceServerKernel) -> (s: ServerDomainOps)
        ensures
            s.domains() == kernel.domains(),
            s.users() == kernel.users(),
    {
        ServerDomainOps { kernel }
    }

    /// Nothing needs setting up.
    pub fn init(&self) -> (r: Result<(), KernelError>)
        ensures
            r is Ok,
    {
        Ok(())
    }

    /// The kernel operated on.
    pub fn kernel(&self) -> (k: &WorkspaceServerKernel)
        ensures
            k.domains() == self.domains(),
            k.users() == self.users(),
    {
        &self.kernel
    }

    /// Whether `user_id` is the server's administrator.
    pub fn is_admin(&self, user_id: &str) -> (b: bool)
        ensures
            b == (user_id@ == SERVER_ADMIN_ID@),
    {
        str_eq(user_id, SERVER_ADMIN_ID)
    }

    /// A copy of the record of `user_id`, if there is one.
    pub fn get_user(&self, user_id: &str) -> (r: Option<User>)
        ensures
            r is Some <==> self.users().contains_key(user_id@),
            r matches Some(u) ==> {
                let o = self.users()[user_id@];
                &&& u.id == o.id
                &&& u.name == o.name
                &&& u.role == o.role
                &&& perm_view(u.permissions@) == perm_view(o.permissions@)
                &&& meta_view(u.metadata@) == meta_view(o.metadata@)
            },
    {
        self.kernel.get_user(user_id)
    }

    /// A copy of the domain `domain_id`, if there is one.
    pub fn get_domain(&self, domain_id: &str) -> (r: Option<Domain>)
        ensures
            r is Some <==> self.domains().contains_key(domain_id@),
            r matches Some(d) ==> d.same_as(self.domains()[domain_id@]),
    {
        self.kernel.get_domain(domain_id)
    }

    /// Whether `user_id` is counted a member of `domain_id`.
    pub fn is_member_of_domain(&self, user_id: &str, domain_id: &str) -> (r: Result<bool, KernelError>)
        ensures
            r == server_member_spec(self.domains(), user_id@, domain_id@),
    {
        if self.is_admin(user_id) {
            return Ok(true);
        }
        let store = self.kernel.store();
        match store.get_domain(domain_id) {
            None => Err(KernelError::DomainNotFound),
            Some(Domain::Room { room }) => {
                if str_eq(room.owner_id.as_str(), user_id) || contains_str(&room.members, user_id) {
                    return Ok(true);
                }
                match store.get_domain(room.office_id.as_str()) {
                    Some(Domain::Office { office }) => Ok(
                        str_eq(office.owner_id.as_str(), user_id) || contains_str(&office.members, user_id),
                    ),
                    _ => Ok(false),
                }
            },
            Some(d) => Ok(str_eq(d.owner_id().as_str(), user_id) || contains_str(d.members(), user_id)),
        }
    }

    /// Whether `user_id` may use `entity_id`: the administrator may; others
    /// must be counted its members.
    pub fn can_access_domain(&self, user_id: &str, entity_id: &str) -> (r: Result<bool, KernelError>)
        ensures
            r == server_member_spec(self.domains(), user_id@, entity_id@),
    {
        if self.is_admin(user_id) {
            return Ok(true);
        }
        self.is_member_of_domain(user_id, entity_id)
    }

    /// Whether `user_id` holds `permission` globally.
    pub fn check_global_permission(&self, user_id: &str, permission: Permission) -> (r: Result<bool, KernelError>)
        ensures
            r == global_permission_spec(self.users(), user_id@, permission),
    {
        if self.is_admin(user_id) {
            return Ok(true);
        }
        match self.kernel.store().get_user(user_id) {
            None => Err(KernelError::UserNotFound),
            Some(user) => {
                if user.has_permission(GLOBAL_DOMAIN_ID, permission) {
                    return Ok(true);
                }
                match user.role {
                    UserRole::Admin => Ok(true),
                    UserRole::Owner => Ok(
                        permission == Permission::CreateEntity || permission == Permission::AddOffice || permission
                            == Permission::AddRoom || permission == Permission::ViewContent || permission
                            == Permission::EditOfficeConfig || permission == Permission::EditRoomConfig || permission
                            == Permission::DeleteOffice || permission == Permission::DeleteRoom,
                    ),
                    _ => Ok(false),
                }
            },
        }
    }

    /// Whether `user_id` holds `permission` on `entity_id`, under the
    /// server's rules. The walk from rooms to what their `office_id` names
    /// must end: on a cycle of rooms the user is on none of, it would not.
    pub fn check_entity_permission(&self, user_id: &str, entity_id: &str, permission: Permission) -> (r: Result<
        bool,
        KernelError,
    >)
        requires
            exists|n: nat| walk_ends(self.domains(), self.users(), user_id@, entity_id@, permission, n),
        ensures
            r == server_permission_spec(self.domains(), self.users(), user_id@, entity_id@, permission),
    {
        if self.is_admin(user_id) {
            return Ok(true);
        }
        let store = self.kernel.store();
        let user = match store.get_user(user_id) {
            Some(u) => u,
            None => {
                return Err(KernelError::UserNotFound);
            },
        };
        let ghost fuel0: nat = choose|n: nat| walk_ends(self.domains(), self.users(), user_id@, entity_id@, permission, n);
        let ghost mut fuel: nat = fuel0;
        let mut current: String = entity_id.to_owned();
        loop
            invariant
                store.domains@ == self.domains(),
                store.users@ == self.users(),
                user_id@ != SERVER_ADMIN_ID@,
                self.users().contains_key(user_id@),
                *user == self.users()[user_id@],
                walk_ends(self.domains(), self.users(), user_id@, current@, permission, fuel),
                walk_permission(self.domains(), self.users(), user_id@, current@, permission, fuel)
                    == walk_permission(self.domains(), self.users(), user_id@, entity_id@, permission, fuel0),
                fuel0 == choose|n: nat| walk_ends(self.domains(), self.users(), user_id@, entity_id@, permission, n),
            decreases fuel,
        {
            if user.has_permission(current.as_str(), permission) {
                return Ok(true);
            }
            let domain = match store.get_domain(current.as_str()) {
                Some(d) => d,
                None => {
                    return Err(KernelError::EntityNotFound);
                },
            };
            match domain {
                Domain::Office { office } => {
                    if str_eq(office.owner_id.as_str(), user_id) {
                        return Ok(true);
                    }
                    if contains_str(&office.members, user_id) {
                        return Ok(WorkspaceServerKernel::role_grants_permission(&user.role, permission));
                    }
                    return Ok(false);
                },
                Domain::Room { room } => {
                    if str_eq(room.owner_id.as_str(), user_id) {
                        return Ok(true);
                    }
                    if contains_str(&room.members, user_id) {
                        return Ok(WorkspaceServerKernel::role_grants_permission(&user.role, permission));
                    }
                    proof {
                        fuel = (fuel - 1) as nat;
                    }
                    current = room.office_id.clone();
                },
                Domain::Workspace { .. } => {
                    return Ok(false);
                },
            }
        }
    }

    /// Whether `user_id` holds `permission` on `entity_id`, under the
    /// server's rules.
    pub fn check_permission(&self, user_id: &str, entity_id: &str, permission: Permission) -> (r: Result<
        bool,
        KernelError,
    >)
        requires
            exists|n: nat| walk_ends(self.domains(), self.users(), user_id@, entity_id@, permission, n),
        ensures
            r == server_permission_spec(self.domains(), self.users(), user_id@, entity_id@, permission),
    {
        self.check_entity_permission(user_id, entity_id, permission)
    }

    /// Put `user_id` on the member list of the office or room `domain_id`;
    /// a workspace is left as it is.
    pub fn add_user_to_domain(&mut self, user_id: &str, domain_id: &str, role: UserRole) -> (r: Result<
        (),
        KernelError,
    >)
        ensures
            r is Ok <==> old(self).domains().contains_key(domain_id@),
            r is Err ==> r == Err::<(), KernelError>(KernelError::DomainNotFound),
            final(self).users() == old(self).users(),
            r is Err || old(self).domains()[domain_id@] is Workspace ==> final(self).domains() == old(self).domains(),
            r is Ok && !(old(self).domains()[domain_id@] is Workspace) ==> joined(
                old(self).domains(),
                final(self).domains(),
                domain_id@,
                user_id@,
            ),
    {
        let mut tx = self.kernel.begin_write();
        let is_workspace = match tx.store().get_domain(domain_id) {
            None => {
                self.kernel.end_write(tx, false);
                return Err(KernelError::DomainNotFound);
            },
            Some(Domain::Workspace { .. }) => true,
            Some(_) => false,
        };
        if !is_workspace {
            let _ = tx.add_member(user_id, domain_id);
        }
        self.kernel.end_write(tx, true);
        Ok(())
    }

    /// Take `user_id` off the member list of the office or room
    /// `domain_id`; a workspace is left as it is.
    pub fn remove_user_from_domain(&mut self, user_id: &str, domain_id: &str) -> (r: Result<(), KernelError>)
        ensures
            r is Ok <==> old(self).domains().contains_key(domain_id@),
            r is Err ==> r == Err::<(), KernelError>(KernelError::DomainNotFound),
            final(self).users() == old(self).users(),
            r is Err || old(self).domains()[domain_id@] is Workspace ==> final(self).domains() == old(self).domains(),
            r is Ok && !(old(self).domains()[domain_id@] is Workspace) ==> left(
                old(self).domains(),
                final(self).domains(),
                domain_id@,
                user_id@,
            ),
    {
        let mut tx = self.kernel.begin_write();
        let is_workspace = match tx.store().get_domain(domain_id) {
            None => {
                self.kernel.end_write(tx, false);
                return Err(KernelError::DomainNotFound);
            },
            Some(Domain::Workspace { .. }) => true,
            Some(_) => false,
        };
        if !is_workspace {
            let _ = tx.remove_user_from_domain(user_id, domain_id);
        }
        self.kernel.end_write(tx, true);
        Ok(())
    }

    /// The entity `entity_id` as one of kind `T`; no permission is needed.
    pub fn get_domain_entity<T: DomainEntity>(&self, user_id: &str, entity_id: &str) -> (r: Result<T, KernelError>)
        ensures
            read_outcome::<T>(self.domains(), server_read_check::<T>(self.domains(), entity_id@), entity_id@, r),
    {
        match self.kernel.get_domain(entity_id) {
            Some(domain) => match T::from_domain(domain) {
                Some(entity) => Ok(entity),
                None => Err(KernelError::WrongEntityKind),
            },
            None => Err(KernelError::EntityNotFound),
        }
    }

    /// Create an entity of kind `T`, under `parent_id` when one is given,
    /// stored under its own id, which is fresh and random for an office or a
    /// room.
    pub fn create_domain_entity<T: DomainEntity>(
        &mut self,
        user_id: &str,
        parent_id: Option<&str>,
        name: &str,
        description: &str,
    ) -> (r: Result<T, KernelError>)
        requires
            parent_id matches Some(p) ==> exists|n: nat|
                walk_ends(old(self).domains(), old(self).users(), user_id@, p@, Permission::AddRoom, n),
        ensures
            server_create_check(old(self).domains(), old(self).users(), user_id@, opt_view(parent_id)) is Err ==> r
                == Err::<T, KernelError>(
                refusal(server_create_check(old(self).domains(), old(self).users(), user_id@, opt_view(parent_id))),
            ),
            r is Ok <==> server_create_check(old(self).domains(), old(self).users(), user_id@, opt_view(parent_id)) is Ok,
            r is Err ==> final(self).domains() == old(self).domains(),
            final(self).users() == old(self).users(),
            r matches Ok(e) ==> {
                let k = e.held().id_view();
                &&& final(self).domains() == old(self).domains().insert(k, final(self).domains()[k])
                &&& final(self).domains()[k].same_as(e.held())
                &&& e.held().kind() == T::kind()
                &&& e.held().fresh(k, name@, description@)
            },
    {
        match self.check_global_permission(user_id, Permission::CreateEntity) {
            Ok(true) => {},
            Ok(false) => {
                return Err(KernelError::NoPermission);
            },
            Err(e) => {
                return Err(e);
            },
        }
        match parent_id {
            Some(p) => match self.check_entity_permission(user_id, p, Permission::AddRoom) {
                Ok(true) => {},
                Ok(false) => {
                    return Err(KernelError::NoPermission);
                },
                Err(e) => {
                    return Err(e);
                },
            },
            None => {},
        }
        let id = new_random_id();
        let domain = T::create(id, name, description).into_domain();
        let key = domain.id().clone();
        let copy = domain.clone();
        let ghost kept = domain;
        let mut tx = self.kernel.begin_write();
        tx.insert_domain(key, domain);
        self.kernel.end_write(tx, true);
        match T::from_domain(copy) {
            Some(e) => {
                proof {
                    assert(self.domains() == old(self).domains().insert(kept.id_view(), kept));
                    assert(self.domains()[kept.id_view()] == kept);
                    assert(e.held().id_view() == kept.id_view());
                    match kept {
                        Domain::Office { office: a } => {
                            assert(a.mdx_content@ =~= Seq::<char>::empty());
                        },
                        _ => {},
                    }
                }
                Ok(e)
            },
            None => Err(KernelError::WrongEntityKind),
        }
    }

    /// Delete the entity `entity_id`, of kind `T`, and hand back what it
    /// held; the user needs `DeleteOffice` on an office, `DeleteRoom` on
    /// anything else.
    pub fn delete_domain_entity<T: DomainEntity>(&mut self, user_id: &str, entity_id: &str) -> (r: Result<
        T,
        KernelError,
    >)
        requires
            exists|n: nat|
                walk_ends(
                    old(self).domains(),
                    old(self).users(),
                    user_id@,
                    entity_id@,
                    delete_permission_for(T::kind()),
                    n,
                ),
        ensures
            delete_outcome::<T>(
                old(self).domains(),
                old(self).users(),
                final(self).domains(),
                final(self).users(),
                server_guarded_check::<T>(
                    old(self).domains(),
                    old(self).users(),
                    user_id@,
                    entity_id@,
                    delete_permission_for(T::kind()),
                ),
                entity_id@,
                r,
            ),
    {
        let entity = match self.get_domain_entity::<T>(user_id, entity_id) {
            Ok(e) => e,
            Err(e) => {
                return Err(e);
            },
        };
        let permission = if T::entity_kind() == EntityKind::Office {
            Permission::DeleteOffice
        } else {
            Permission::DeleteRoom
        };
        match self.check_entity_permission(user_id, entity_id, permission) {
            Ok(true) => {},
            Ok(false) => {
                return Err(KernelError::NoPermission);
            },
            Err(e) => {
                return Err(e);
            },
        }
        let mut tx = self.kernel.begin_write();
        let _ = tx.remove_domain(entity_id);
        self.kernel.end_write(tx, true);
        Ok(entity)
    }

    /// Change the name and description of the entity `entity_id`, of kind
    /// `T`, where new ones are given; the user needs `EditOfficeConfig` on an
    /// office, `EditRoomConfig` on anything else.
    pub fn update_domain_entity<T: DomainEntity>(
        &mut self,
        user_id: &str,
        entity_id: &str,
        name: Option<&str>,
        description: Option<&str>,
    ) -> (r: Result<T, KernelError>)
        requires
            exists|n: nat|
                walk_ends(
                    old(self).domains(),
                    old(self).users(),
                    user_id@,
                    entity_id@,
                    edit_permission_for(T::kind()),
                    n,
                ),
        ensures
            update_outcome::<T>(
                old(self).domains(),
                old(self).users(),
                final(self).domains(),
                final(self).users(),
                server_guarded_check::<T>(
                    old(self).domains(),
                    old(self).users(),
                    user_id@,
                    entity_id@,
                    edit_permission_for(T::kind()),
                ),
                entity_id@,
                name,
                description,
                None,
                r,
            ),
    {
        match self.get_domain_entity::<T>(user_id, entity_id) {
            Ok(_) => {},
            Err(e) => {
                return Err(e);
            },
        }
        let permission = if T::entity_kind() == EntityKind::Office {
            Permission::EditOfficeConfig
        } else {
            Permission::EditRoomConfig
        };
        match self.check_entity_permission(user_id, entity_id, permission) {
            Ok(true) => {},
            Ok(false) => {
                return Err(KernelError::NoPermission);
            },
            Err(e) => {
                return Err(e);
            },
        }
        let mut tx = self.kernel.begin_write();
        let current = match tx.store().get_domain(entity_id) {
            Some(d) => d.clone(),
            None => {
                self.kernel.end_write(tx, false);
                return Err(KernelError::EntityNotFound);
            },
        };
        let updated = edit_domain(current, name, description, None);
        let _ = tx.update_domain(entity_id, updated);
        self.kernel.end_write(tx, true);
        self.get_domain_entity::<T>(user_id, entity_id)
    }

    /// The entities of kind `T` listed for `user_id`: those they are counted
    /// a member of, and when `parent_id` is given, of the rooms only those
    /// of that office.
    pub fn list_domain_entities<T: DomainEntity>(&self, user_id: &str, parent_id: Option<&str>) -> (r: Result<
        Vec<T>,
        KernelError,
    >)
        ensures
            r matches Ok(v) && {
                &&& forall|i: int|
                    0 <= i < v@.len() ==> server_lists::<T>(self.domains(), opt_view(parent_id), user_id@, #[trigger] v@[i])
                &&& forall|k: Seq<char>|
                    #[trigger] self.domains().contains_key(k) && server_listed::<T>(
                        self.domains(),
                        self.domains()[k],
                        opt_view(parent_id),
                        user_id@,
                    ) ==> in_list(v@, self.domains()[k])
            },
    {
        let domains = &self.kernel.store().domains;
        let n = domains.len();
        let mut listed: Vec<T> = Vec::new();
        let mut i: usize = 0;
        while i < n
            invariant
                n == domains.key_seq().len(),
                0 <= i <= n,
                domains@ == self.domains(),
                forall|k: Seq<char>| #[trigger] domains@.contains_key(k) <==> domains.key_seq().contains(k),
                forall|a: int|
                    0 <= a < listed@.len() ==> server_lists::<T>(
                        self.domains(),
                        opt_view(parent_id),
                        user_id@,
                        #[trigger] listed@[a],
                    ),
                forall|j: int|
                    0 <= j < i ==> server_listed::<T>(
                        self.domains(),
                        self.domains()[#[trigger] domains.key_seq()[j]],
                        opt_view(parent_id),
                        user_id@,
                    ) ==> in_list(listed@, self.domains()[domains.key_seq()[j]]),
            decreases n - i,
        {
            let ghost key = domains.key_seq()[i as int];
            let domain = domains.value_at(i);
            proof {
                assert(self.domains().contains_key(key));
            }
            let in_parent = match parent_id {
                Some(p) => match domain {
                    Domain::Room { room } => str_eq(room.office_id.as_str(), p),
                    _ => true,
                },
                None => true,
            };
            if in_parent {
                let accessible = match self.can_access_domain(user_id, domain.id().as_str()) {
                    Ok(b) => b,
                    Err(_) => false,
                };
                if accessible {
                    match T::from_domain(domain.clone()) {
                        Some(e) => {
                            let ghost before = listed@;
                            listed.push(e);
                            proof {
                                assert(listed@[before.len() as int] == e);
                                assert(server_lists::<T>(self.domains(), opt_view(parent_id), user_id@, e));
                                assert forall|a: int|
                                    0 <= a < listed@.len() implies server_lists::<T>(
                                        self.domains(),
                                        opt_view(parent_id),
                                        user_id@,
                                        #[trigger] listed@[a],
                                    ) by {
                                    if a < before.len() {
                                        assert(listed@[a] == before[a]);
                                    }
                                }
                                assert forall|j: int|
                                    0 <= j < i + 1 && server_listed::<T>(
                                        self.domains(),
                                        self.domains()[#[trigger] domains.key_seq()[j]],
                                        opt_view(parent_id),
                                        user_id@,
                                    ) implies in_list(listed@, self.domains()[domains.key_seq()[j]]) by {
                                    let d = self.domains()[domains.key_seq()[j]];
                                    if j < i {
                                        let a = choose|a: int| 0 <= a < before.len() && before[a].held().same_as(d);
                                        assert(listed@[a] == before[a]);
                                    } else {
                                        assert(listed@[before.len() as int].held().same_as(d));
                                    }
                                }
                            }
                        },
                        None => {},
                    }
                }
            }
            i = i + 1;
        }
        proof {
            assert forall|k: Seq<char>|
                #[trigger] self.domains().contains_key(k) && server_listed::<T>(
                    self.domains(),
                    self.domains()[k],
                    opt_view(parent_id),
                    user_id@,
                ) implies in_list(listed@, self.domains()[k]) by {
                let j = choose|j: int| 0 <= j < n && domains.key_seq()[j] == k;
                assert(domains.key_seq()[j] == k);
            }
        }
        Ok(listed)
    }

    /// Create an office owned by `user_id`, its first member, under a fresh
    /// random id; the user needs `AddOffice` globally.
    pub fn create_office(&mut self, user_id: &str, name: &str, description: &str) -> (r: Result<Office, KernelError>)
        ensures
            allowed_by(global_permission_spec(old(self).users(), user_id@, Permission::AddOffice)) is Err ==> r
                == Err::<Office, KernelError>(
                refusal(allowed_by(global_permission_spec(old(self).users(), user_id@, Permission::AddOffice))),
            ),
            r is Ok <==> allowed_by(global_permission_spec(old(self).users(), user_id@, Permission::AddOffice)) is Ok,
            r is Err ==> final(self).domains() == old(self).domains(),
            final(self).users() == old(self).users(),
            r matches Ok(o) ==> {
                &&& final(self).domains() == old(self).domains().insert(o.id@, final(self).domains()[o.id@])
                &&& (Domain::Office { office: o }).same_as(final(self).domains()[o.id@])
                &&& o.name@ == name@
                &&& o.description@ == description@
                &&& o.owner_id@ == user_id@
                &&& str_views(o.members@) == seq![user_id@]
                &&& o.rooms@.len() == 0
                &&& o.mdx_content@.len() == 0
            },
    {
        match self.check_global_permission(user_id, Permission::AddOffice) {
            Ok(true) => {},
            Ok(false) => {
                return Err(KernelError::NoPermission);
            },
            Err(e) => {
                return Err(e);
            },
        }
        let id = new_random_id();
        let mut members: Vec<String> = Vec::new();
        members.push(user_id.to_owned());
        proof {
            assert(str_views(members@) =~= seq![user_id@]);
        }
        let office = Office {
            id: id.clone(),
            name: name.to_owned(),
            description: description.to_owned(),
            owner_id: user_id.to_owned(),
            members,
            rooms: Vec::new(),
            mdx_content: String::new(),
        };
        let copy = office.clone();
        let mut tx = self.kernel.begin_write();
        tx.insert_domain(id, Domain::Office { office });
        self.kernel.end_write(tx, true);
        Ok(copy)
    }

    /// Create a room of the office `office_id`, owned by `user_id`, its
    /// first member, under a fresh random id; the user needs `AddRoom` on
    /// the office.
    pub fn create_room(&mut self, user_id: &str, office_id: &str, name: &str, description: &str) -> (r: Result<
        Room,
        KernelError,
    >)
        requires
            exists|n: nat| walk_ends(old(self).domains(), old(self).users(), user_id@, office_id@, Permission::AddRoom, n),
        ensures
            allowed_by(
                server_permission_spec(old(self).domains(), old(self).users(), user_id@, office_id@, Permission::AddRoom),
            ) is Err ==> r == Err::<Room, KernelError>(
                refusal(
                    allowed_by(
                        server_permission_spec(
                            old(self).domains(),
                            old(self).users(),
                            user_id@,
                            office_id@,
                            Permission::AddRoom,
                        ),
                    ),
                ),
            ),
            r is Ok <==> allowed_by(
                server_permission_spec(old(self).domains(), old(self).users(), user_id@, office_id@, Permission::AddRoom),
            ) is Ok,
            r is Err ==> final(self).domains() == old(self).domains(),
            final(self).users() == old(self).users(),
            r matches Ok(m) ==> {
                &&& final(self).domains() == old(self).domains().insert(m.id@, final(self).domains()[m.id@])
                &&& (Domain::Room { room: m }).same_as(final(self).domains()[m.id@])
                &&& m.name@ == name@
                &&& m.description@ == description@
                &&& m.owner_id@ == user_id@
                &&& m.office_id@ == office_id@
                &&& str_views(m.members@) == seq![user_id@]
                &&& m.mdx_content@.len() == 0
            },
    {
        match self.check_entity_permission(user_id, office_id, Permission::AddRoom) {
            Ok(true) => {},
            Ok(false) => {
                return Err(KernelError::NoPermission);
            },
            Err(e) => {
                return Err(e);
            },
        }
        let id = new_random_id();
        let mut members: Vec<String> = Vec::new();
        members.push(user_id.to_owned());
        proof {
            assert(str_views(members@) =~= seq![user_id@]);
        }
        let room = Room {
            id: id.clone(),
            name: name.to_owned(),
            description: description.to_owned(),
            owner_id: user_id.to_owned(),
            office_id: office_id.to_owned(),
            members,
            mdx_content: String::new(),
        };
        let copy = room.clone();
        let mut tx = self.kernel.begin_write();
        tx.insert_domain(id, Domain::Room { room });
        self.kernel.end_write(tx, true);
        Ok(copy)
    }

    /// The office `office_id`, for a user counted its member.
    pub fn get_office(&self, user_id: &str, office_id: &str) -> (r: Result<Office, KernelError>)
        ensures
            read_outcome::<Office>(
                self.domains(),
                server_access_check::<Office>(self.domains(), user_id@, office_id@),
                office_id@,
                r,
            ),
    {
        match self.can_access_domain(user_id, office_id) {
            Ok(true) => {},
            Ok(false) => {
                return Err(KernelError::NoPermission);
            },
            Err(e) => {
                return Err(e);
            },
        }
        self.get_domain_entity::<Office>(user_id, office_id)
    }

    /// Delete the office `office_id`.
    pub fn delete_office(&mut self, user_id: &str, office_id: &str) -> (r: Result<Office, KernelError>)
        requires
            exists|n: nat|
                walk_ends(old(self).domains(), old(self).users(), user_id@, office_id@, Permission::DeleteOffice, n),
        ensures
            delete_outcome::<Office>(
                old(self).domains(),
                old(self).users(),
                final(self).domains(),
                final(self).users(),
                server_guarded_check::<Office>(
                    old(self).domains(),
                    old(self).users(),
                    user_id@,
                    office_id@,
                    Permission::DeleteOffice,
                ),
                office_id@,
                r,
            ),
    {
        self.delete_domain_entity::<Office>(user_id, office_id)
    }

    /// Delete the room `room_id`.
    pub fn delete_room(&mut self, user_id: &str, room_id: &str) -> (r: Result<Room, KernelError>)
        requires
            exists|n: nat|
                walk_ends(old(self).domains(), old(self).users(), user_id@, room_id@, Permission::DeleteRoom, n),
        ensures
            delete_outcome::<Room>(
                old(self).domains(),
                old(self).users(),
                final(self).domains(),
                final(self).users(),
                server_guarded_check::<Room>(
                    old(self).domains(),
                    old(self).users(),
                    user_id@,
                    room_id@,
                    Permission::DeleteRoom,
                ),
                room_id@,
                r,
            ),
    {
        self.delete_domain_entity::<Room>(user_id, room_id)
    }

    /// Change the name and description of the office `office_id`.
    pub fn update_office(
        &mut self,
        user_id: &str,
        office_id: &str,
        name: Option<&str>,
        description: Option<&str>,
    ) -> (r: Result<Office, KernelError>)
        requires
            exists|n: nat|
                walk_ends(old(self).domains(), old(self).users(), user_id@, office_id@, Permission::EditOfficeConfig, n),
        ensures
            update_outcome::<Office>(
                old(self).domains(),
                old(self).users(),
                final(self).domains(),
                final(self).users(),
                server_guarded_check::<Office>(
                    old(self).domains(),
                    old(self).users(),
                    user_id@,
                    office_id@,
                    Permission::EditOfficeConfig,
                ),
                office_id@,
                name,
                description,
                None,
                r,
            ),
    {
        self.update_domain_entity::<Office>(user_id, office_id, name, description)
    }

    /// Change the name and description of the room `room_id`.
    pub fn update_room(
        &mut self,
        user_id: &str,
        room_id: &str,
        name: Option<&str>,
        description: Option<&str>,
    ) -> (r: Result<Room, KernelError>)
        requires
            exists|n: nat|
                walk_ends(old(self).domains(), old(self).users(), user_id@, room_id@, Permission::EditRoomConfig, n),
        ensures
            update_outcome::<Room>(
                old(self).domains(),
                old(self).users(),
                final(self).domains(),
                final(self).users(),
                server_guarded_check::<Room>(
                    old(self).domains(),
                    old(self).users(),
                    user_id@,
                    room_id@,
                    Permission::EditRoomConfig,
                ),
                room_id@,
                name,
                description,
                None,
                r,
            ),
    {
        self.update_domain_entity::<Room>(user_id, room_id, name, description)
    }

    /// The offices listed for `user_id`.
    pub fn list_offices(&self, user_id: &str) -> (r: Result<Vec<Office>, KernelError>)
        ensures
            r matches Ok(v) && {
                &&& forall|i: int| 0 <= i < v@.len() ==> server_lists::<Office>(self.domains(), None, user_id@, #[trigger] v@[i])
                &&& forall|k: Seq<char>|
                    #[trigger] self.domains().contains_key(k) && server_listed::<Office>(
                        self.domains(),
                        self.domains()[k],
                        None,
                        user_id@,
                    ) ==> in_list(v@, self.domains()[k])
            },
    {
        self.list_domain_entities::<Office>(user_id, None)
    }

    /// The rooms of the office `office_id` listed for `user_id`, who must be
    /// counted a member of the office.
    pub fn list_rooms(&self, user_id: &str, office_id: &str) -> (r: Result<Vec<Room>, KernelError>)
        ensures
            allowed_by(server_member_spec(self.domains(), user_id@, office_id@)) is Err ==> r == Err::<
                Vec<Room>,
                KernelError,
            >(refusal(allowed_by(server_member_spec(self.domains(), user_id@, office_id@)))),
            r is Ok <==> allowed_by(server_member_spec(self.domains(), user_id@, office_id@)) is Ok,
            r matches Ok(v) ==> {
                &&& forall|i: int|
                    0 <= i < v@.len() ==> server_lists::<Room>(self.domains(), Some(office_id@), user_id@, #[trigger] v@[i])
                &&& forall|k: Seq<char>|
                    #[trigger] self.domains().contains_key(k) && server_listed::<Room>(
                        self.domains(),
                        self.domains()[k],
                        Some(office_id@),
                        user_id@,
                    ) ==> in_list(v@, self.domains()[k])
            },
    {
        match self.can_access_domain(user_id, office_id) {
            Ok(true) => {},
            Ok(false) => {
                return Err(KernelError::NoPermission);
            },
            Err(e) => {
                return Err(e);
            },
        }
        self.list_domain_entities::<Room>(user_id, Some(office_id))
    }
}

/// An Owner, other than the server's administrator, holds globally exactly
/// these permissions beyond what is granted to them under the global id:
/// CreateEntity, AddOffice, AddRoom, ViewContent, EditOfficeConfig,
/// EditRoomConfig, DeleteOffice and DeleteRoom.
pub proof fn law_owner_global_permissions(users: Map<Seq<char>, User>, user: Seq<char>, p: Permission)
    requires
        users.contains_key(user),
        users[user].role is Owner,
        user != SERVER_ADMIN_ID@,
    ensures
        (p == Permission::CreateEntity || p == Permission::AddOffice || p == Permission::AddRoom || p
            == Permission::ViewContent || p == Permission::EditOfficeConfig || p == Permission::EditRoomConfig
            || p == Permission::DeleteOffice || p == Permission::DeleteRoom) ==> global_permission_spec(users, user, p)
            == Ok::<bool, KernelError>(true),
        !(p == Permission::CreateEntity || p == Permission::AddOffice || p == Permission::AddRoom || p
            == Permission::ViewContent || p == Permission::EditOfficeConfig || p == Permission::EditRoomConfig
            || p == Permission::DeleteOffice || p == Permission::DeleteRoom) && !grants(
            users[user].permissions@,
            GLOBAL_DOMAIN_ID@,
            p,
        ) ==> global_permission_spec(users, user, p) == Ok::<bool, KernelError>(false),
{
}

/// Under the server's rules too, a room's office passes its standing down:
/// a user who owns or is listed by the office a room names is counted a
/// member of the room, and holds on it everything their role grants.
pub proof fn law_server_office_standing_reaches_its_rooms(
    domains: Map<Seq<char>, Domain>,
    users: Map<Seq<char>, User>,
    user: Seq<char>,
    room_id: Seq<char>,
    p: Permission,
)
    requires
        users.contains_key(user),
        domains.contains_key(room_id),
        domains[room_id] is Room,
        domains.contains_key(domains[room_id]->room.office_id@),
        domains[domains[room_id]->room.office_id@] is Office,
        ({
            let office = domains[domains[room_id]->room.office_id@]->office;
            office.owner_id@ == user || exists|i: int| 0 <= i < office.members@.len() && office.members@[i]@ == user
        }),
        role_grants(users[user].role, p),
    ensures
        server_member_spec(domains, user, room_id) == Ok::<bool, KernelError>(true),
        server_permission_spec(domains, users, user, room_id, p) == Ok::<bool, KernelError>(true),
{
    let room = domains[room_id]->room;
    let o = room.office_id@;
    assert(walk_ends(domains, users, user, o, p, 0));
    assert(walk_ends(domains, users, user, room_id, p, 1));
    let n = choose|n: nat| walk_ends(domains, users, user, room_id, p, n);
    assert(walk_ends(domains, users, user, room_id, p, n));
    if user != SERVER_ADMIN_ID@ && !grants(users[user].permissions@, room_id, p) && !(room.owner_id@ == user
        || holds_str(room.members@, user)) {
        assert(n > 0);
        assert(walk_permission(domains, users, user, room_id, p, n) == walk_permission(
            domains,
            users,
            user,
            o,
            p,
            (n - 1) as nat,
        ));
    }
}

} // verus!
