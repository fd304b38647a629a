//! The kernel's access rules, read from its store, and the operations that
//! change the store inside a write transaction.
//!
//! Every changing operation runs in one write transaction: when it fails,
//! the transaction is rolled back and the store is left exactly as it was.

use vstd::prelude::*;
use crate::domain::Domain;
use crate::permissions::{Permission, UserRole};
use crate::seqs::{contains_str, str_views};
use crate::store::{
    KernelError, Store, admin_spec, entity_admin_spec, entity_permission_spec, domain_admin_spec,
    in_parent_workspace, role_check_spec, role_grants, room_admin_spec, workspace_admits,
};
use crate::text::str_eq;
use crate::transaction::{WriteTransaction, members_with, members_without, same_but_members};
use crate::user::{User, grants, meta_view, perm_view};

verus! {

/// Whether to add a user to a domain's member list or remove them from it.
#[derive(Debug, Clone, Copy, PartialEq, Eq, Structural)]
pub enum MemberAction {
    Add,
    Remove,
}

/// How a list of permissions changes a member's permissions on a domain.
#[derive(Debug, Clone, Copy, PartialEq, Eq, Structural)]
pub enum UpdateOperation {
    /// Grant each listed permission.
    Add,
    /// Withdraw each listed permission.
    Remove,
    /// Replace the domain's permissions with the listed ones.
    Replace,
}

/// A permission table with `ps` granted on `d`, one after another.
pub open spec fn add_all(pv: Map<Seq<char>, Set<Permission>>, d: Seq<char>, ps: Seq<Permission>) -> Map<
    Seq<char>,
    Set<Permission>,
>
    decreases ps.len(),
{
    if ps.len() == 0 {
        pv
    } else {
        let before = add_all(pv, d, ps.drop_last());
        before.insert(
            d,
            (if before.contains_key(d) {
                before[d]
            } else {
                Set::empty()
            }).insert(ps.last()),
        )
    }
}

/// A permission table with `ps` withdrawn on `d`, one after another.
pub open spec fn revoke_all(pv: Map<Seq<char>, Set<Permission>>, d: Seq<char>, ps: Seq<Permission>) -> Map<
    Seq<char>,
    Set<Permission>,
>
    decreases ps.len(),
{
    if ps.len() == 0 {
        pv
    } else {
        let before = revoke_all(pv, d, ps.drop_last());
        if before.contains_key(d) {
            before.insert(d, before[d].remove(ps.last()))
        } else {
            before
        }
    }
}

/// The error of a failed check.
pub open spec fn error_of(r: Result<bool, KernelError>) -> KernelError {
    match r {
        Err(e) => e,
        Ok(_) => KernelError::UserNotFound,
    }
}

/// A member's permission table after an update on `d`.
pub open spec fn permissions_after(
    pv: Map<Seq<char>, Set<Permission>>,
    d: Seq<char>,
    ps: Seq<Permission>,
    op: UpdateOperation,
) -> Map<Seq<char>, Set<Permission>> {
    match op {
        UpdateOperation::Add => add_all(pv, d, ps),
        UpdateOperation::Remove => revoke_all(pv, d, ps),
        UpdateOperation::Replace => add_all(pv.remove(d), d, ps),
    }
}

/// What adding `user` to `domain` with `role`, on behalf of `admin`, does:
/// `admin` must be an administrator or hold `ManageUsers` on the domain, and
/// the domain and the user must exist. On success the user is on the
/// domain's member list and holds `role`; nothing else changes but that
/// entry's member list and that user's record. A refusal changes nothing.
pub open spec fn add_user_outcome(
    old_domains: Map<Seq<char>, Domain>,
    old_users: Map<Seq<char>, User>,
    new_domains: Map<Seq<char>, Domain>,
    new_users: Map<Seq<char>, User>,
    admin: Seq<char>,
    user: Seq<char>,
    domain: Seq<char>,
    role: UserRole,
    r: Result<(), KernelError>,
) -> bool {
    let p = entity_permission_spec(old_domains, old_users, admin, domain, Permission::ManageUsers);
    let allowed = admin_spec(old_users, admin) || p == Ok::<bool, KernelError>(true);
    &&& !admin_spec(old_users, admin) && p is Err ==> r == Err::<(), KernelError>(error_of(p))
    &&& !admin_spec(old_users, admin) && p == Ok::<bool, KernelError>(false) ==> r == Err::<(), KernelError>(
        KernelError::NoPermission,
    )
    &&& r is Ok <==> (allowed && old_domains.contains_key(domain) && old_users.contains_key(user))
    &&& r is Err ==> new_domains == old_domains && new_users == old_users
    &&& r is Ok ==> {
        let od = old_domains[domain];
        let nd = new_domains[domain];
        &&& new_domains.dom() == old_domains.dom()
        &&& forall|k: Seq<char>| k != domain && #[trigger] old_domains.contains_key(k) ==> new_domains[k] == old_domains[k]
        &&& same_but_members(od, nd)
        &&& str_views(nd.members_view()) == members_with(od, user)
        &&& new_users.dom() == old_users.dom()
        &&& new_users[user].role.same_as(&role)
    }
}

/// What removing `user` from `domain`, on behalf of `admin`, does: `admin`
/// must be an administrator or hold `ManageUsers` on the domain, which must
/// exist. On success the user is off the domain's member list and nothing
/// else changes. A refusal changes nothing.
pub open spec fn remove_user_outcome(
    old_domains: Map<Seq<char>, Domain>,
    old_users: Map<Seq<char>, User>,
    new_domains: Map<Seq<char>, Domain>,
    new_users: Map<Seq<char>, User>,
    admin: Seq<char>,
    user: Seq<char>,
    domain: Seq<char>,
    r: Result<(), KernelError>,
) -> bool {
    let p = entity_permission_spec(old_domains, old_users, admin, domain, Permission::ManageUsers);
    let allowed = admin_spec(old_users, admin) || p == Ok::<bool, KernelError>(true);
    &&& !admin_spec(old_users, admin) && p is Err ==> r == Err::<(), KernelError>(error_of(p))
    &&& !admin_spec(old_users, admin) && p == Ok::<bool, KernelError>(false) ==> r == Err::<(), KernelError>(
        KernelError::NoPermission,
    )
    &&& r is Ok <==> (allowed && old_domains.contains_key(domain))
    &&& r is Err ==> new_domains == old_domains && new_users == old_users
    &&& r is Ok ==> {
        let od = old_domains[domain];
        let nd = new_domains[domain];
        &&& new_domains.dom() == old_domains.dom()
        &&& forall|k: Seq<char>| k != domain && #[trigger] old_domains.contains_key(k) ==> new_domains[k] == old_domains[k]
        &&& same_but_members(od, nd)
        &&& str_views(nd.members_view()) == members_without(od, user)
        &&& new_users == old_users
    }
}

/// Calls `uuid::Uuid::new_v4` and renders it as a string. The id is random:
/// nothing is claimed of it.
#[verifier::external_body]
pub(crate) fn new_random_id() -> String {
    uuid::Uuid::new_v4().to_string()
}

/// The permissions of `s`, in order, that `user` holds on `domain`.
pub open spec fn granted_order(
    domains: Map<Seq<char>, Domain>,
    users: Map<Seq<char>, User>,
    user: Seq<char>,
    domain: Seq<char>,
    s: Seq<Permission>,
) -> Seq<Permission>
    decreases s.len(),
{
    if s.len() == 0 {
        Seq::empty()
    } else {
        let rest = granted_order(domains, users, user, domain, s.drop_last());
        if entity_permission_spec(domains, users, user, domain, s.last()) == Ok::<bool, KernelError>(true) {
            rest.push(s.last())
        } else {
            rest
        }
    }
}

/// What `granted_order` keeps comes from the sequence it reads.
proof fn lemma_granted_within(
    domains: Map<Seq<char>, Domain>,
    users: Map<Seq<char>, User>,
    user: Seq<char>,
    domain: Seq<char>,
    s: Seq<Permission>,
    p: Permission,
)
    ensures
        granted_order(domains, users, user, domain, s).contains(p) ==> s.contains(p),
    decreases s.len(),
{
    if s.len() > 0 {
        let rest = granted_order(domains, users, user, domain, s.drop_last());
        lemma_granted_within(domains, users, user, domain, s.drop_last(), p);
        if rest.contains(p) {
            let j = choose|j: int| 0 <= j < s.drop_last().len() && s.drop_last()[j] == p;
            assert(s[j] == p);
        }
        if granted_order(domains, users, user, domain, s).contains(p) && !rest.contains(p) {
            let j = choose|j: int| 0 <= j < granted_order(domains, users, user, domain, s).len() && granted_order(domains, users, user, domain, s)[j] == p;
            assert(j == rest.len());
            assert(s[s.len() - 1] == p);
        }
    }
}

/// The workspace server kernel's state: its store of domains and users.
#[derive(Debug)]
pub struct WorkspaceServerKernel {
    store: Store,
}

/// What changing the permissions of `member` on `domain`, on behalf of
/// `user`, does: refused unless `user` administers the domain and `member`
/// has a record and is on the domain's list; else the member's permissions
/// there change by `operation`, and nothing else changes.
pub open spec fn permission_update_outcome(
    old_domains: Map<Seq<char>, Domain>,
    old_users: Map<Seq<char>, User>,
    new_domains: Map<Seq<char>, Domain>,
    new_users: Map<Seq<char>, User>,
    user: Seq<char>,
    member: Seq<char>,
    domain: Seq<char>,
    permissions: Seq<Permission>,
    operation: UpdateOperation,
    r: Result<(), KernelError>,
) -> bool {
    &&& (domain_admin_spec(old_domains, old_users, user, domain) is Err ==> r
        == Err::<(), KernelError>(error_of(domain_admin_spec(old_domains, old_users, user, domain))))
    &&& (domain_admin_spec(old_domains, old_users, user, domain) == Ok::<
        bool,
        KernelError,
    >(false) ==> r == Err::<(), KernelError>(KernelError::NotDomainAdmin))
    &&& (domain_admin_spec(old_domains, old_users, user, domain) == Ok::<
        bool,
        KernelError,
    >(true) && !old_users.contains_key(member) ==> r == Err::<(), KernelError>(
        KernelError::MemberNotFound,
    ))
    &&& (domain_admin_spec(old_domains, old_users, user, domain) == Ok::<
        bool,
        KernelError,
    >(true) && old_users.contains_key(member) && !old_domains.contains_key(domain)
        ==> r == Err::<(), KernelError>(KernelError::DomainNotFound))
    &&& (domain_admin_spec(old_domains, old_users, user, domain) == Ok::<
        bool,
        KernelError,
    >(true) && old_users.contains_key(member) && old_domains.contains_key(domain)
        && !old_domains[domain].has_member(member) ==> r == Err::<(), KernelError>(
        KernelError::MemberNotInDomain,
    ))
    &&& (r is Ok <==> (domain_admin_spec(old_domains, old_users, user, domain) == Ok::<
        bool,
        KernelError,
    >(true) && old_users.contains_key(member) && old_domains.contains_key(domain)
        && old_domains[domain].has_member(member)))
    &&& (r is Err ==> new_domains == old_domains && new_users == old_users)
    &&& (r is Ok ==> {
        let ou = old_users[member];
        let nu = new_users[member];
        &&& new_domains == old_domains
        &&& new_users.dom() == old_users.dom()
        &&& forall|k: Seq<char>|
            k != member && #[trigger] old_users.contains_key(k) ==> new_users[k]
                == old_users[k]
        &&& nu.id == ou.id
        &&& nu.name == ou.name
        &&& nu.role == ou.role
        &&& meta_view(nu.metadata@) == meta_view(ou.metadata@)
        &&& perm_view(nu.permissions@) == permissions_after(
            perm_view(ou.permissions@),
            domain,
            permissions,
            operation,
        )
    })
}

/// What enrolling `user`, who registered the full name `full`, on connect
/// does: refused, changing nothing, without a root workspace; nothing when
/// the user is already on its list; else the user joins its list, and a user
/// without a record gets one, a Member named after the full name.
pub open spec fn enrol_outcome(
    old_domains: Map<Seq<char>, Domain>,
    old_users: Map<Seq<char>, User>,
    new_domains: Map<Seq<char>, Domain>,
    new_users: Map<Seq<char>, User>,
    user: Seq<char>,
    full: Option<Seq<char>>,
    r: Result<(), KernelError>,
) -> bool {
    &&& (r is Ok <==> old_domains.contains_key(crate::tree::WORKSPACE_ROOT_ID@))
    &&& (r is Err ==> r == Err::<(), KernelError>(KernelError::DomainNotFound))
    &&& (r is Err ==> new_domains == old_domains && new_users == old_users)
    &&& (r is Ok && old_domains[crate::tree::WORKSPACE_ROOT_ID@].has_member(user) ==> (new_domains
        == old_domains && new_users == old_users))
    &&& (r is Ok && !old_domains[crate::tree::WORKSPACE_ROOT_ID@].has_member(user) ==> {
        let od = old_domains[crate::tree::WORKSPACE_ROOT_ID@];
        let nd = new_domains[crate::tree::WORKSPACE_ROOT_ID@];
        &&& new_domains.dom() == old_domains.dom()
        &&& same_but_members(od, nd)
        &&& str_views(nd.members_view()) == members_with(od, user)
        &&& old_users.contains_key(user) ==> new_users == old_users
        &&& !old_users.contains_key(user) ==> {
            let u = new_users[user];
            &&& new_users.dom() == old_users.dom().insert(user)
            &&& u.id@ == user
            &&& u.name@ == crate::display_name::display_name_spec(
                user,
                full,
            )
            &&& u.role is Member
        }
    })
}

impl WorkspaceServerKernel {
    /// The domain table.
    pub closed spec fn domains(&self) -> Map<Seq<char>, Domain> {
        self.store.domains@
    }

    /// The user table.
    pub closed spec fn users(&self) -> Map<Seq<char>, User> {
        self.store.users@
    }

    /// A kernel over `store`.
    pub fn new(store: Store) -> (k: WorkspaceServerKernel)
        ensures
            k.domains() == store.domains@,
            k.users() == store.users@,
    {
        WorkspaceServerKernel { store }
    }

    /// The store, for reading.
    pub fn store(&self) -> (s: &Store)
        ensures
            s.domains@ == self.domains(),
            s.users@ == self.users(),
    {
        &self.store
    }

    /// Hand the store back.
    pub fn into_store(self) -> (s: Store)
        ensures
            s.domains@ == self.domains(),
            s.users@ == self.users(),
    {
        self.store
    }

    /// Whether `user_id` is an administrator.
    pub fn is_admin(&self, user_id: &str) -> (b: bool)
        ensures
            b == admin_spec(self.users(), user_id@),
    {
        self.store.is_admin(user_id)
    }

    /// Whether `user_id` is on the member list of `domain_id`.
    pub fn is_member_of_domain(&self, user_id: &str, domain_id: &str) -> (r: Result<bool, KernelError>)
        ensures
            r == (if self.domains().contains_key(domain_id@) {
                Ok(self.domains()[domain_id@].has_member(user_id@))
            } else {
                Err(KernelError::DomainNotFound)
            }),
    {
        self.store.is_member_of_domain(user_id, domain_id)
    }

    /// Whether `user_id` owns or belongs to a workspace listing `office_id`.
    fn belongs_to_parent_workspace(&self, office_id: &str, user_id: &str) -> (b: bool)
        ensures
            b == in_parent_workspace(self.domains(), office_id@, user_id@),
    {
        let n = self.store.domains.len();
        let mut i: usize = 0;
        while i < n
            invariant
                n == self.store.domains.key_seq().len(),
                0 <= i <= n,
                forall|k: Seq<char>| #[trigger] self.domains().contains_key(k) <==> self.store.domains.key_seq().contains(k),
                forall|j: int|
                    0 <= j < i ==> !workspace_admits(
                        self.domains()[#[trigger] self.store.domains.key_seq()[j]],
                        office_id@,
                        user_id@,
                    ),
            decreases n - i,
        {
            let domain = self.store.domains.value_at(i);
            match domain {
                Domain::Workspace { workspace } => {
                    if contains_str(&workspace.offices, office_id) && (str_eq(workspace.owner_id.as_str(), user_id)
                        || contains_str(&workspace.members, user_id)) {
                        proof {
                            let k = self.store.domains.key_seq()[i as int];
                            assert(self.domains().contains_key(k));
                        }
                        return true;
                    }
                },
                _ => {},
            }
            i = i + 1;
        }
        proof {
            if in_parent_workspace(self.domains(), office_id@, user_id@) {
                let k = choose|k: Seq<char>|
                    #[trigger] self.domains().contains_key(k) && workspace_admits(self.domains()[k], office_id@, user_id@);
                let j = choose|j: int| 0 <= j < n && self.store.domains.key_seq()[j] == k;
                assert(self.store.domains.key_seq()[j] == k);
            }
        }
        false
    }

    /// Whether `role` grants `permission` on an entity its holder belongs to.
    pub(crate) fn role_grants_permission(role: &UserRole, permission: Permission) -> (b: bool)
        ensures
            b == role_grants(*role, permission),
    {
        match role {
            UserRole::Admin => true,
            UserRole::Owner => true,
            UserRole::Member => permission == Permission::ViewContent,
            _ => false,
        }
    }

    /// Whether `user_id` holds `permission` on `entity_id`: as an
    /// administrator, by an explicit grant, as the owner, or through
    /// membership of the entity or of what contains it.
    pub fn check_entity_permission(&self, user_id: &str, entity_id: &str, permission: Permission) -> (r: Result<
        bool,
        KernelError,
    >)
        ensures
            r == entity_permission_spec(self.domains(), self.users(), user_id@, entity_id@, permission),
    {
        if self.store.is_admin(user_id) {
            return Ok(true);
        }
        let user = match self.store.users.get(user_id) {
            Some(u) => u,
            None => {
                return Err(KernelError::UserNotFound);
            },
        };
        if user.has_permission(entity_id, permission) {
            return Ok(true);
        }
        let role = &user.role;
        let domain = match self.store.domains.get(entity_id) {
            Some(d) => d,
            None => {
                return Err(KernelError::DomainNotFound);
            },
        };
        if str_eq(domain.owner_id().as_str(), user_id) {
            return Ok(true);
        }
        if contains_str(domain.members(), user_id) {
            return Ok(Self::role_grants_permission(role, permission));
        }
        match domain {
            Domain::Workspace { .. } => Ok(false),
            Domain::Office { office } => {
                if self.belongs_to_parent_workspace(office.id.as_str(), user_id) {
                    Ok(Self::role_grants_permission(role, permission))
                } else {
                    Ok(false)
                }
            },
            Domain::Room { room } => {
                match self.store.domains.get(room.office_id.as_str()) {
                    Some(Domain::Office { office }) => {
                        if str_eq(office.owner_id.as_str(), user_id) || contains_str(&office.members, user_id) {
                            Ok(Self::role_grants_permission(role, permission))
                        } else if self.belongs_to_parent_workspace(office.id.as_str(), user_id) {
                            Ok(Self::role_grants_permission(role, permission))
                        } else {
                            Ok(false)
                        }
                    },
                    _ => Ok(false),
                }
            },
        }
    }

    /// Whether `user_id` may act at `required_role` standing, within
    /// `domain_id` when one is given: administrators always may; others need
    /// a role ranked at least as high and, for a domain, to be its member.
    pub fn check_permission(&self, user_id: &str, domain_id: Option<&str>, required_role: &UserRole) -> (r: Result<
        (),
        KernelError,
    >)
        ensures
            r == role_check_spec(
                self.domains(),
                self.users(),
                user_id@,
                match domain_id {
                    Some(d) => Some(d@),
                    None => None,
                },
                *required_role,
            ),
    {
        if self.store.is_admin(user_id) {
            return Ok(());
        }
        let user = match self.store.users.get(user_id) {
            Some(u) => u,
            None => {
                return Err(KernelError::UserNotFound);
            },
        };
        if user.role.get_rank() < required_role.get_rank() {
            return Err(KernelError::InsufficientPrivileges);
        }
        match domain_id {
            None => Ok(()),
            Some(d) => match self.store.is_member_of_domain(user_id, d) {
                Ok(true) => Ok(()),
                Ok(false) => Err(KernelError::NotADomainMember),
                Err(e) => Err(e),
            },
        }
    }

    /// Whether `user_id` administers the entity with id `id` and owner
    /// `owner_id`.
    fn is_entity_admin(&self, id: &str, owner_id: &str, user_id: &str) -> (b: bool)
        ensures
            b == entity_admin_spec(self.users(), id@, owner_id@, user_id@),
    {
        if self.store.is_admin(user_id) {
            return true;
        }
        if str_eq(owner_id, user_id) {
            return true;
        }
        match self.store.users.get(user_id) {
            Some(user) => user.has_permission(id, Permission::All),
            None => false,
        }
    }

    /// Whether `user_id` administers `workspace`.
    pub fn is_workspace_admin(&self, workspace: &crate::domain::Workspace, user_id: &str) -> (b: bool)
        ensures
            b == entity_admin_spec(self.users(), workspace.id@, workspace.owner_id@, user_id@),
    {
        self.is_entity_admin(workspace.id.as_str(), workspace.owner_id.as_str(), user_id)
    }

    /// Whether `user_id` owns `workspace`.
    pub fn is_workspace_owner(&self, workspace: &crate::domain::Workspace, user_id: &str) -> (b: bool)
        ensures
            b == (workspace.owner_id@ == user_id@),
    {
        str_eq(workspace.owner_id.as_str(), user_id)
    }

    /// Whether `user_id` administers `office`.
    pub fn is_office_admin(&self, office: &crate::domain::Office, user_id: &str) -> (b: bool)
        ensures
            b == entity_admin_spec(self.users(), office.id@, office.owner_id@, user_id@),
    {
        self.is_entity_admin(office.id.as_str(), office.owner_id.as_str(), user_id)
    }

    /// Whether `user_id` administers `room`, directly or through its office.
    pub fn is_room_admin(&self, room: &crate::domain::Room, user_id: &str) -> (b: bool)
        ensures
            b == room_admin_spec(self.domains(), self.users(), *room, user_id@),
    {
        if self.is_entity_admin(room.id.as_str(), room.owner_id.as_str(), user_id) {
            return true;
        }
        match self.store.domains.get(room.office_id.as_str()) {
            Some(Domain::Office { office }) => self.is_office_admin(office, user_id),
            _ => false,
        }
    }

    /// Whether `user_id` administers `domain_id`.
    pub fn check_domain_admin(&self, user_id: &str, domain_id: &str) -> (r: Result<bool, KernelError>)
        ensures
            r == domain_admin_spec(self.domains(), self.users(), user_id@, domain_id@),
    {
        if self.store.is_admin(user_id) {
            return Ok(true);
        }
        match self.store.domains.get(domain_id) {
            Some(Domain::Office { office }) => Ok(self.is_office_admin(office, user_id)),
            Some(Domain::Room { room }) => Ok(self.is_room_admin(room, user_id)),
            Some(Domain::Workspace { workspace }) => Ok(self.is_workspace_admin(workspace, user_id)),
            None => Err(KernelError::DomainNotFound),
        }
    }

    /// Whether `user_id` is an administrator or the owner of `domain_id`.
    pub fn is_domain_admin(&self, user_id: &str, domain_id: &str) -> (r: Result<bool, KernelError>)
        ensures
            r == (if admin_spec(self.users(), user_id@) {
                Ok(true)
            } else if self.domains().contains_key(domain_id@) {
                Ok(self.domains()[domain_id@].owner_view() == user_id@)
            } else {
                Err(KernelError::DomainNotFound)
            }),
    {
        if self.store.is_admin(user_id) {
            return Ok(true);
        }
        self.is_owner(user_id, domain_id)
    }

    /// Whether `user_id` owns `domain_id`.
    pub fn is_owner(&self, user_id: &str, domain_id: &str) -> (r: Result<bool, KernelError>)
        ensures
            r == (if self.domains().contains_key(domain_id@) {
                Ok(self.domains()[domain_id@].owner_view() == user_id@)
            } else {
                Err(KernelError::DomainNotFound)
            }),
    {
        match self.store.domains.get(domain_id) {
            Some(domain) => Ok(str_eq(domain.owner_id().as_str(), user_id)),
            None => Err(KernelError::DomainNotFound),
        }
    }

    /// Whether `user_id` may use `entity_id` with `permission`.
    pub fn can_access_domain(&self, user_id: &str, entity_id: &str, permission: Permission) -> (r: Result<
        bool,
        KernelError,
    >)
        ensures
            r == entity_permission_spec(self.domains(), self.users(), user_id@, entity_id@, permission),
    {
        self.check_entity_permission(user_id, entity_id, permission)
    }
    /// Start a write transaction on the kernel's store.
    pub(crate) fn begin_write(&mut self) -> (tx: WriteTransaction)
        ensures
            tx.domains() == old(self).domains(),
            tx.users() == old(self).users(),
            tx.start_domains() == old(self).domains(),
            tx.start_users() == old(self).users(),
            tx.restorable(),
    {
        let mut store = Store::new();
        std::mem::swap(&mut store, &mut self.store);
        WriteTransaction::new(store)
    }

    /// End a write transaction: keep its changes, or roll them back.
    pub(crate) fn end_write(&mut self, tx: WriteTransaction, keep: bool)
        requires
            !keep ==> tx.restorable(),
        ensures
            keep ==> final(self).domains() == tx.domains() && final(self).users() == tx.users(),
            !keep ==> final(self).domains() == tx.start_domains() && final(self).users() == tx.start_users(),
    {
        self.store = if keep {
            tx.commit()
        } else {
            tx.rollback()
        };
    }

    /// Create a user with a fresh random id. Only administrators may.
    pub fn create_user(&mut self, admin_id: &str, username: &str, role: UserRole) -> (r: Result<(), KernelError>)
        ensures
            r is Ok <==> admin_spec(old(self).users(), admin_id@),
            r is Err ==> r == Err::<(), KernelError>(KernelError::NotAdministrator),
            r is Err ==> final(self).users() == old(self).users(),
            final(self).domains() == old(self).domains(),
            r is Ok ==> exists|id: Seq<char>|
                {
                    &&& final(self).users() == old(self).users().insert(id, #[trigger] final(self).users()[id])
                    &&& final(self).users()[id].id@ == id
                    &&& final(self).users()[id].name@ == username@
                    &&& final(self).users()[id].role == role
                    &&& final(self).users()[id].permissions@ == Map::<
                        Seq<char>,
                        crate::permissions::PermissionSet,
                    >::empty()
                    &&& final(self).users()[id].metadata@ == Map::<Seq<char>, crate::user::MetadataValue>::empty()
                },
    {
        if !self.is_admin(admin_id) {
            return Err(KernelError::NotAdministrator);
        }
        let user_id = new_random_id();
        let ghost wanted_role = role;
        let user = User::new(user_id.clone(), username.to_owned(), role);
        let ghost id = user_id@;
        let ghost made = user;
        self.store.users.insert(user_id, user);
        proof {
            assert(self.store.users@[id] == made);
            assert(made.id@ == id && made.name@ == username@ && made.role == wanted_role);
            assert(self.store.users@ =~= old(self).store.users@.insert(id, self.store.users@[id]));
            assert(self.users() == old(self).users().insert(id, self.users()[id]));
        }
        Ok(())
    }

    /// Add `user_id` to `domain_id` with `role`, on behalf of `admin_id`, who
    /// must be an administrator or hold `ManageUsers` on the domain.
    pub fn add_user_to_domain(&mut self, admin_id: &str, user_id: &str, domain_id: &str, role: UserRole) -> (r:
        Result<(), KernelError>)
        ensures
            add_user_outcome(
                old(self).domains(),
                old(self).users(),
                final(self).domains(),
                final(self).users(),
                admin_id@,
                user_id@,
                domain_id@,
                role,
                r,
            ),
    {
        if !self.is_admin(admin_id) {
            match self.check_entity_permission(admin_id, domain_id, Permission::ManageUsers) {
                Ok(true) => {},
                Ok(false) => {
                    return Err(KernelError::NoPermission);
                },
                Err(e) => {
                    return Err(e);
                },
            }
        }
        let ghost wanted = role;
        let mut tx = self.begin_write();
        let r = tx.add_user_to_domain(user_id, domain_id, role);
        let keep = r.is_ok();
        self.end_write(tx, keep);
        r
    }

    /// Remove `user_id` from `domain_id`, on behalf of `admin_id`, who must be
    /// an administrator or hold `ManageUsers` on the domain.
    pub fn remove_user_from_domain(&mut self, admin_id: &str, user_id: &str, domain_id: &str) -> (r: Result<
        (),
        KernelError,
    >)
        ensures
            remove_user_outcome(
                old(self).domains(),
                old(self).users(),
                final(self).domains(),
                final(self).users(),
                admin_id@,
                user_id@,
                domain_id@,
                r,
            ),
    {
        if !self.is_admin(admin_id) {
            match self.check_entity_permission(admin_id, domain_id, Permission::ManageUsers) {
                Ok(true) => {},
                Ok(false) => {
                    return Err(KernelError::NoPermission);
                },
                Err(e) => {
                    return Err(e);
                },
            }
        }
        let mut tx = self.begin_write();
        let r = tx.remove_user_from_domain(user_id, domain_id);
        let keep = r.is_ok();
        self.end_write(tx, keep);
        r
    }

    /// Give `user_id` the role `role`. Only administrators may.
    pub fn set_user_role(&mut self, admin_id: &str, user_id: &str, role: UserRole) -> (r: Result<(), KernelError>)
        ensures
            !admin_spec(old(self).users(), admin_id@) ==> r == Err::<(), KernelError>(
                KernelError::NotAdministrator,
            ),
            admin_spec(old(self).users(), admin_id@) && !old(self).users().contains_key(user_id@) ==> r == Err::<
                (),
                KernelError,
            >(KernelError::UserNotFound),
            r is Ok <==> admin_spec(old(self).users(), admin_id@) && old(self).users().contains_key(user_id@),
            r is Err ==> final(self).users() == old(self).users(),
            final(self).domains() == old(self).domains(),
            r is Ok ==> {
                let ou = old(self).users()[user_id@];
                let nu = final(self).users()[user_id@];
                &&& final(self).users().dom() == old(self).users().dom()
                &&& forall|k: Seq<char>|
                    k != user_id@ && #[trigger] old(self).users().contains_key(k) ==> final(self).users()[k]
                        == old(self).users()[k]
                &&& nu.role == role
                &&& nu.id == ou.id
                &&& nu.name == ou.name
                &&& perm_view(nu.permissions@) == perm_view(ou.permissions@)
                &&& meta_view(nu.metadata@) == meta_view(ou.metadata@)
            },
    {
        if !self.is_admin(admin_id) {
            return Err(KernelError::NotAdministrator);
        }
        let user = match self.store.users.get(user_id) {
            Some(u) => u.clone(),
            None => {
                return Err(KernelError::UserNotFound);
            },
        };
        let User { id, name, role: _, permissions, metadata } = user;
        let updated = User { id, name, role, permissions, metadata };
        self.store.users.insert(user_id.to_owned(), updated);
        proof {
            assert(self.store.users@.dom() =~= old(self).store.users@.dom());
        }
        Ok(())
    }

    /// Add `user_id` to, or remove them from, the member list of `domain_id`.
    pub fn update_domain_members(&mut self, domain_id: &str, user_id: &str, action: MemberAction) -> (r: Result<
        (),
        KernelError,
    >)
        ensures
            r is Ok <==> old(self).domains().contains_key(domain_id@),
            r is Err ==> r == Err::<(), KernelError>(KernelError::DomainNotFound),
            r is Err ==> final(self).domains() == old(self).domains(),
            final(self).users() == old(self).users(),
            r is Ok ==> {
                let od = old(self).domains()[domain_id@];
                let nd = final(self).domains()[domain_id@];
                &&& final(self).domains().dom() == old(self).domains().dom()
                &&& forall|k: Seq<char>|
                    k != domain_id@ && #[trigger] old(self).domains().contains_key(k) ==> final(self).domains()[k]
                        == old(self).domains()[k]
                &&& same_but_members(od, nd)
                &&& str_views(nd.members_view()) == (match action {
                    MemberAction::Add => members_with(od, user_id@),
                    MemberAction::Remove => members_without(od, user_id@),
                })
            },
    {
        let mut tx = self.begin_write();
        let r = match action {
            MemberAction::Add => tx.add_member(user_id, domain_id),
            MemberAction::Remove => tx.remove_user_from_domain(user_id, domain_id),
        };
        let keep = r.is_ok();
        self.end_write(tx, keep);
        r
    }

    /// Delete the entity `entity_id` on behalf of `user_id`, who must hold
    /// `All` on it (administrators and owners do).
    pub fn delete_entity(&mut self, user_id: &str, entity_id: &str) -> (r: Result<(), KernelError>)
        ensures
            entity_permission_spec(old(self).domains(), old(self).users(), user_id@, entity_id@, Permission::All)
                is Err ==> r == Err::<(), KernelError>(error_of(entity_permission_spec(
                old(self).domains(),
                old(self).users(),
                user_id@,
                entity_id@,
                Permission::All,
            ))),
            entity_permission_spec(old(self).domains(), old(self).users(), user_id@, entity_id@, Permission::All)
                == Ok::<bool, KernelError>(false) ==> r == Err::<(), KernelError>(KernelError::NoPermission),
            entity_permission_spec(old(self).domains(), old(self).users(), user_id@, entity_id@, Permission::All)
                == Ok::<bool, KernelError>(true) && !old(self).domains().contains_key(entity_id@) ==> r == Err::<
                (),
                KernelError,
            >(KernelError::EntityNotFound),
            r is Ok <==> entity_permission_spec(
                old(self).domains(),
                old(self).users(),
                user_id@,
                entity_id@,
                Permission::All,
            ) == Ok::<bool, KernelError>(true) && old(self).domains().contains_key(entity_id@),
            r is Ok ==> final(self).domains() == old(self).domains().remove(entity_id@),
            r is Err ==> final(self).domains() == old(self).domains(),
            final(self).users() == old(self).users(),
    {
        match self.can_access_domain(user_id, entity_id, Permission::All) {
            Ok(true) => {},
            Ok(false) => {
                return Err(KernelError::NoPermission);
            },
            Err(e) => {
                return Err(e);
            },
        }
        let mut tx = self.begin_write();
        let r = if tx.store().get_domain(entity_id).is_some() {
            let _ = tx.remove_domain(entity_id);
            Ok(())
        } else {
            Err(KernelError::EntityNotFound)
        };
        let keep = r.is_ok();
        self.end_write(tx, keep);
        r
    }

    /// Change `member_id`'s permissions on `domain_id`, on behalf of
    /// `user_id`, who must administer the domain. The member must exist and
    /// be on the domain's member list.
    pub fn update_permissions_for_member(
        &mut self,
        user_id: &str,
        member_id: &str,
        domain_id: &str,
        permissions: &[Permission],
        operation: UpdateOperation,
    ) -> (r: Result<(), KernelError>)
        ensures
            permission_update_outcome(old(self).domains(), old(self).users(), final(self).domains(), final(self).users(), user_id@, member_id@, domain_id@, permissions@, operation, r),
    {
        match self.check_domain_admin(user_id, domain_id) {
            Ok(true) => {},
            Ok(false) => {
                return Err(KernelError::NotDomainAdmin);
            },
            Err(e) => {
                return Err(e);
            },
        }
        let mut tx = self.begin_write();
        let r = Self::apply_permission_update(&mut tx, member_id, domain_id, permissions, operation);
        let keep = r.is_ok();
        self.end_write(tx, keep);
        r
    }

    /// The write part of `update_permissions_for_member`.
    fn apply_permission_update(
        tx: &mut WriteTransaction,
        member_id: &str,
        domain_id: &str,
        permissions: &[Permission],
        operation: UpdateOperation,
    ) -> (r: Result<(), KernelError>)
        requires
            old(tx).restorable(),
        ensures
            final(tx).restorable(),
            final(tx).start_domains() == old(tx).start_domains(),
            final(tx).start_users() == old(tx).start_users(),
            final(tx).domains() == old(tx).domains(),
            !old(tx).users().contains_key(member_id@) ==> r == Err::<(), KernelError>(KernelError::MemberNotFound),
            old(tx).users().contains_key(member_id@) && !old(tx).domains().contains_key(domain_id@) ==> r == Err::<
                (),
                KernelError,
            >(KernelError::DomainNotFound),
            old(tx).users().contains_key(member_id@) && old(tx).domains().contains_key(domain_id@) && !old(
                tx,
            ).domains()[domain_id@].has_member(member_id@) ==> r == Err::<(), KernelError>(
                KernelError::MemberNotInDomain,
            ),
            r is Ok <==> (old(tx).users().contains_key(member_id@) && old(tx).domains().contains_key(domain_id@)
                && old(tx).domains()[domain_id@].has_member(member_id@)),
            r is Ok ==> {
                let ou = old(tx).users()[member_id@];
                let nu = final(tx).users()[member_id@];
                &&& final(tx).users().dom() == old(tx).users().dom()
                &&& forall|k: Seq<char>|
                    k != member_id@ && #[trigger] old(tx).users().contains_key(k) ==> final(tx).users()[k] == old(
                        tx,
                    ).users()[k]
                &&& nu.id == ou.id
                &&& nu.name == ou.name
                &&& nu.role == ou.role
                &&& meta_view(nu.metadata@) == meta_view(ou.metadata@)
                &&& perm_view(nu.permissions@) == permissions_after(
                    perm_view(ou.permissions@),
                    domain_id@,
                    permissions@,
                    operation,
                )
            },
    {
        let mut member = match tx.store().get_user(member_id) {
            Some(u) => u.clone(),
            None => {
                return Err(KernelError::MemberNotFound);
            },
        };
        match tx.store().is_member_of_domain(member_id, domain_id) {
            Ok(true) => {},
            Ok(false) => {
                return Err(KernelError::MemberNotInDomain);
            },
            Err(e) => {
                return Err(e);
            },
        }
        let ghost start = perm_view(member.permissions@);
        let ghost id0 = member.id;
        let ghost name0 = member.name;
        let ghost role0 = member.role;
        let ghost meta0 = meta_view(member.metadata@);
        match operation {
            UpdateOperation::Add => {
                Self::grant_each(&mut member, domain_id, permissions);
            },
            UpdateOperation::Remove => {
                Self::revoke_each(&mut member, domain_id, permissions);
            },
            UpdateOperation::Replace => {
                member.clear_permissions(domain_id);
                Self::grant_each(&mut member, domain_id, permissions);
            },
        }
        let r = tx.update_user(member_id, member);
        proof {
            assert(tx.users().dom() =~= old(tx).users().dom());
        }
        r
    }

    /// Grant each of `permissions` on `domain_id`, in order.
    pub(crate) fn grant_each(member: &mut User, domain_id: &str, permissions: &[Permission])
        ensures
            final(member).id == old(member).id,
            final(member).name == old(member).name,
            final(member).role == old(member).role,
            final(member).metadata == old(member).metadata,
            perm_view(final(member).permissions@) == add_all(perm_view(old(member).permissions@), domain_id@, permissions@),
    {
        let mut i: usize = 0;
        while i < permissions.len()
            invariant
                0 <= i <= permissions@.len(),
                member.id == old(member).id,
                member.name == old(member).name,
                member.role == old(member).role,
                member.metadata == old(member).metadata,
                perm_view(member.permissions@) == add_all(
                    perm_view(old(member).permissions@),
                    domain_id@,
                    permissions@.subrange(0, i as int),
                ),
            decreases permissions@.len() - i,
        {
            member.add_permission(domain_id, permissions[i]);
            proof {
                let next = permissions@.subrange(0, i + 1);
                assert(next.drop_last() =~= permissions@.subrange(0, i as int));
                assert(next.last() == permissions@[i as int]);
            }
            i = i + 1;
        }
        proof {
            assert(permissions@.subrange(0, permissions@.len() as int) =~= permissions@);
        }
    }

    /// Withdraw each of `permissions` on `domain_id`, in order.
    fn revoke_each(member: &mut User, domain_id: &str, permissions: &[Permission])
        ensures
            final(member).id == old(member).id,
            final(member).name == old(member).name,
            final(member).role == old(member).role,
            final(member).metadata == old(member).metadata,
            perm_view(final(member).permissions@) == revoke_all(perm_view(old(member).permissions@), domain_id@, permissions@),
    {
        let mut i: usize = 0;
        while i < permissions.len()
            invariant
                0 <= i <= permissions@.len(),
                member.id == old(member).id,
                member.name == old(member).name,
                member.role == old(member).role,
                member.metadata == old(member).metadata,
                perm_view(member.permissions@) == revoke_all(
                    perm_view(old(member).permissions@),
                    domain_id@,
                    permissions@.subrange(0, i as int),
                ),
            decreases permissions@.len() - i,
        {
            member.revoke_permission(domain_id, permissions[i]);
            proof {
                let next = permissions@.subrange(0, i + 1);
                assert(next.drop_last() =~= permissions@.subrange(0, i as int));
                assert(next.last() == permissions@[i as int]);
            }
            i = i + 1;
        }
        proof {
            assert(permissions@.subrange(0, permissions@.len() as int) =~= permissions@);
        }
    }

    /// Grant (`allow`) or withdraw one permission of `user_id` on
    /// `domain_id`, on behalf of `admin_id`, who must administer the domain.
    pub fn set_domain_permission(
        &mut self,
        admin_id: &str,
        domain_id: &str,
        user_id: &str,
        permission: Permission,
        allow: bool,
    ) -> (r: Result<(), KernelError>)
        ensures
            domain_admin_spec(old(self).domains(), old(self).users(), admin_id@, domain_id@) is Err ==> r
                == Err::<(), KernelError>(error_of(domain_admin_spec(old(self).domains(), old(self).users(), admin_id@, domain_id@))),
            domain_admin_spec(old(self).domains(), old(self).users(), admin_id@, domain_id@) == Ok::<
                bool,
                KernelError,
            >(false) ==> r == Err::<(), KernelError>(KernelError::NotDomainAdmin),
            r is Ok <==> (domain_admin_spec(old(self).domains(), old(self).users(), admin_id@, domain_id@) == Ok::<
                bool,
                KernelError,
            >(true) && old(self).users().contains_key(user_id@) && old(self).domains().contains_key(domain_id@)
                && old(self).domains()[domain_id@].has_member(user_id@)),
            r is Err ==> final(self).domains() == old(self).domains() && final(self).users() == old(self).users(),
            r is Ok ==> {
                let ou = old(self).users()[user_id@];
                let nu = final(self).users()[user_id@];
                &&& final(self).domains() == old(self).domains()
                &&& final(self).users().dom() == old(self).users().dom()
                &&& nu.role == ou.role
                &&& perm_view(nu.permissions@) == permissions_after(
                    perm_view(ou.permissions@),
                    domain_id@,
                    seq![permission],
                    if allow {
                        UpdateOperation::Add
                    } else {
                        UpdateOperation::Remove
                    },
                )
            },
    {
        match self.check_domain_admin(admin_id, domain_id) {
            Ok(true) => {},
            Ok(false) => {
                return Err(KernelError::NotDomainAdmin);
            },
            Err(e) => {
                return Err(e);
            },
        }
        let one = [permission];
        proof {
            assert(one@ =~= seq![permission]);
        }
        if allow {
            self.update_permissions_for_member(admin_id, user_id, domain_id, &one, UpdateOperation::Add)
        } else {
            self.update_permissions_for_member(admin_id, user_id, domain_id, &one, UpdateOperation::Remove)
        }
    }
    /// The permissions `user_id` would be allowed on `domain_id`, each once:
    /// every permission the access check grants.
    pub fn effective_permissions(&self, user_id: &str, domain_id: &str) -> (r: Result<Vec<Permission>, KernelError>)
        ensures
            r is Err <==> !self.users().contains_key(user_id@),
            r is Err ==> r == Err::<Vec<Permission>, KernelError>(KernelError::UserNotFound),
            r matches Ok(ps) ==> ps@ == granted_order(
                self.domains(),
                self.users(),
                user_id@,
                domain_id@,
                crate::permissions::all_permissions(),
            ),
            r matches Ok(ps) ==> {
                &&& ps@.no_duplicates()
                &&& forall|p: Permission|
                    #[trigger] ps@.contains(p) <==> entity_permission_spec(
                        self.domains(),
                        self.users(),
                        user_id@,
                        domain_id@,
                        p,
                    ) == Ok::<bool, KernelError>(true)
            },
    {
        if self.store.get_user(user_id).is_none() {
            return Err(KernelError::UserNotFound);
        }
        let all = Permission::all_variants();
        proof {
            crate::permissions::lemma_all_permissions_distinct();
            assert(all@.subrange(0, 0) =~= Seq::<Permission>::empty());
        }
        let mut granted: Vec<Permission> = Vec::new();
        let mut i: usize = 0;
        while i < all.len()
            invariant
                0 <= i <= all@.len(),
                all@ == crate::permissions::all_permissions(),
                all@.no_duplicates(),
                granted@ == granted_order(self.domains(), self.users(), user_id@, domain_id@, all@.subrange(0, i as int)),
                granted@.no_duplicates(),
                forall|p: Permission|
                    #[trigger] granted@.contains(p) <==> (entity_permission_spec(
                        self.domains(),
                        self.users(),
                        user_id@,
                        domain_id@,
                        p,
                    ) == Ok::<bool, KernelError>(true) && exists|j: int| 0 <= j < i && all@[j] == p),
            decreases all@.len() - i,
        {
            let p = all[i];
            let allowed = match self.check_entity_permission(user_id, domain_id, p) {
                Ok(b) => b,
                Err(_) => false,
            };
            let ghost before = granted@;
            proof {
                let pre = all@.subrange(0, i as int);
                assert(all@.subrange(0, i + 1).drop_last() =~= pre);
                assert(all@.subrange(0, i + 1).last() == p);
                lemma_granted_within(self.domains(), self.users(), user_id@, domain_id@, pre, p);
                if pre.contains(p) {
                    let j = choose|j: int| 0 <= j < pre.len() && pre[j] == p;
                    assert(all@[j] == all@[i as int]);
                }
            }
            if allowed && !crate::kernel::holds_permission(&granted, p) {
                granted.push(p);
            }
            proof {
                assert forall|q: Permission|
                    #[trigger] granted@.contains(q) <==> (entity_permission_spec(
                        self.domains(),
                        self.users(),
                        user_id@,
                        domain_id@,
                        q,
                    ) == Ok::<bool, KernelError>(true) && exists|j: int| 0 <= j < i + 1 && all@[j] == q) by {
                    if granted@.contains(q) && !before.contains(q) {
                        assert(granted@[granted@.len() - 1] == p);
                        assert(q == p);
                        assert(all@[i as int] == q);
                    }
                    if before.contains(q) {
                        let x = choose|x: int| 0 <= x < before.len() && before[x] == q;
                        assert(granted@[x] == q);
                    }
                    if entity_permission_spec(self.domains(), self.users(), user_id@, domain_id@, q) == Ok::<
                        bool,
                        KernelError,
                    >(true) && exists|j: int| 0 <= j < i + 1 && all@[j] == q {
                        let j = choose|j: int| 0 <= j < i + 1 && all@[j] == q;
                        if j == i && !before.contains(q) {
                            assert(granted@[granted@.len() - 1] == q);
                        }
                    }
                }
                assert(granted@.no_duplicates()) by {
                    if granted@.len() > before.len() {
                        assert forall|a: int, b: int| 0 <= a < b < granted@.len() implies granted@[a] != granted@[b] by {
                            if b == granted@.len() - 1 {
                                assert(granted@[a] == before[a]);
                                assert(before.contains(before[a]));
                            }
                        }
                    }
                }
            }
            i = i + 1;
        }
        proof {
            assert(all@.subrange(0, all@.len() as int) =~= all@);
            assert forall|p: Permission|
                #[trigger] granted@.contains(p) <==> entity_permission_spec(
                    self.domains(),
                    self.users(),
                    user_id@,
                    domain_id@,
                    p,
                ) == Ok::<bool, KernelError>(true) by {
                assert(crate::permissions::all_permissions().contains(p)) by {
                    match p {
                        Permission::All => assert(all@[0] == p),
                        Permission::ViewContent => assert(all@[1] == p),
                        Permission::EditContent => assert(all@[2] == p),
                        Permission::AddUsers => assert(all@[3] == p),
                        Permission::RemoveUsers => assert(all@[4] == p),
                        Permission::ManageUsers => assert(all@[5] == p),
                        Permission::CreateWorkspace => assert(all@[6] == p),
                        Permission::UpdateWorkspace => assert(all@[7] == p),
                        Permission::DeleteWorkspace => assert(all@[8] == p),
                        Permission::CreateOffice => assert(all@[9] == p),
                        Permission::AddOffice => assert(all@[10] == p),
                        Permission::DeleteOffice => assert(all@[11] == p),
                        Permission::UpdateOfficeSettings => assert(all@[12] == p),
                        Permission::EditOfficeConfig => assert(all@[13] == p),
                        Permission::ManageOfficeMembers => assert(all@[14] == p),
                        Permission::CreateRoom => assert(all@[15] == p),
                        Permission::AddRoom => assert(all@[16] == p),
                        Permission::DeleteRoom => assert(all@[17] == p),
                        Permission::UpdateRoomSettings => assert(all@[18] == p),
                        Permission::EditRoomConfig => assert(all@[19] == p),
                        Permission::CreateEntity => assert(all@[20] == p),
                        Permission::EditMdx => assert(all@[21] == p),
                        Permission::Themes => assert(all@[22] == p),
                        Permission::ReadMessages => assert(all@[23] == p),
                        Permission::SendMessages => assert(all@[24] == p),
                    }
                }
            }
        }
        Ok(granted)
    }

    /// Enrol `user_id`, who has just connected, in the root workspace: create
    /// their record (as a Member named after their registered full name, or
    /// the username when there is none) when there is none, and add them to
    /// the workspace's member list when absent.
    pub fn enroll_on_connect(&mut self, user_id: &str, registered_full_name: Option<&str>) -> (r: Result<
        (),
        KernelError,
    >)
        ensures
            enrol_outcome(old(self).domains(), old(self).users(), final(self).domains(), final(self).users(), user_id@, crate::entity_ops::opt_view(registered_full_name), r),
    {
        let root = crate::tree::WORKSPACE_ROOT_ID;
        let already = match self.store.get_domain(root) {
            Some(d) => contains_str(d.members(), user_id),
            None => {
                return Err(KernelError::DomainNotFound);
            },
        };
        if already {
            return Ok(());
        }
        let mut tx = self.begin_write();
        if tx.store().get_user(user_id).is_none() {
            let name = crate::display_name::display_name_for(user_id, registered_full_name);
            let user = User::new(user_id.to_owned(), name, UserRole::Member);
            tx.insert_user(user_id.to_owned(), user);
        }
        let r = tx.add_member(user_id, root);
        proof {
            assert(tx.users().dom() =~= old(self).users().dom().insert(user_id@) || old(self).users().contains_key(
                user_id@,
            ));
        }
        self.end_write(tx, true);
        r
    }
}

/// Whether `v` holds `p`.
pub(crate) fn holds_permission(v: &Vec<Permission>, p: Permission) -> (b: bool)
    ensures
        b == v@.contains(p),
{
    let mut i: usize = 0;
    while i < v.len()
        invariant
            0 <= i <= v@.len(),
            forall|j: int| 0 <= j < i ==> v@[j] != p,
        decreases v@.len() - i,
    {
        if v[i] == p {
            return true;
        }
        i = i + 1;
    }
    false
}

} // verus!
