//! Member administration: putting users on offices and rooms with the
//! permissions that membership brings, taking them off again, and changing a
//! member's role or permissions.
//!
//! Joining an office grants `ViewContent`, `EditMdx` and `EditOfficeConfig`
//! on it; joining a room grants `ViewContent` and `EditMdx`; a workspace
//! brings no grant of its own. Leaving a domain withdraws every permission
//! held on it. Every change runs in one write transaction and a refused
//! change leaves the store as it was.

use vstd::prelude::*;
use crate::domain::{Domain, EntityKind};
use crate::kernel::{WorkspaceServerKernel, add_all};
use crate::entity_ops::{opt_view, refusal};
use crate::members::same_user;
use crate::permissions::{Permission, UserRole};
use crate::seqs::{contains_str, holds_str, str_views, without_str};
use crate::strmap::StrMap;
use crate::text::concat;
use crate::store::{KernelError, admin_spec};
use crate::transaction::{WriteTransaction, members_with, members_without, same_but_members};
use crate::user::{MetaView, User, meta_view, perm_view};

verus! {

/// The permissions a user is granted on joining a domain of kind `k`.
pub open spec fn member_grants(k: EntityKind) -> Seq<Permission> {
    match k {
        EntityKind::Office => seq![Permission::ViewContent, Permission::EditMdx, Permission::EditOfficeConfig],
        EntityKind::Room => seq![Permission::ViewContent, Permission::EditMdx],
        EntityKind::Workspace => Seq::empty(),
    }
}

/// `new` is `old` with the record of `user` replaced by one with the same
/// id, name, role and metadata, holding the permissions `pv`.
pub open spec fn record_with_permissions(
    old: Map<Seq<char>, User>,
    new: Map<Seq<char>, User>,
    user: Seq<char>,
    pv: Map<Seq<char>, Set<Permission>>,
) -> bool {
    &&& new.dom() == old.dom()
    &&& forall|k: Seq<char>| k != user && #[trigger] old.contains_key(k) ==> new[k] == old[k]
    &&& new[user].id == old[user].id
    &&& new[user].name == old[user].name
    &&& new[user].role == old[user].role
    &&& meta_view(new[user].metadata@) == meta_view(old[user].metadata@)
    &&& perm_view(new[user].permissions@) == pv
}

/// `new` is `old` with `user` added to the member list of the entry under
/// `domain`, and nothing else changed.
pub open spec fn joined(
    old: Map<Seq<char>, Domain>,
    new: Map<Seq<char>, Domain>,
    domain: Seq<char>,
    user: Seq<char>,
) -> bool {
    &&& new.dom() == old.dom()
    &&& forall|k: Seq<char>| k != domain && #[trigger] old.contains_key(k) ==> new[k] == old[k]
    &&& same_but_members(old[domain], new[domain])
    &&& str_views(new[domain].members_view()) == members_with(old[domain], user)
}

/// `new` is `old` with `user` taken off the member list of the entry under
/// `domain`, and nothing else changed.
pub open spec fn left(
    old: Map<Seq<char>, Domain>,
    new: Map<Seq<char>, Domain>,
    domain: Seq<char>,
    user: Seq<char>,
) -> bool {
    &&& new.dom() == old.dom()
    &&& forall|k: Seq<char>| k != domain && #[trigger] old.contains_key(k) ==> new[k] == old[k]
    &&& same_but_members(old[domain], new[domain])
    &&& str_views(new[domain].members_view()) == members_without(old[domain], user)
}

/// `u` is a copy of one of the records of `users`.
pub open spec fn copies_a_user(users: Map<Seq<char>, User>, u: User) -> bool {
    exists|k: Seq<char>| #[trigger] users.contains_key(k) && same_user(u, users[k])
}

/// Some element of `v` is a copy of `u`.
pub open spec fn copied_in(v: Seq<User>, u: User) -> bool {
    exists|i: int| 0 <= i < v.len() && same_user(v[i], u)
}

/// The name a member added without a record is given: this prefix, then
/// their id.
pub const NEW_MEMBER_PREFIX: &'static str = "User ";

/// Whether `id` names an entry missing from `domains`.
pub open spec fn names_missing(domains: Map<Seq<char>, Domain>, id: Option<Seq<char>>) -> bool {
    match id {
        Some(i) => !domains.contains_key(i),
        None => false,
    }
}

/// `new` is `old` with `user` joined to the entry `id` names, when one is
/// named and is of kind `kind`; otherwise `new` is `old`.
pub open spec fn joined_if(
    old: Map<Seq<char>, Domain>,
    new: Map<Seq<char>, Domain>,
    id: Option<Seq<char>>,
    user: Seq<char>,
    kind: EntityKind,
) -> bool {
    match id {
        Some(i) => if old.contains_key(i) && old[i].kind() == kind {
            joined(old, new, i, user)
        } else {
            new == old
        },
        None => new == old,
    }
}

/// The permission table `pv` with the grants that membership of the entry
/// `id` names brings, when one is named.
pub open spec fn granted_if(
    pv: Map<Seq<char>, Set<Permission>>,
    domains: Map<Seq<char>, Domain>,
    id: Option<Seq<char>>,
) -> Map<Seq<char>, Set<Permission>> {
    match id {
        Some(i) => add_all(pv, i, member_grants(domains[i].kind())),
        None => pv,
    }
}

/// May `admin` add `user` to the office and the room named: only an
/// administrator may, the user's id must not be empty, and each domain named
/// must exist.
pub open spec fn add_member_check(
    domains: Map<Seq<char>, Domain>,
    users: Map<Seq<char>, User>,
    admin: Seq<char>,
    user: Seq<char>,
    office: Option<Seq<char>>,
    room: Option<Seq<char>>,
) -> Result<(), KernelError> {
    if !admin_spec(users, admin) {
        Err(KernelError::NotAdministrator)
    } else if user.len() == 0 {
        Err(KernelError::EmptyMemberId)
    } else if names_missing(domains, office) || names_missing(domains, room) {
        Err(KernelError::DomainNotFound)
    } else {
        Ok(())
    }
}

/// `new` is `old` with `user` taken off its member list when it is an office
/// or a room that lists them; otherwise `new` is `old`.
pub open spec fn cleaned(old: Domain, new: Domain, user: Seq<char>) -> bool {
    if (old is Office || old is Room) && old.has_member(user) {
        same_but_members(old, new) && str_views(new.members_view()) == members_without(old, user)
    } else {
        new == old
    }
}

/// The permissions granted on joining `d`.
fn member_grants_for(d: &Domain) -> (v: Vec<Permission>)
    ensures
        v@ == member_grants(d.kind()),
{
    let mut v: Vec<Permission> = Vec::new();
    match d {
        Domain::Office { .. } => {
            v.push(Permission::ViewContent);
            v.push(Permission::EditMdx);
            v.push(Permission::EditOfficeConfig);
        },
        Domain::Room { .. } => {
            v.push(Permission::ViewContent);
            v.push(Permission::EditMdx);
        },
        Domain::Workspace { .. } => {},
    }
    proof {
        assert(v@ =~= member_grants(d.kind()));
    }
    v
}

/// Grant `user_id` the permissions that membership of `domain_id` brings.
fn grant_domain_permissions_internal(tx: &mut WriteTransaction, user_id: &str, domain_id: &str) -> (r: Result<
    (),
    KernelError,
>)
    requires
        old(tx).restorable(),
    ensures
        final(tx).restorable(),
        final(tx).start_domains() == old(tx).start_domains(),
        final(tx).start_users() == old(tx).start_users(),
        final(tx).domains() == old(tx).domains(),
        !old(tx).domains().contains_key(domain_id@) ==> r == Err::<(), KernelError>(KernelError::DomainNotFound),
        old(tx).domains().contains_key(domain_id@) && !old(tx).users().contains_key(user_id@) ==> r == Err::<
            (),
            KernelError,
        >(KernelError::UserNotFound),
        r is Ok <==> old(tx).domains().contains_key(domain_id@) && old(tx).users().contains_key(user_id@),
        r is Err ==> final(tx).users() == old(tx).users(),
        r is Ok ==> record_with_permissions(
            old(tx).users(),
            final(tx).users(),
            user_id@,
            add_all(
                perm_view(old(tx).users()[user_id@].permissions@),
                domain_id@,
                member_grants(old(tx).domains()[domain_id@].kind()),
            ),
        ),
{
    let grants = match tx.store().get_domain(domain_id) {
        Some(d) => member_grants_for(d),
        None => {
            return Err(KernelError::DomainNotFound);
        },
    };
    let mut user = match tx.store().get_user(user_id) {
        Some(u) => u.clone(),
        None => {
            return Err(KernelError::UserNotFound);
        },
    };
    WorkspaceServerKernel::grant_each(&mut user, domain_id, grants.as_slice());
    let _ = tx.update_user(user_id, user);
    proof {
        assert(tx.users().dom() =~= old(tx).users().dom());
    }
    Ok(())
}

/// Withdraw every permission `user_id` holds on `domain_id`.
fn revoke_domain_permissions_internal(tx: &mut WriteTransaction, user_id: &str, domain_id: &str) -> (r: Result<
    (),
    KernelError,
>)
    requires
        old(tx).restorable(),
    ensures
        final(tx).restorable(),
        final(tx).start_domains() == old(tx).start_domains(),
        final(tx).start_users() == old(tx).start_users(),
        final(tx).domains() == old(tx).domains(),
        r is Ok <==> old(tx).users().contains_key(user_id@),
        r is Err ==> r == Err::<(), KernelError>(KernelError::UserNotFound),
        r is Err ==> final(tx).users() == old(tx).users(),
        r is Ok ==> record_with_permissions(
            old(tx).users(),
            final(tx).users(),
            user_id@,
            perm_view(old(tx).users()[user_id@].permissions@).remove(domain_id@),
        ),
{
    let mut user = match tx.store().get_user(user_id) {
        Some(u) => u.clone(),
        None => {
            return Err(KernelError::UserNotFound);
        },
    };
    user.clear_permissions(domain_id);
    let _ = tx.update_user(user_id, user);
    proof {
        assert(tx.users().dom() =~= old(tx).users().dom());
    }
    Ok(())
}

/// The keys of `m`, in its order.
fn key_list<V>(m: &StrMap<V>) -> (keys: Vec<String>)
    ensures
        str_views(keys@) == m.key_seq(),
        str_views(keys@).no_duplicates(),
        forall|k: Seq<char>| #[trigger] m@.contains_key(k) <==> str_views(keys@).contains(k),
{
    let n = m.len();
    let mut keys: Vec<String> = Vec::new();
    let mut i: usize = 0;
    while i < n
        invariant
            n == m.key_seq().len(),
            0 <= i <= n,
            keys@.len() == i,
            str_views(keys@) == m.key_seq().subrange(0, i as int),
        decreases n - i,
    {
        let k: String = m.key_at(i).clone();
        let ghost before = keys@;
        keys.push(k);
        proof {
            assert(keys@ == before.push(k));
            assert forall|j: int| 0 <= j < i + 1 implies #[trigger] str_views(keys@)[j] == m.key_seq().subrange(
                0,
                i + 1,
            )[j] by {
                assert(str_views(keys@)[j] == keys@[j]@);
                if j < i {
                    assert(keys@[j] == before[j]);
                    assert(str_views(before)[j] == before[j]@);
                    assert(str_views(before)[j] == m.key_seq().subrange(0, i as int)[j]);
                } else {
                    assert(keys@[j] == k);
                }
            }
            assert(str_views(keys@) =~= m.key_seq().subrange(0, i + 1));
        }
        i = i + 1;
    }
    proof {
        assert(m.key_seq().subrange(0, n as int) =~= m.key_seq());
    }
    keys
}

/// What setting the role of `user` to `new_role`, on behalf of `admin`,
/// does: refused unless `admin` administers and `user` has a record; else
/// that record takes the role, and nothing else changes.
pub open spec fn role_update_outcome(
    old_domains: Map<Seq<char>, Domain>,
    old_users: Map<Seq<char>, User>,
    new_domains: Map<Seq<char>, Domain>,
    new_users: Map<Seq<char>, User>,
    admin: Seq<char>,
    user: Seq<char>,
    new_role: UserRole,
    r: Result<(), KernelError>,
) -> bool {
    &&& (!admin_spec(old_users, admin) ==> r == Err::<(), KernelError>(
        KernelError::NotAdministrator,
    ))
    &&& (admin_spec(old_users, admin) && !old_users.contains_key(user) ==> r == Err::<
        (),
        KernelError,
    >(KernelError::UserNotFound))
    &&& (r is Ok <==> admin_spec(old_users, admin) && old_users.contains_key(user))
    &&& (r is Err ==> new_users == old_users)
    &&& (new_domains == old_domains)
    &&& (r is Ok ==> {
        let ou = old_users[user];
        let nu = new_users[user];
        &&& new_users.dom() == old_users.dom()
        &&& forall|k: Seq<char>|
            k != user && #[trigger] old_users.contains_key(k) ==> new_users[k]
                == old_users[k]
        &&& nu.role == new_role
        &&& nu.id == ou.id
        &&& nu.name == ou.name
        &&& perm_view(nu.permissions@) == perm_view(ou.permissions@)
        &&& meta_view(nu.metadata@) == meta_view(ou.metadata@)
    })
}

/// What adding `user` with `role`, on behalf of `admin`, to the office
/// and room named does: the refusal, changing nothing, or the record made or
/// given the role, joined to each named domain of the right kind, and
/// granted what that membership brings.
pub open spec fn add_member_outcome(
    old_domains: Map<Seq<char>, Domain>,
    old_users: Map<Seq<char>, User>,
    new_domains: Map<Seq<char>, Domain>,
    new_users: Map<Seq<char>, User>,
    admin: Seq<char>,
    user: Seq<char>,
    office: Option<Seq<char>>,
    room: Option<Seq<char>>,
    role: UserRole,
    r: Result<(), KernelError>,
) -> bool {
    &&& (add_member_check(
        old_domains,
        old_users,
        admin,
        user,
        office,
        room,
    ) is Err ==> r == Err::<(), KernelError>(
        refusal(
            add_member_check(
                old_domains,
                old_users,
                admin,
                user,
                office,
                room,
            ),
        ),
    ))
    &&& (r is Ok <==> add_member_check(
        old_domains,
        old_users,
        admin,
        user,
        office,
        room,
    ) is Ok)
    &&& (r is Err ==> new_domains == old_domains && new_users == old_users)
    &&& (r is Ok ==> {
        let ou = old_users;
        let nu = new_users;
        let existed = ou.contains_key(user);
        let base = if existed {
            perm_view(ou[user].permissions@)
        } else {
            Map::<Seq<char>, Set<Permission>>::empty()
        };
        &&& exists|mid: Map<Seq<char>, Domain>|
            joined_if(old_domains, mid, office, user, EntityKind::Office)
                && joined_if(mid, new_domains, room, user, EntityKind::Room)
        &&& nu.dom() == ou.dom().insert(user)
        &&& forall|k: Seq<char>| k != user && #[trigger] ou.contains_key(k) ==> nu[k] == ou[k]
        &&& nu[user].role == role
        &&& existed ==> nu[user].id == ou[user].id && nu[user].name == ou[user].name
            && meta_view(nu[user].metadata@) == meta_view(ou[user].metadata@)
        &&& !existed ==> nu[user].id@ == user && nu[user].name@ == NEW_MEMBER_PREFIX@ + user
            && meta_view(nu[user].metadata@) == Map::<Seq<char>, MetaView>::empty()
        &&& perm_view(nu[user].permissions@) == granted_if(
            granted_if(base, old_domains, office),
            old_domains,
            room,
        )
    })
}

impl WorkspaceServerKernel {
    /// Put the existing user `user_id` on the member list of `domain_id`,
    /// with the permissions membership brings.
    pub fn add_member_to_domain(&mut self, user_id: &str, domain_id: &str) -> (r: Result<(), KernelError>)
        ensures
            !old(self).users().contains_key(user_id@) ==> r == Err::<(), KernelError>(KernelError::UserNotFound),
            old(self).users().contains_key(user_id@) && !old(self).domains().contains_key(domain_id@) ==> r
                == Err::<(), KernelError>(KernelError::DomainNotFound),
            r is Ok <==> old(self).users().contains_key(user_id@) && old(self).domains().contains_key(domain_id@),
            r is Err ==> final(self).domains() == old(self).domains() && final(self).users() == old(self).users(),
            r is Ok ==> {
                &&& joined(old(self).domains(), final(self).domains(), domain_id@, user_id@)
                &&& record_with_permissions(
                    old(self).users(),
                    final(self).users(),
                    user_id@,
                    add_all(
                        perm_view(old(self).users()[user_id@].permissions@),
                        domain_id@,
                        member_grants(old(self).domains()[domain_id@].kind()),
                    ),
                )
            },
    {
        let mut tx = self.begin_write();
        if tx.store().get_user(user_id).is_none() {
            self.end_write(tx, false);
            return Err(KernelError::UserNotFound);
        }
        match tx.add_member(user_id, domain_id) {
            Ok(()) => {},
            Err(e) => {
                self.end_write(tx, false);
                return Err(e);
            },
        }
        let r = grant_domain_permissions_internal(&mut tx, user_id, domain_id);
        let keep = r.is_ok();
        self.end_write(tx, keep);
        r
    }

    /// Take the existing user `user_id` off the member list of `domain_id`,
    /// withdrawing every permission they held on it.
    pub fn remove_member_from_domain(&mut self, user_id: &str, domain_id: &str) -> (r: Result<(), KernelError>)
        ensures
            !old(self).domains().contains_key(domain_id@) ==> r == Err::<(), KernelError>(
                KernelError::DomainNotFound,
            ),
            old(self).domains().contains_key(domain_id@) && !old(self).users().contains_key(user_id@) ==> r
                == Err::<(), KernelError>(KernelError::UserNotFound),
            r is Ok <==> old(self).users().contains_key(user_id@) && old(self).domains().contains_key(domain_id@),
            r is Err ==> final(self).domains() == old(self).domains() && final(self).users() == old(self).users(),
            r is Ok ==> {
                &&& left(old(self).domains(), final(self).domains(), domain_id@, user_id@)
                &&& record_with_permissions(
                    old(self).users(),
                    final(self).users(),
                    user_id@,
                    perm_view(old(self).users()[user_id@].permissions@).remove(domain_id@),
                )
            },
    {
        let mut tx = self.begin_write();
        if tx.store().get_domain(domain_id).is_none() {
            self.end_write(tx, false);
            return Err(KernelError::DomainNotFound);
        }
        if tx.store().get_user(user_id).is_none() {
            self.end_write(tx, false);
            return Err(KernelError::UserNotFound);
        }
        let _ = tx.remove_user_from_domain(user_id, domain_id);
        let r = revoke_domain_permissions_internal(&mut tx, user_id, domain_id);
        let keep = r.is_ok();
        self.end_write(tx, keep);
        r
    }

    /// Give the member `user_id` the role `new_role`. Only administrators
    /// may.
    pub fn update_member_role(&mut self, admin_id: &str, user_id: &str, new_role: UserRole) -> (r: Result<
        (),
        KernelError,
    >)
        ensures
            role_update_outcome(old(self).domains(), old(self).users(), final(self).domains(), final(self).users(), admin_id@, user_id@, new_role, r),
    {
        self.set_user_role(admin_id, user_id, new_role)
    }

    /// Replace the permissions the member `user_id` holds on `domain_id`
    /// with `permissions`. Only administrators may.
    pub fn update_member_permissions(
        &mut self,
        admin_id: &str,
        user_id: &str,
        domain_id: &str,
        permissions: Vec<Permission>,
    ) -> (r: Result<(), KernelError>)
        ensures
            !admin_spec(old(self).users(), admin_id@) ==> r == Err::<(), KernelError>(
                KernelError::NotAdministrator,
            ),
            admin_spec(old(self).users(), admin_id@) && !old(self).users().contains_key(user_id@) ==> r == Err::<
                (),
                KernelError,
            >(KernelError::UserNotFound),
            r is Ok <==> admin_spec(old(self).users(), admin_id@) && old(self).users().contains_key(user_id@),
            r is Err ==> final(self).users() == old(self).users(),
            final(self).domains() == old(self).domains(),
            r is Ok ==> record_with_permissions(
                old(self).users(),
                final(self).users(),
                user_id@,
                add_all(perm_view(old(self).users()[user_id@].permissions@).remove(domain_id@), domain_id@, permissions@),
            ),
    {
        if !self.is_admin(admin_id) {
            return Err(KernelError::NotAdministrator);
        }
        let mut tx = self.begin_write();
        let mut user = match tx.store().get_user(user_id) {
            Some(u) => u.clone(),
            None => {
                self.end_write(tx, false);
                return Err(KernelError::UserNotFound);
            },
        };
        user.clear_permissions(domain_id);
        Self::grant_each(&mut user, domain_id, permissions.as_slice());
        let _ = tx.update_user(user_id, user);
        self.end_write(tx, true);
        proof {
            assert(self.users().dom() =~= old(self).users().dom());
        }
        Ok(())
    }

    /// A copy of the record of `user_id`, if there is one.
    pub fn get_member(&self, user_id: &str) -> (r: Option<User>)
        ensures
            r is Some <==> self.users().contains_key(user_id@),
            r matches Some(u) ==> same_user(u, self.users()[user_id@]),
    {
        self.get_user(user_id)
    }

    /// Copies of every user record, one for each user.
    pub fn get_all_members(&self) -> (r: Result<Vec<User>, KernelError>)
        ensures
            r matches Ok(v) && {
                &&& v@.len() == self.users().dom().len()
                &&& forall|i: int| 0 <= i < v@.len() ==> copies_a_user(self.users(), #[trigger] v@[i])
                &&& forall|k: Seq<char>| #[trigger] self.users().contains_key(k) ==> copied_in(v@, self.users()[k])
            },
    {
        let users = &self.store().users;
        let n = users.len();
        let mut v: Vec<User> = Vec::new();
        let mut i: usize = 0;
        while i < n
            invariant
                n == users.key_seq().len(),
                0 <= i <= n,
                users@ == self.users(),
                v@.len() == i,
                forall|k: Seq<char>| #[trigger] users@.contains_key(k) <==> users.key_seq().contains(k),
                forall|a: int| 0 <= a < i ==> same_user(#[trigger] v@[a], self.users()[users.key_seq()[a]]),
                forall|a: int| 0 <= a < i ==> self.users().contains_key(#[trigger] users.key_seq()[a]),
            decreases n - i,
        {
            let u = users.value_at(i);
            v.push(u.clone());
            i = i + 1;
        }
        proof {
            assert forall|a: int| 0 <= a < v@.len() implies copies_a_user(self.users(), #[trigger] v@[a]) by {
                let k = users.key_seq()[a];
                assert(self.users().contains_key(k));
            }
            assert forall|k: Seq<char>| #[trigger] self.users().contains_key(k) implies copied_in(
                v@,
                self.users()[k],
            ) by {
                let a = choose|a: int| 0 <= a < n && users.key_seq()[a] == k;
                assert(same_user(v@[a], self.users()[users.key_seq()[a]]));
            }
        }
        Ok(v)
    }

    /// Add `user_id` with `role`, on behalf of the administrator `admin_id`:
    /// a user without a record gets one, named after their id; an existing
    /// one takes the new role. The user joins the office named, if it is an
    /// office, and the room named, if it is a room, and is granted the
    /// permissions membership of each named domain brings.
    pub fn add_member(
        &mut self,
        admin_id: &str,
        user_id: &str,
        office_id: Option<&str>,
        room_id: Option<&str>,
        role: UserRole,
    ) -> (r: Result<(), KernelError>)
        ensures
            add_member_outcome(old(self).domains(), old(self).users(), final(self).domains(), final(self).users(), admin_id@, user_id@, opt_view(office_id), opt_view(room_id), role, r),
    {
        if !self.is_admin(admin_id) {
            return Err(KernelError::NotAdministrator);
        }
        if user_id.is_empty() {
            return Err(KernelError::EmptyMemberId);
        }
        let mut tx = self.begin_write();
        let existing = match tx.store().get_user(user_id) {
            Some(u) => Some(u.clone()),
            None => None,
        };
        let ghost wanted = role;
        match existing {
            None => {
                let name = concat(NEW_MEMBER_PREFIX, user_id);
                let user = User::new(user_id.to_owned(), name, role);
                proof {
                    assert(perm_view(user.permissions@) =~= Map::<Seq<char>, Set<Permission>>::empty());
                    assert(meta_view(user.metadata@) =~= Map::<Seq<char>, MetaView>::empty());
                }
                tx.insert_user(user_id.to_owned(), user);
            },
            Some(u) => {
                let User { id, name, role: _, permissions, metadata } = u;
                let updated = User { id, name, role, permissions, metadata };
                let _ = tx.update_user(user_id, updated);
            },
        }
        let ghost users1 = tx.users();
        let ghost d0 = tx.domains();
        match office_id {
            Some(o) => {
                let is_office = match tx.store().get_domain(o) {
                    Some(Domain::Office { .. }) => true,
                    _ => false,
                };
                if is_office {
                    let _ = tx.add_member(user_id, o);
                }
            },
            None => {},
        }
        let ghost mid = tx.domains();
        match room_id {
            Some(rid) => {
                let is_room = match tx.store().get_domain(rid) {
                    Some(Domain::Room { .. }) => true,
                    _ => false,
                };
                if is_room {
                    let _ = tx.add_member(user_id, rid);
                }
            },
            None => {},
        }
        let ghost d2 = tx.domains();
        proof {
            assert(joined_if(d0, mid, opt_view(office_id), user_id@, EntityKind::Office));
            assert(joined_if(mid, d2, opt_view(room_id), user_id@, EntityKind::Room));
        }
        match office_id {
            Some(o) => match grant_domain_permissions_internal(&mut tx, user_id, o) {
                Ok(()) => {},
                Err(e) => {
                    self.end_write(tx, false);
                    return Err(e);
                },
            },
            None => {},
        }
        let ghost users2 = tx.users();
        match room_id {
            Some(rid) => match grant_domain_permissions_internal(&mut tx, user_id, rid) {
                Ok(()) => {},
                Err(e) => {
                    self.end_write(tx, false);
                    return Err(e);
                },
            },
            None => {},
        }
        let ghost users3 = tx.users();
        self.end_write(tx, true);
        proof {
            assert(self.users().dom() =~= old(self).users().dom().insert(user_id@));
            assert forall|k: Seq<char>| k != user_id@ && #[trigger] old(self).users().contains_key(k) implies self.users()[k]
                == old(self).users()[k] by {
                assert(users1.contains_key(k) && users1[k] == old(self).users()[k]);
                assert(users2.contains_key(k) && users2[k] == users1[k]);
                assert(users3[k] == users2[k]);
            }
        }
        Ok(())
    }

    /// Take `user_id` off the member list of every office and room that
    /// lists them, and delete their record.
    pub fn remove_member(&mut self, user_id: &str) -> (r: Result<(), KernelError>)
        ensures
            r is Ok,
            final(self).users() == old(self).users().remove(user_id@),
            final(self).domains().dom() == old(self).domains().dom(),
            forall|k: Seq<char>|
                #[trigger] old(self).domains().contains_key(k) ==> cleaned(
                    old(self).domains()[k],
                    final(self).domains()[k],
                    user_id@,
                ),
    {
        let mut tx = self.begin_write();
        let keys = key_list(&tx.store().domains);
        let ghost d0 = tx.domains();
        let mut i: usize = 0;
        while i < keys.len()
            invariant
                0 <= i <= keys@.len(),
                tx.restorable(),
                tx.users() == old(self).users(),
                d0 == old(self).domains(),
                tx.domains().dom() == d0.dom(),
                str_views(keys@).no_duplicates(),
                forall|k: Seq<char>| #[trigger] d0.contains_key(k) <==> str_views(keys@).contains(k),
                forall|j: int|
                    0 <= j < keys@.len() ==> (j < i ==> cleaned(
                        d0[#[trigger] keys@[j]@],
                        tx.domains()[keys@[j]@],
                        user_id@,
                    )) && (j >= i ==> tx.domains()[keys@[j]@] == d0[keys@[j]@]),
            decreases keys@.len() - i,
        {
            let ghost before = tx.domains();
            let ghost key = keys@[i as int]@;
            proof {
                assert(str_views(keys@)[i as int] == key);
                assert(d0.contains_key(key));
            }
            let listed = match tx.store().get_domain(keys[i].as_str()) {
                Some(Domain::Office { office }) => contains_str(&office.members, user_id),
                Some(Domain::Room { room }) => contains_str(&room.members, user_id),
                _ => false,
            };
            if listed {
                let _ = tx.remove_user_from_domain(user_id, keys[i].as_str());
            }
            proof {
                assert forall|j: int|
                    0 <= j < keys@.len() implies (j < i + 1 ==> cleaned(
                        d0[#[trigger] keys@[j]@],
                        tx.domains()[keys@[j]@],
                        user_id@,
                    )) && (j >= i + 1 ==> tx.domains()[keys@[j]@] == d0[keys@[j]@]) by {
                    if j != i {
                        assert(str_views(keys@)[j] == keys@[j]@);
                        assert(str_views(keys@).contains(keys@[j]@));
                        assert(before.contains_key(keys@[j]@));
                        assert(keys@[j]@ != key);
                        assert(tx.domains()[keys@[j]@] == before[keys@[j]@]);
                    } else {
                        assert(keys@[j]@ == key);
                        assert(before[key] == d0[key]);
                        if listed {
                            assert(cleaned(d0[key], tx.domains()[key], user_id@));
                        } else {
                            assert(tx.domains() == before);
                            assert(cleaned(d0[key], tx.domains()[key], user_id@));
                        }
                    }
                }
            }
            i = i + 1;
        }
        let _ = tx.remove_user(user_id);
        self.end_write(tx, true);
        proof {
            assert forall|k: Seq<char>| #[trigger] old(self).domains().contains_key(k) implies cleaned(
                old(self).domains()[k],
                self.domains()[k],
                user_id@,
            ) by {
                let j = choose|j: int| 0 <= j < keys@.len() && str_views(keys@)[j] == k;
                assert(str_views(keys@)[j] == keys@[j]@);
            }
        }
        Ok(())
    }
}


/// Removing `s` from lists with the same strings gives lists with the same
/// strings.
proof fn lemma_without_same_views(v: Seq<String>, w: Seq<String>, s: Seq<char>)
    requires
        str_views(v) == str_views(w),
    ensures
        str_views(without_str(v, s)) == str_views(without_str(w, s)),
    decreases v.len(),
{
    assert(v.len() == str_views(v).len());
    assert(w.len() == str_views(w).len());
    if v.len() > 0 {
        assert(str_views(v.drop_last()) =~= str_views(w.drop_last())) by {
            assert forall|i: int| 0 <= i < v.len() - 1 implies #[trigger] str_views(v.drop_last())[i]
                == str_views(w.drop_last())[i] by {
                assert(str_views(v)[i] == str_views(w)[i]);
            }
        }
        lemma_without_same_views(v.drop_last(), w.drop_last(), s);
        assert(str_views(v)[v.len() - 1] == str_views(w)[w.len() - 1]);
        assert(v.last()@ == w.last()@);
        if v.last()@ != s {
            let a = without_str(v.drop_last(), s);
            let b = without_str(w.drop_last(), s);
            assert(str_views(a.push(v.last())) =~= str_views(a).push(v.last()@));
            assert(str_views(b.push(w.last())) =~= str_views(b).push(w.last()@));
        }
    }
}

/// Removing a string no string of `v` equals leaves `v` as it is.
proof fn lemma_without_absent(v: Seq<String>, s: Seq<char>)
    requires
        !holds_str(v, s),
    ensures
        without_str(v, s) == v,
    decreases v.len(),
{
    if v.len() > 0 {
        assert(!holds_str(v.drop_last(), s)) by {
            if holds_str(v.drop_last(), s) {
                let i = choose|i: int| 0 <= i < v.drop_last().len() && v.drop_last()[i]@ == s;
                assert(v[i] == v.drop_last()[i]);
            }
        }
        lemma_without_absent(v.drop_last(), s);
        assert(v[v.len() - 1] == v.last());
        assert(v.drop_last().push(v.last()) =~= v);
    }
}

/// Leaving a domain undoes joining it: a user who was not on the member
/// list of `domain`, joins it and then leaves it, finds the list holding
/// the same ids as before, and the table otherwise unchanged.
pub proof fn law_leaving_undoes_joining(
    d0: Map<Seq<char>, Domain>,
    d1: Map<Seq<char>, Domain>,
    d2: Map<Seq<char>, Domain>,
    domain: Seq<char>,
    user: Seq<char>,
)
    requires
        d0.contains_key(domain),
        !d0[domain].has_member(user),
        joined(d0, d1, domain, user),
        left(d1, d2, domain, user),
    ensures
        d2.dom() == d0.dom(),
        forall|k: Seq<char>| k != domain && #[trigger] d0.contains_key(k) ==> d2[k] == d0[k],
        same_but_members(d0[domain], d2[domain]),
        str_views(d2[domain].members_view()) == str_views(d0[domain].members_view()),
{
    let m0 = d0[domain].members_view();
    let m1 = d1[domain].members_view();
    assert(str_views(m1) == str_views(m0).push(user));
    assert(m1.len() == m0.len() + 1) by {
        assert(str_views(m1).len() == m1.len());
        assert(str_views(m0).len() == m0.len());
    }
    assert(m1.last()@ == user) by {
        assert(str_views(m1)[m1.len() - 1] == user);
    }
    assert(without_str(m1, user) == without_str(m1.drop_last(), user));
    assert(str_views(m1.drop_last()) =~= str_views(m0)) by {
        assert forall|i: int| 0 <= i < m0.len() implies #[trigger] str_views(m1.drop_last())[i] == str_views(m0)[i] by {
            assert(str_views(m1)[i] == str_views(m0).push(user)[i]);
        }
    }
    lemma_without_same_views(m1.drop_last(), m0, user);
    lemma_without_absent(m0, user);
}

/// Joining twice is joining once: a user already on the member list of
/// `domain` after joining it finds the list unchanged by joining again.
pub proof fn law_joining_twice_is_joining_once(
    d0: Map<Seq<char>, Domain>,
    d1: Map<Seq<char>, Domain>,
    d2: Map<Seq<char>, Domain>,
    domain: Seq<char>,
    user: Seq<char>,
)
    requires
        d0.contains_key(domain),
        joined(d0, d1, domain, user),
        joined(d1, d2, domain, user),
    ensures
        str_views(d2[domain].members_view()) == str_views(d1[domain].members_view()),
        d1[domain].has_member(user),
{
    let m1 = d1[domain].members_view();
    let m0 = d0[domain].members_view();
    assert(str_views(m1).len() == m1.len());
    assert(str_views(m0).len() == m0.len());
    if d0[domain].has_member(user) {
        let i = choose|i: int| 0 <= i < d0[domain].members_view().len() && d0[domain].members_view()[i]@ == user;
        assert(str_views(d0[domain].members_view())[i] == user);
        assert(str_views(m1)[i] == user);
        assert(m1[i]@ == user);
    } else {
        let n = d0[domain].members_view().len();
        assert(str_views(m1)[n as int] == user);
        assert(m1[n as int]@ == user);
    }
}

} // verus!
