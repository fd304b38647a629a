//! Write transactions over the store, with rollback.
//!
//! Every change a write transaction makes is recorded with what it replaced:
//! an insert of a new key by the key, an insert over an existing key, an
//! update or a removal by the value it displaced. Rolling back undoes the
//! record from the newest change to the oldest. A new transaction is
//! restorable and every operation keeps it so, so whatever sequence of
//! changes was made, a rollback gives back exactly the store the transaction
//! started from.

use vstd::prelude::*;
use crate::domain::{Domain, Office, Room, Workspace};
use crate::permissions::UserRole;
use crate::seqs::{contains_str, remove_all_str, str_views, without_str};
use crate::store::{KernelError, Store};
use crate::user::{User, meta_view, perm_view};

verus! {

/// A change to the domain table, with what undoes it.
pub enum DomainChange {
    Insert(String),
    Update(String, Domain),
    Remove(String, Domain),
}

/// A change to the user table, with what undoes it.
pub enum UserChange {
    Insert(String),
    Update(String, User),
    Remove(String, User),
}

/// The domain table with one change undone.
pub open spec fn undo_domain(m: Map<Seq<char>, Domain>, c: DomainChange) -> Map<Seq<char>, Domain> {
    match c {
        DomainChange::Insert(id) => m.remove(id@),
        DomainChange::Update(id, d) => m.insert(id@, d),
        DomainChange::Remove(id, d) => m.insert(id@, d),
    }
}

/// The domain table with a record of changes undone, newest first.
pub open spec fn undo_domains(m: Map<Seq<char>, Domain>, log: Seq<DomainChange>) -> Map<Seq<char>, Domain>
    decreases log.len(),
{
    if log.len() == 0 {
        m
    } else {
        undo_domains(undo_domain(m, log.last()), log.drop_last())
    }
}

/// The user table with one change undone.
pub open spec fn undo_user(m: Map<Seq<char>, User>, c: UserChange) -> Map<Seq<char>, User> {
    match c {
        UserChange::Insert(id) => m.remove(id@),
        UserChange::Update(id, u) => m.insert(id@, u),
        UserChange::Remove(id, u) => m.insert(id@, u),
    }
}

/// The user table with a record of changes undone, newest first.
pub open spec fn undo_users(m: Map<Seq<char>, User>, log: Seq<UserChange>) -> Map<Seq<char>, User>
    decreases log.len(),
{
    if log.len() == 0 {
        m
    } else {
        undo_users(undo_user(m, log.last()), log.drop_last())
    }
}

/// `new` is `old` with nothing changed but, possibly, its member list.
pub open spec fn same_but_members(old: Domain, new: Domain) -> bool {
    match (old, new) {
        (Domain::Workspace { workspace: a }, Domain::Workspace { workspace: b }) => a.id == b.id && a.name
            == b.name && a.description == b.description && a.owner_id == b.owner_id && a.offices@
            == b.offices@ && a.metadata@ == b.metadata@,
        (Domain::Office { office: a }, Domain::Office { office: b }) => a.id == b.id && a.name == b.name
            && a.description == b.description && a.owner_id == b.owner_id && a.rooms@ == b.rooms@
            && a.mdx_content == b.mdx_content,
        (Domain::Room { room: a }, Domain::Room { room: b }) => a.id == b.id && a.name == b.name
            && a.description == b.description && a.owner_id == b.owner_id && a.office_id == b.office_id
            && a.mdx_content == b.mdx_content,
        _ => false,
    }
}

/// The member list of `d` with `user` added at the end, unless present.
pub open spec fn members_with(d: Domain, user: Seq<char>) -> Seq<Seq<char>> {
    if d.has_member(user) {
        str_views(d.members_view())
    } else {
        str_views(d.members_view()).push(user)
    }
}

/// The member list of `d` without `user`.
pub open spec fn members_without(d: Domain, user: Seq<char>) -> Seq<Seq<char>> {
    str_views(without_str(d.members_view(), user))
}

/// `d` with its member list replaced.
fn with_members(d: Domain, members: Vec<String>) -> (r: Domain)
    ensures
        same_but_members(d, r),
        r.members_view() == members@,
{
    match d {
        Domain::Workspace { workspace } => {
            let Workspace { id, name, description, owner_id, members: _, offices, metadata } = workspace;
            Domain::Workspace { workspace: Workspace { id, name, description, owner_id, members, offices, metadata } }
        },
        Domain::Office { office } => {
            let Office { id, name, description, owner_id, members: _, rooms, mdx_content } = office;
            Domain::Office { office: Office { id, name, description, owner_id, members, rooms, mdx_content } }
        },
        Domain::Room { room } => {
            let Room { id, name, description, owner_id, office_id, members: _, mdx_content } = room;
            Domain::Room { room: Room { id, name, description, owner_id, office_id, members, mdx_content } }
        },
    }
}

/// A transaction that may change the store and can be rolled back.
pub struct WriteTransaction {
    store: Store,
    domain_changes: Vec<DomainChange>,
    user_changes: Vec<UserChange>,
    start_domains: Ghost<Map<Seq<char>, Domain>>,
    start_users: Ghost<Map<Seq<char>, User>>,
}

impl WriteTransaction {
    /// The domain table as the transaction has it now.
    pub closed spec fn domains(&self) -> Map<Seq<char>, Domain> {
        self.store.domains@
    }

    /// The user table as the transaction has it now.
    pub closed spec fn users(&self) -> Map<Seq<char>, User> {
        self.store.users@
    }

    /// The domain table the transaction started from.
    pub closed spec fn start_domains(&self) -> Map<Seq<char>, Domain> {
        self.start_domains@
    }

    /// The user table the transaction started from.
    pub closed spec fn start_users(&self) -> Map<Seq<char>, User> {
        self.start_users@
    }

    /// Undoing the recorded changes gives back the starting tables.
    pub closed spec fn restorable(&self) -> bool {
        &&& undo_domains(self.store.domains@, self.domain_changes@) == self.start_domains@
        &&& undo_users(self.store.users@, self.user_changes@) == self.start_users@
    }

    /// Begin a transaction on `store`.
    pub fn new(store: Store) -> (tx: WriteTransaction)
        ensures
            tx.domains() == store.domains@,
            tx.users() == store.users@,
            tx.start_domains() == store.domains@,
            tx.start_users() == store.users@,
            tx.restorable(),
    {
        let ghost d = store.domains@;
        let ghost u = store.users@;
        WriteTransaction {
            store,
            domain_changes: Vec::new(),
            user_changes: Vec::new(),
            start_domains: Ghost(d),
            start_users: Ghost(u),
        }
    }

    /// The store as the transaction has it now, for reading.
    pub fn store(&self) -> (s: &Store)
        ensures
            s.domains@ == self.domains(),
            s.users@ == self.users(),
    {
        &self.store
    }

    /// Put `domain` under `domain_id`, recording the entry it replaces, if
    /// any, so that a rollback puts it back.
    pub fn insert_domain(&mut self, domain_id: String, domain: Domain)
        ensures
            final(self).domains() == old(self).domains().insert(domain_id@, domain),
            final(self).users() == old(self).users(),
            final(self).start_domains() == old(self).start_domains(),
            final(self).start_users() == old(self).start_users(),
            old(self).restorable() ==> final(self).restorable(),
    {
        let ghost m = self.store.domains@;
        let ghost log = self.domain_changes@;
        let key = domain_id.clone();
        match self.store.domains.insert(domain_id, domain) {
            Some(previous) => {
                self.domain_changes.push(DomainChange::Update(key, previous));
                proof {
                    assert(self.domain_changes@.drop_last() =~= log);
                    assert(self.store.domains@.insert(key@, m[key@]) =~= m);
                }
            },
            None => {
                self.domain_changes.push(DomainChange::Insert(key));
                proof {
                    assert(self.domain_changes@.drop_last() =~= log);
                    assert(self.store.domains@.remove(key@) =~= m);
                }
            },
        }
    }

    /// Put `user` under `user_id`, recording the record it replaces, if any,
    /// so that a rollback puts it back.
    pub fn insert_user(&mut self, user_id: String, user: User)
        ensures
            final(self).users() == old(self).users().insert(user_id@, user),
            final(self).domains() == old(self).domains(),
            final(self).start_domains() == old(self).start_domains(),
            final(self).start_users() == old(self).start_users(),
            old(self).restorable() ==> final(self).restorable(),
    {
        let ghost m = self.store.users@;
        let ghost log = self.user_changes@;
        let key = user_id.clone();
        match self.store.users.insert(user_id, user) {
            Some(previous) => {
                self.user_changes.push(UserChange::Update(key, previous));
                proof {
                    assert(self.user_changes@.drop_last() =~= log);
                    assert(self.store.users@.insert(key@, m[key@]) =~= m);
                }
            },
            None => {
                self.user_changes.push(UserChange::Insert(key));
                proof {
                    assert(self.user_changes@.drop_last() =~= log);
                    assert(self.store.users@.remove(key@) =~= m);
                }
            },
        }
    }

    /// Replace the existing domain `domain_id` with `domain`.
    pub fn update_domain(&mut self, domain_id: &str, domain: Domain) -> (r: Result<(), KernelError>)
        ensures
            r is Ok <==> old(self).domains().contains_key(domain_id@),
            r is Err ==> r == Err::<(), KernelError>(KernelError::DomainNotFound),
            r is Ok ==> final(self).domains() == old(self).domains().insert(domain_id@, domain),
            r is Err ==> final(self).domains() == old(self).domains(),
            final(self).users() == old(self).users(),
            final(self).start_domains() == old(self).start_domains(),
            final(self).start_users() == old(self).start_users(),
            old(self).restorable() ==> final(self).restorable(),
    {
        if !self.store.domains.contains_key(domain_id) {
            return Err(KernelError::DomainNotFound);
        }
        let ghost m = self.store.domains@;
        let ghost log = self.domain_changes@;
        let replaced = self.store.domains.insert(domain_id.to_owned(), domain);
        match replaced {
            Some(previous) => {
                self.domain_changes.push(DomainChange::Update(domain_id.to_owned(), previous));
                proof {
                    assert(self.domain_changes@.drop_last() =~= log);
                    assert(self.store.domains@.insert(domain_id@, m[domain_id@]) =~= m);
                }
            },
            None => {},
        }
        Ok(())
    }

    /// Replace the existing user `user_id` with `user`.
    pub fn update_user(&mut self, user_id: &str, user: User) -> (r: Result<(), KernelError>)
        ensures
            r is Ok <==> old(self).users().contains_key(user_id@),
            r is Err ==> r == Err::<(), KernelError>(KernelError::UserNotFound),
            r is Ok ==> final(self).users() == old(self).users().insert(user_id@, user),
            r is Err ==> final(self).users() == old(self).users(),
            final(self).domains() == old(self).domains(),
            final(self).start_domains() == old(self).start_domains(),
            final(self).start_users() == old(self).start_users(),
            old(self).restorable() ==> final(self).restorable(),
    {
        if !self.store.users.contains_key(user_id) {
            return Err(KernelError::UserNotFound);
        }
        let ghost m = self.store.users@;
        let ghost log = self.user_changes@;
        let replaced = self.store.users.insert(user_id.to_owned(), user);
        match replaced {
            Some(previous) => {
                self.user_changes.push(UserChange::Update(user_id.to_owned(), previous));
                proof {
                    assert(self.user_changes@.drop_last() =~= log);
                    assert(self.store.users@.insert(user_id@, m[user_id@]) =~= m);
                }
            },
            None => {},
        }
        Ok(())
    }

    /// Remove the domain `domain_id`, returning a copy of it. A missing
    /// domain is not an error.
    pub fn remove_domain(&mut self, domain_id: &str) -> (r: Option<Domain>)
        ensures
            final(self).domains() == old(self).domains().remove(domain_id@),
            r is Some <==> old(self).domains().contains_key(domain_id@),
            r matches Some(d) ==> d.same_as(old(self).domains()[domain_id@]),
            final(self).users() == old(self).users(),
            final(self).start_domains() == old(self).start_domains(),
            final(self).start_users() == old(self).start_users(),
            old(self).restorable() ==> final(self).restorable(),
    {
        let ghost m = self.store.domains@;
        let ghost log = self.domain_changes@;
        match self.store.domains.remove(domain_id) {
            Some(removed) => {
                let copy = removed.clone();
                self.domain_changes.push(DomainChange::Remove(domain_id.to_owned(), removed));
                proof {
                    assert(self.domain_changes@.drop_last() =~= log);
                    assert(self.store.domains@.insert(domain_id@, m[domain_id@]) =~= m);
                }
                Some(copy)
            },
            None => {
                proof {
                    assert(self.store.domains@ =~= m);
                }
                None
            },
        }
    }

    /// Remove the user `user_id`, returning a copy of the record. A missing
    /// user is not an error.
    pub fn remove_user(&mut self, user_id: &str) -> (r: Option<User>)
        ensures
            final(self).users() == old(self).users().remove(user_id@),
            r is Some <==> old(self).users().contains_key(user_id@),
            r matches Some(u) ==> {
                let o = old(self).users()[user_id@];
                &&& u.id == o.id
                &&& u.name == o.name
                &&& u.role == o.role
                &&& perm_view(u.permissions@) == perm_view(o.permissions@)
                &&& meta_view(u.metadata@) == meta_view(o.metadata@)
            },
            final(self).domains() == old(self).domains(),
            final(self).start_domains() == old(self).start_domains(),
            final(self).start_users() == old(self).start_users(),
            old(self).restorable() ==> final(self).restorable(),
    {
        let ghost m = self.store.users@;
        let ghost log = self.user_changes@;
        match self.store.users.remove(user_id) {
            Some(removed) => {
                let copy = removed.clone();
                self.user_changes.push(UserChange::Remove(user_id.to_owned(), removed));
                proof {
                    assert(self.user_changes@.drop_last() =~= log);
                    assert(self.store.users@.insert(user_id@, m[user_id@]) =~= m);
                }
                Some(copy)
            },
            None => {
                proof {
                    assert(self.store.users@ =~= m);
                }
                None
            },
        }
    }

    /// Add `user_id` to the member list of `domain_id`, giving the user
    /// `role` if their role differs. The domain is looked up first, then the
    /// user; nothing changes when either is missing.
    pub fn add_user_to_domain(&mut self, user_id: &str, domain_id: &str, role: UserRole) -> (r: Result<
        (),
        KernelError,
    >)
        ensures
            !old(self).domains().contains_key(domain_id@) ==> r == Err::<(), KernelError>(
                KernelError::DomainNotFound,
            ),
            old(self).domains().contains_key(domain_id@) && !old(self).users().contains_key(user_id@) ==> r
                == Err::<(), KernelError>(KernelError::UserNotFound),
            old(self).domains().contains_key(domain_id@) && old(self).users().contains_key(user_id@) ==> r
                is Ok,
            r is Err ==> final(self).domains() == old(self).domains() && final(self).users() == old(
                self,
            ).users(),
            r is Ok ==> {
                let od = old(self).domains()[domain_id@];
                let nd = final(self).domains()[domain_id@];
                &&& final(self).domains().dom() == old(self).domains().dom()
                &&& forall|k: Seq<char>|
                    k != domain_id@ && #[trigger] old(self).domains().contains_key(k) ==> final(self).domains()[k]
                        == old(self).domains()[k]
                &&& same_but_members(od, nd)
                &&& str_views(nd.members_view()) == members_with(od, user_id@)
            },
            r is Ok ==> {
                let ou = old(self).users()[user_id@];
                &&& final(self).users().dom() == old(self).users().dom()
                &&& forall|k: Seq<char>|
                    k != user_id@ && #[trigger] old(self).users().contains_key(k) ==> final(self).users()[k]
                        == old(self).users()[k]
                &&& (ou.role.same_as(&role) ==> final(self).users()[user_id@] == ou)
                &&& (!ou.role.same_as(&role) ==> {
                    let nu = final(self).users()[user_id@];
                    &&& nu.role == role
                    &&& nu.id == ou.id
                    &&& nu.name == ou.name
                    &&& perm_view(nu.permissions@) == perm_view(ou.permissions@)
                    &&& meta_view(nu.metadata@) == meta_view(ou.metadata@)
                })
            },
            final(self).start_domains() == old(self).start_domains(),
            final(self).start_users() == old(self).start_users(),
            old(self).restorable() ==> final(self).restorable(),
    {
        let domain = match self.store.domains.get(domain_id) {
            Some(d) => d.clone(),
            None => {
                return Err(KernelError::DomainNotFound);
            },
        };
        let user = match self.store.users.get(user_id) {
            Some(u) => u.clone(),
            None => {
                return Err(KernelError::UserNotFound);
            },
        };
        if !user.role.equals(&role) {
            let User { id, name, role: _, permissions, metadata } = user;
            let updated = User { id, name, role, permissions, metadata };
            let _ = self.update_user(user_id, updated);
        }
        let mut members = crate::seqs::copy_strings(domain.members());
        if !contains_str(&members, user_id) {
            members.push(user_id.to_owned());
        }
        let ghost od = self.store.domains@[domain_id@];
        let ghost before = self.store.users@;
        let updated_domain = with_members(domain, members);
        proof {
            assert(str_views(updated_domain.members_view()) =~= members_with(od, user_id@));
        }
        let r = self.update_domain(domain_id, updated_domain);
        proof {
            assert(self.store.domains@.dom() =~= old(self).store.domains@.dom());
            assert(self.store.users@.dom() =~= old(self).store.users@.dom());
        }
        r
    }

    /// Remove `user_id` from the member list of `domain_id`.
    pub fn remove_user_from_domain(&mut self, user_id: &str, domain_id: &str) -> (r: Result<(), KernelError>)
        ensures
            r is Ok <==> old(self).domains().contains_key(domain_id@),
            r is Err ==> r == Err::<(), KernelError>(KernelError::DomainNotFound),
            r is Err ==> final(self).domains() == old(self).domains(),
            r is Ok ==> {
                let od = old(self).domains()[domain_id@];
                let nd = final(self).domains()[domain_id@];
                &&& final(self).domains().dom() == old(self).domains().dom()
                &&& forall|k: Seq<char>|
                    k != domain_id@ && #[trigger] old(self).domains().contains_key(k) ==> final(self).domains()[k]
                        == old(self).domains()[k]
                &&& same_but_members(od, nd)
                &&& str_views(nd.members_view()) == members_without(od, user_id@)
            },
            final(self).users() == old(self).users(),
            final(self).start_domains() == old(self).start_domains(),
            final(self).start_users() == old(self).start_users(),
            old(self).restorable() ==> final(self).restorable(),
    {
        let domain = match self.store.domains.get(domain_id) {
            Some(d) => d.clone(),
            None => {
                return Err(KernelError::DomainNotFound);
            },
        };
        let members = remove_all_str(domain.members(), user_id);
        let ghost od = self.store.domains@[domain_id@];
        let updated_domain = with_members(domain, members);
        let r = self.update_domain(domain_id, updated_domain);
        proof {
            assert(self.store.domains@.dom() =~= old(self).store.domains@.dom());
        }
        r
    }

    /// Add `user_id` to the member list of `domain_id`, unless already there.
    pub fn add_member(&mut self, user_id: &str, domain_id: &str) -> (r: Result<(), KernelError>)
        ensures
            r is Ok <==> old(self).domains().contains_key(domain_id@),
            r is Err ==> r == Err::<(), KernelError>(KernelError::DomainNotFound),
            r is Err ==> final(self).domains() == old(self).domains(),
            r is Ok ==> {
                let od = old(self).domains()[domain_id@];
                let nd = final(self).domains()[domain_id@];
                &&& final(self).domains().dom() == old(self).domains().dom()
                &&& forall|k: Seq<char>|
                    k != domain_id@ && #[trigger] old(self).domains().contains_key(k) ==> final(self).domains()[k]
                        == old(self).domains()[k]
                &&& same_but_members(od, nd)
                &&& str_views(nd.members_view()) == members_with(od, user_id@)
            },
            final(self).users() == old(self).users(),
            final(self).start_domains() == old(self).start_domains(),
            final(self).start_users() == old(self).start_users(),
            old(self).restorable() ==> final(self).restorable(),
    {
        let domain = match self.store.domains.get(domain_id) {
            Some(d) => d.clone(),
            None => {
                return Err(KernelError::DomainNotFound);
            },
        };
        let mut members = crate::seqs::copy_strings(domain.members());
        if !contains_str(&members, user_id) {
            members.push(user_id.to_owned());
        }
        let ghost od = self.store.domains@[domain_id@];
        let updated_domain = with_members(domain, members);
        proof {
            assert(str_views(updated_domain.members_view()) =~= members_with(od, user_id@));
        }
        let r = self.update_domain(domain_id, updated_domain);
        proof {
            assert(self.store.domains@.dom() =~= old(self).store.domains@.dom());
        }
        r
    }

    /// End the transaction keeping its changes.
    pub fn commit(self) -> (s: Store)
        ensures
            s.domains@ == self.domains(),
            s.users@ == self.users(),
    {
        self.store
    }

    /// End the transaction undoing its changes, newest first: this gives back
    /// exactly the store it started from.
    pub fn rollback(self) -> (s: Store)
        requires
            self.restorable(),
        ensures
            s.domains@ == self.start_domains(),
            s.users@ == self.start_users(),
    {
        let WriteTransaction { store, domain_changes, user_changes, start_domains, start_users } = self;
        let mut store = store;
        let mut domain_changes = domain_changes;
        let mut user_changes = user_changes;
        let ghost target_domains = undo_domains(store.domains@, domain_changes@);
        let ghost target_users = undo_users(store.users@, user_changes@);
        while domain_changes.len() > 0
            invariant
                undo_domains(store.domains@, domain_changes@) == target_domains,
                undo_users(store.users@, user_changes@) == target_users,
            decreases domain_changes@.len(),
        {
            let ghost before = domain_changes@;
            let change = domain_changes.pop().unwrap();
            proof {
                assert(domain_changes@ =~= before.drop_last());
            }
            match change {
                DomainChange::Insert(id) => {
                    store.domains.remove(id.as_str());
                },
                DomainChange::Update(id, d) => {
                    store.domains.insert(id, d);
                },
                DomainChange::Remove(id, d) => {
                    store.domains.insert(id, d);
                },
            }
        }
        while user_changes.len() > 0
            invariant
                domain_changes@.len() == 0,
                undo_domains(store.domains@, domain_changes@) == target_domains,
                undo_users(store.users@, user_changes@) == target_users,
            decreases user_changes@.len(),
        {
            let ghost before = user_changes@;
            let change = user_changes.pop().unwrap();
            proof {
                assert(user_changes@ =~= before.drop_last());
            }
            match change {
                UserChange::Insert(id) => {
                    store.users.remove(id.as_str());
                },
                UserChange::Update(id, u) => {
                    store.users.insert(id, u);
                },
                UserChange::Remove(id, u) => {
                    store.users.insert(id, u);
                },
            }
        }
        store
    }
}

} // verus!
