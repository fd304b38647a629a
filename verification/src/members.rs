//! Listing the members of an office or a room, and routing member changes
//! to the domain they name.

use vstd::prelude::*;
use crate::domain::Domain;
use crate::entity_ops::opt_view;
use crate::kernel::{WorkspaceServerKernel, add_user_outcome, remove_user_outcome};
use crate::permissions::UserRole;
use crate::store::{KernelError, role_check_spec};
use crate::tree::WORKSPACE_ROOT_ID;
use crate::user::{User, meta_view, perm_view};

verus! {

/// The ids on `ids` that have a user record, in order.
pub open spec fn recorded(users: Map<Seq<char>, User>, ids: Seq<String>) -> Seq<Seq<char>>
    decreases ids.len(),
{
    if ids.len() == 0 {
        Seq::empty()
    } else {
        let rest = recorded(users, ids.drop_last());
        if users.contains_key(ids.last()@) {
            rest.push(ids.last()@)
        } else {
            rest
        }
    }
}

/// `a` is a copy of the record `b`.
pub open spec fn same_user(a: User, b: User) -> bool {
    &&& a.id == b.id
    &&& a.name == b.name
    &&& a.role == b.role
    &&& perm_view(a.permissions@) == perm_view(b.permissions@)
    &&& meta_view(a.metadata@) == meta_view(b.metadata@)
}

/// The member list of the office or room named: an office when one is
/// given, else a room; a refusal when the entity is missing or of the other
/// kind, or when neither is named.
pub open spec fn named_members(
    domains: Map<Seq<char>, Domain>,
    office: Option<Seq<char>>,
    room: Option<Seq<char>>,
) -> Result<Seq<String>, KernelError> {
    match office {
        Some(o) => if !domains.contains_key(o) {
            Err(KernelError::OfficeNotFound)
        } else if !(domains[o] is Office) {
            Err(KernelError::NotAnOffice)
        } else {
            Ok(domains[o].members_view())
        },
        None => match room {
            Some(r) => if !domains.contains_key(r) {
                Err(KernelError::RoomNotFound)
            } else if !(domains[r] is Room) {
                Err(KernelError::NotARoom)
            } else {
                Ok(domains[r].members_view())
            },
            None => Err(KernelError::NoDomainGiven),
        },
    }
}

/// The domain a member change names: the office if given, else the room,
/// else the root workspace.
pub open spec fn routed_domain(office: Option<Seq<char>>, room: Option<Seq<char>>) -> Seq<char> {
    match office {
        Some(o) => o,
        None => match room {
            Some(r) => r,
            None => WORKSPACE_ROOT_ID@,
        },
    }
}

/// What listing the members of `domain` for `user` gives: refused unless
/// `user` may act there as a member and the domain exists; else a copy of
/// the record of each listed member that has one, in list order.
pub open spec fn members_listing(
    domains: Map<Seq<char>, Domain>,
    users: Map<Seq<char>, User>,
    user: Seq<char>,
    domain: Seq<char>,
    r: Result<Vec<User>, KernelError>,
) -> bool {
    &&& (role_check_spec(domains, users, user, Some(domain), UserRole::Member) matches Err(e)
        ==> r == Err::<Vec<User>, KernelError>(e))
    &&& (role_check_spec(domains, users, user, Some(domain), UserRole::Member) is Ok
        && !domains.contains_key(domain) ==> r == Err::<Vec<User>, KernelError>(
        KernelError::DomainNotFound,
    ))
    &&& (r is Ok <==> role_check_spec(domains, users, user, Some(domain), UserRole::Member)
        is Ok && domains.contains_key(domain))
    &&& (r matches Ok(v) ==> {
        let ids = recorded(users, domains[domain].members_view());
        &&& v@.len() == ids.len()
        &&& forall|i: int| 0 <= i < v@.len() ==> same_user(#[trigger] v@[i], users[ids[i]])
    })
}

impl WorkspaceServerKernel {
    /// Copies of the records of the users on `ids` that have one, in order.
    pub(crate) fn records_of(&self, ids: &Vec<String>) -> (v: Vec<User>)
        ensures
            v@.len() == recorded(self.users(), ids@).len(),
            forall|i: int|
                0 <= i < v@.len() ==> same_user(#[trigger] v@[i], self.users()[recorded(self.users(), ids@)[i]]),
    {
        let users = &self.store().users;
        let mut v: Vec<User> = Vec::new();
        let mut i: usize = 0;
        while i < ids.len()
            invariant
                0 <= i <= ids@.len(),
                users@ == self.users(),
                v@.len() == recorded(self.users(), ids@.subrange(0, i as int)).len(),
                forall|a: int|
                    0 <= a < v@.len() ==> same_user(
                        #[trigger] v@[a],
                        self.users()[recorded(self.users(), ids@.subrange(0, i as int))[a]],
                    ),
            decreases ids@.len() - i,
        {
            let ghost before = v@;
            proof {
                assert(ids@.subrange(0, i + 1).drop_last() =~= ids@.subrange(0, i as int));
                assert(ids@.subrange(0, i + 1).last() == ids@[i as int]);
            }
            match users.get(ids[i].as_str()) {
                Some(u) => {
                    v.push(u.clone());
                    proof {
                        assert forall|a: int|
                            0 <= a < v@.len() implies same_user(
                                #[trigger] v@[a],
                                self.users()[recorded(self.users(), ids@.subrange(0, i + 1))[a]],
                            ) by {
                            if a < before.len() {
                                assert(v@[a] == before[a]);
                            }
                        }
                    }
                },
                None => {},
            }
            i = i + 1;
        }
        proof {
            assert(ids@.subrange(0, ids@.len() as int) =~= ids@);
        }
        v
    }

    /// The ids and names of the users on `ids` that have a record, in order.
    fn names_of(&self, ids: &Vec<String>) -> (v: Vec<(String, String)>)
        ensures
            v@.len() == recorded(self.users(), ids@).len(),
            forall|i: int|
                0 <= i < v@.len() ==> (#[trigger] v@[i]).0@ == recorded(self.users(), ids@)[i] && v@[i].1
                    == self.users()[recorded(self.users(), ids@)[i]].name,
    {
        let users = &self.store().users;
        let mut v: Vec<(String, String)> = Vec::new();
        let mut i: usize = 0;
        while i < ids.len()
            invariant
                0 <= i <= ids@.len(),
                users@ == self.users(),
                v@.len() == recorded(self.users(), ids@.subrange(0, i as int)).len(),
                forall|a: int|
                    0 <= a < v@.len() ==> (#[trigger] v@[a]).0@ == recorded(self.users(), ids@.subrange(0, i as int))[a]
                        && v@[a].1 == self.users()[recorded(self.users(), ids@.subrange(0, i as int))[a]].name,
            decreases ids@.len() - i,
        {
            let ghost before = v@;
            proof {
                assert(ids@.subrange(0, i + 1).drop_last() =~= ids@.subrange(0, i as int));
                assert(ids@.subrange(0, i + 1).last() == ids@[i as int]);
            }
            match users.get(ids[i].as_str()) {
                Some(u) => {
                    v.push((ids[i].clone(), u.name.clone()));
                    proof {
                        assert forall|a: int|
                            0 <= a < v@.len() implies (#[trigger] v@[a]).0@ == recorded(
                                self.users(),
                                ids@.subrange(0, i + 1),
                            )[a] && v@[a].1 == self.users()[recorded(self.users(), ids@.subrange(0, i + 1))[a]].name by {
                            if a < before.len() {
                                assert(v@[a] == before[a]);
                            }
                        }
                    }
                },
                None => {},
            }
            i = i + 1;
        }
        proof {
            assert(ids@.subrange(0, ids@.len() as int) =~= ids@);
        }
        v
    }

    /// The records of the members of `domain_id` that have one, for a user
    /// who may act there at Member standing.
    pub fn list_members_in_domain(&self, user_id: &str, domain_id: &str) -> (r: Result<Vec<User>, KernelError>)
        ensures
            members_listing(self.domains(), self.users(), user_id@, domain_id@, r),
    {
        match self.check_permission(user_id, Some(domain_id), &UserRole::Member) {
            Ok(()) => {},
            Err(e) => {
                return Err(e);
            },
        }
        match self.store().get_domain(domain_id) {
            Some(domain) => Ok(self.records_of(domain.members())),
            None => Err(KernelError::DomainNotFound),
        }
    }

    /// The ids and names of the members of the office `office_id` or, when
    /// no office is named, of the room `room_id`.
    pub fn list_members(&self, office_id: Option<&str>, room_id: Option<&str>) -> (r: Result<
        Vec<(String, String)>,
        KernelError,
    >)
        ensures
            named_members(
                self.domains(),
                opt_view(office_id),
                opt_view(room_id),
            ) matches Err(e) ==> r == Err::<Vec<(String, String)>, KernelError>(e),
            r is Ok <==> named_members(
                self.domains(),
                opt_view(office_id),
                opt_view(room_id),
            ) is Ok,
            r matches Ok(v) ==> {
                let ids = recorded(
                    self.users(),
                    named_members(
                        self.domains(),
                        opt_view(office_id),
                        opt_view(room_id),
                    )->Ok_0,
                );
                &&& v@.len() == ids.len()
                &&& forall|i: int|
                    0 <= i < v@.len() ==> (#[trigger] v@[i]).0@ == ids[i] && v@[i].1 == self.users()[ids[i]].name
            },
    {
        let store = self.store();
        match office_id {
            Some(o) => match store.get_domain(o) {
                Some(Domain::Office { office }) => Ok(self.names_of(&office.members)),
                Some(_) => Err(KernelError::NotAnOffice),
                None => Err(KernelError::OfficeNotFound),
            },
            None => match room_id {
                Some(rid) => match store.get_domain(rid) {
                    Some(Domain::Room { room }) => Ok(self.names_of(&room.members)),
                    Some(_) => Err(KernelError::NotARoom),
                    None => Err(KernelError::RoomNotFound),
                },
                None => Err(KernelError::NoDomainGiven),
            },
        }
    }

    /// Add `target_member_id` with `role` to the office named, else the room
    /// named, else the root workspace, on behalf of `actor_user_id`.
    pub fn add_member_command_internal(
        &mut self,
        actor_user_id: &str,
        target_member_id: &str,
        office_id: Option<&str>,
        room_id: Option<&str>,
        role: UserRole,
    ) -> (r: Result<(), KernelError>)
        ensures
            add_user_outcome(
                old(self).domains(),
                old(self).users(),
                final(self).domains(),
                final(self).users(),
                actor_user_id@,
                target_member_id@,
                routed_domain(opt_view(office_id), opt_view(room_id)),
                role,
                r,
            ),
    {
        let domain_id: &str = match office_id {
            Some(o) => o,
            None => match room_id {
                Some(rid) => rid,
                None => WORKSPACE_ROOT_ID,
            },
        };
        self.add_user_to_domain(actor_user_id, target_member_id, domain_id, role)
    }

    /// Remove `target_user_id` from the office named, else the room named,
    /// else the root workspace, on behalf of `actor_user_id`.
    pub fn remove_member_command_internal(
        &mut self,
        actor_user_id: &str,
        target_user_id: &str,
        office_id: Option<&str>,
        room_id: Option<&str>,
    ) -> (r: Result<(), KernelError>)
        ensures
            remove_user_outcome(
                old(self).domains(),
                old(self).users(),
                final(self).domains(),
                final(self).users(),
                actor_user_id@,
                target_user_id@,
                routed_domain(opt_view(office_id), opt_view(room_id)),
                r,
            ),
    {
        let domain_id: &str = match office_id {
            Some(o) => o,
            None => match room_id {
                Some(rid) => rid,
                None => WORKSPACE_ROOT_ID,
            },
        };
        self.remove_user_from_domain(actor_user_id, target_user_id, domain_id)
    }
}

} // verus!
