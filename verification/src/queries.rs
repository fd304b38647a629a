//! Queries over the store: the members of one entity or of two at once,
//! every room, the workspace that holds an office, and the workspace a user
//! is shown on arrival.

use vstd::prelude::*;
use crate::domain::{Domain, Room, Workspace};
use crate::entity_ops::{list_outcome, listed_under, opt_view, read_entity_check, refusal};
use crate::kernel::WorkspaceServerKernel;
use crate::member_admin::{copied_in, copies_a_user};
use crate::members::{recorded, same_user};
use crate::seqs::{contains_str, holds_str, str_views};
use crate::store::KernelError;
use crate::text::{concat, str_eq};
use crate::user::User;
use crate::workspace_ops::same_workspace;

verus! {

/// The ids of `m1`, in order and each once, that are also on `m2` and have
/// a user record.
pub open spec fn common_recorded(users: Map<Seq<char>, User>, m1: Seq<String>, m2: Seq<String>) -> Seq<Seq<char>>
    decreases m1.len(),
{
    if m1.len() == 0 {
        Seq::empty()
    } else {
        let rest = common_recorded(users, m1.drop_last(), m2);
        let id = m1.last()@;
        if holds_str(m2, id) && users.contains_key(id) && !rest.contains(id) {
            rest.push(id)
        } else {
            rest
        }
    }
}

/// The ids whose records a query for the members of `first`, and of
/// `second` too when it is named, lists; or its refusal. Naming neither is
/// a query for every user, answered elsewhere.
pub open spec fn query_spec(
    domains: Map<Seq<char>, Domain>,
    users: Map<Seq<char>, User>,
    first: Option<Seq<char>>,
    second: Option<Seq<char>>,
) -> Result<Seq<Seq<char>>, KernelError> {
    match first {
        Some(a) => if !domains.contains_key(a) {
            if second is Some {
                Err(KernelError::FirstEntityNotFound)
            } else {
                Err(KernelError::EntityNotFound)
            }
        } else {
            match second {
                None => Ok(recorded(users, domains[a].members_view())),
                Some(b) => if !domains.contains_key(b) {
                    Err(KernelError::SecondEntityNotFound)
                } else {
                    Ok(common_recorded(users, domains[a].members_view(), domains[b].members_view()))
                },
            }
        },
        None => if second is Some {
            Err(KernelError::InvalidQuery)
        } else {
            Ok(Seq::empty())
        },
    }
}

/// Whether `d` is a workspace that lists the office `office`.
pub open spec fn lists_office(d: Domain, office: Seq<char>) -> bool {
    d is Workspace && holds_str(d->workspace.offices@, office)
}

/// Whether `d` is a workspace that `user` owns or belongs to.
pub open spec fn belongs_to_workspace(d: Domain, user: Seq<char>) -> bool {
    d is Workspace && (d->workspace.owner_id@ == user || holds_str(d->workspace.members@, user))
}

/// Whether `d` is an office that `user` owns or belongs to.
pub open spec fn belongs_to_office(d: Domain, user: Seq<char>) -> bool {
    d is Office && (d->office.owner_id@ == user || holds_str(d->office.members@, user))
}

/// The id of a user's virtual workspace is this prefix, then their id.
pub const VIRTUAL_WORKSPACE_PREFIX: &'static str = "virtual-workspace-";

/// The name of a virtual workspace.
pub const VIRTUAL_WORKSPACE_NAME: &'static str = "My Workspace";

/// The description of a virtual workspace.
pub const VIRTUAL_WORKSPACE_DESCRIPTION: &'static str = "Collection of your accessible offices";

/// A string of `v` has the characters `s` exactly when `s` is among the
/// views of `v`.
proof fn lemma_holds_str_views(v: Seq<String>, s: Seq<char>)
    ensures
        holds_str(v, s) <==> str_views(v).contains(s),
{
    if holds_str(v, s) {
        let i = choose|i: int| 0 <= i < v.len() && v[i]@ == s;
        assert(str_views(v)[i] == s);
    }
    if str_views(v).contains(s) {
        let i = choose|i: int| 0 <= i < str_views(v).len() && str_views(v)[i] == s;
        assert(v[i]@ == s);
    }
}

impl WorkspaceServerKernel {
    /// Copies of the records of the users on both `m1` and `m2`, each once,
    /// in the order of `m1`.
    fn common_records(&self, m1: &Vec<String>, m2: &Vec<String>) -> (v: Vec<User>)
        ensures
            v@.len() == common_recorded(self.users(), m1@, m2@).len(),
            forall|i: int|
                0 <= i < v@.len() ==> same_user(#[trigger] v@[i], self.users()[common_recorded(self.users(), m1@, m2@)[i]]),
    {
        let users = &self.store().users;
        let mut v: Vec<User> = Vec::new();
        let mut seen: Vec<String> = Vec::new();
        let mut i: usize = 0;
        while i < m1.len()
            invariant
                0 <= i <= m1@.len(),
                users@ == self.users(),
                str_views(seen@) == common_recorded(self.users(), m1@.subrange(0, i as int), m2@),
                v@.len() == seen@.len(),
                forall|a: int| 0 <= a < v@.len() ==> same_user(#[trigger] v@[a], self.users()[seen@[a]@]),
            decreases m1@.len() - i,
        {
            let ghost before_v = v@;
            let ghost before_seen = seen@;
            let id = &m1[i];
            proof {
                assert(m1@.subrange(0, i + 1).drop_last() =~= m1@.subrange(0, i as int));
                assert(m1@.subrange(0, i + 1).last() == m1@[i as int]);
                lemma_holds_str_views(seen@, id@);
                assert(seen@.len() == str_views(seen@).len());
            }
            if contains_str(m2, id.as_str()) && !contains_str(&seen, id.as_str()) {
                match users.get(id.as_str()) {
                    Some(u) => {
                        v.push(u.clone());
                        seen.push(id.clone());
                        proof {
                            assert(str_views(seen@) =~= str_views(before_seen).push(id@));
                            assert forall|a: int| 0 <= a < v@.len() implies same_user(
                                #[trigger] v@[a],
                                self.users()[seen@[a]@],
                            ) by {
                                if a < before_v.len() {
                                    assert(v@[a] == before_v[a]);
                                    assert(seen@[a] == before_seen[a]);
                                }
                            }
                        }
                    },
                    None => {},
                }
            }
            i = i + 1;
        }
        proof {
            assert(m1@.subrange(0, m1@.len() as int) =~= m1@);
            assert forall|a: int| 0 <= a < v@.len() implies same_user(
                #[trigger] v@[a],
                self.users()[common_recorded(self.users(), m1@, m2@)[a]],
            ) by {
                assert(str_views(seen@)[a] == seen@[a]@);
            }
        }
        v
    }

    /// The records of the members of `entity_id`, or of those who are
    /// members of both `entity_id` and `additional_entity_id`; with neither
    /// named, every user's record.
    pub fn query_members(&self, entity_id: Option<&str>, additional_entity_id: Option<&str>) -> (r: Result<
        Vec<User>,
        KernelError,
    >)
        ensures
            !(entity_id is None && additional_entity_id is None) ==> match query_spec(
                self.domains(),
                self.users(),
                opt_view(entity_id),
                opt_view(additional_entity_id),
            ) {
                Err(e) => r == Err::<Vec<User>, KernelError>(e),
                Ok(ids) => (r matches Ok(v) && v@.len() == ids.len() && forall|i: int|
                    0 <= i < v@.len() ==> same_user(#[trigger] v@[i], self.users()[ids[i]])),
            },
            entity_id is None && additional_entity_id is None ==> (r matches Ok(v) && {
                &&& v@.len() == self.users().dom().len()
                &&& forall|i: int| 0 <= i < v@.len() ==> copies_a_user(self.users(), #[trigger] v@[i])
                &&& forall|k: Seq<char>| #[trigger] self.users().contains_key(k) ==> copied_in(v@, self.users()[k])
            }),
    {
        let store = self.store();
        match entity_id {
            Some(first) => match additional_entity_id {
                None => match store.get_domain(first) {
                    Some(d) => Ok(self.records_of(d.members())),
                    None => Err(KernelError::EntityNotFound),
                },
                Some(second) => match store.get_domain(first) {
                    None => Err(KernelError::FirstEntityNotFound),
                    Some(d1) => match store.get_domain(second) {
                        None => Err(KernelError::SecondEntityNotFound),
                        Some(d2) => Ok(self.common_records(d1.members(), d2.members())),
                    },
                },
            },
            None => match additional_entity_id {
                Some(_) => Err(KernelError::InvalidQuery),
                None => self.get_all_members(),
            },
        }
    }

    /// The rooms listed without a parent. Rooms are listed only under their
    /// office's id, so there are none.
    pub fn list_all_rooms(&self, user_id: &str) -> (r: Result<Vec<Room>, KernelError>)
        ensures
            list_outcome::<Room>(self.domains(), self.users(), user_id@, None, r),
            r matches Ok(v) && v@.len() == 0,
    {
        let r = self.list_domain_entities::<Room>(user_id, None);
        proof {
            if r is Ok && r->Ok_0@.len() > 0 {
                assert(listed_under::<Room>(self.domains(), None, r->Ok_0@[0]));
            }
        }
        r
    }

    /// The workspace that lists the office `office_id`, if any, for a user
    /// who may read the office.
    pub fn get_workspace_for_office(&self, user_id: &str, office_id: &str) -> (r: Result<
        Option<Workspace>,
        KernelError,
    >)
        ensures
            read_entity_check::<crate::domain::Office>(self.domains(), self.users(), user_id@, office_id@) is Err
                ==> r == Err::<Option<Workspace>, KernelError>(
                refusal(read_entity_check::<crate::domain::Office>(self.domains(), self.users(), user_id@, office_id@)),
            ),
            r is Ok <==> read_entity_check::<crate::domain::Office>(self.domains(), self.users(), user_id@, office_id@)
                is Ok,
            r matches Ok(None) ==> forall|k: Seq<char>|
                #[trigger] self.domains().contains_key(k) ==> !lists_office(self.domains()[k], office_id@),
            r matches Ok(Some(w)) ==> exists|k: Seq<char>|
                #[trigger] self.domains().contains_key(k) && lists_office(self.domains()[k], office_id@)
                    && same_workspace(w, self.domains()[k]->workspace),
    {
        match self.get_office(user_id, office_id) {
            Ok(_) => {},
            Err(e) => {
                return Err(e);
            },
        }
        let domains = &self.store().domains;
        let n = domains.len();
        let mut i: usize = 0;
        while i < n
            invariant
                n == domains.key_seq().len(),
                0 <= i <= n,
                domains@ == self.domains(),
                forall|k: Seq<char>| #[trigger] domains@.contains_key(k) <==> domains.key_seq().contains(k),
                read_entity_check::<crate::domain::Office>(self.domains(), self.users(), user_id@, office_id@) is Ok,
                forall|j: int| 0 <= j < i ==> !lists_office(self.domains()[#[trigger] domains.key_seq()[j]], office_id@),
            decreases n - i,
        {
            let ghost key = domains.key_seq()[i as int];
            match domains.value_at(i) {
                Domain::Workspace { workspace } => {
                    if contains_str(&workspace.offices, office_id) {
                        proof {
                            assert(self.domains().contains_key(key));
                        }
                        return Ok(Some(workspace.clone()));
                    }
                },
                _ => {},
            }
            i = i + 1;
        }
        proof {
            assert forall|k: Seq<char>| #[trigger] self.domains().contains_key(k) implies !lists_office(
                self.domains()[k],
                office_id@,
            ) by {
                let j = choose|j: int| 0 <= j < n && domains.key_seq()[j] == k;
                assert(domains.key_seq()[j] == k);
            }
        }
        Ok(None)
    }

    /// The workspace `user_id` is shown on arrival: one they own or belong
    /// to; failing that, a virtual workspace holding the offices they own or
    /// belong to.
    pub fn load_workspace_hierarchy(&self, user_id: &str) -> (r: Result<Workspace, KernelError>)
        ensures
            !self.users().contains_key(user_id@) ==> r == Err::<Workspace, KernelError>(KernelError::UserDoesNotExist),
            self.users().contains_key(user_id@) && (exists|k: Seq<char>|
                #[trigger] self.domains().contains_key(k) && belongs_to_workspace(self.domains()[k], user_id@)) ==> (
            r matches Ok(w) && exists|k: Seq<char>|
                #[trigger] self.domains().contains_key(k) && belongs_to_workspace(self.domains()[k], user_id@)
                    && same_workspace(w, self.domains()[k]->workspace)),
            self.users().contains_key(user_id@) && (forall|k: Seq<char>|
                #[trigger] self.domains().contains_key(k) ==> !belongs_to_workspace(self.domains()[k], user_id@))
                ==> {
                let has_office = exists|k: Seq<char>|
                    #[trigger] self.domains().contains_key(k) && belongs_to_office(self.domains()[k], user_id@);
                &&& !has_office ==> r == Err::<Workspace, KernelError>(KernelError::NoAccessibleWorkspace)
                &&& has_office ==> (r matches Ok(w) && {
                    &&& w.id@ == VIRTUAL_WORKSPACE_PREFIX@ + user_id@
                    &&& w.name@ == VIRTUAL_WORKSPACE_NAME@
                    &&& w.description@ == VIRTUAL_WORKSPACE_DESCRIPTION@
                    &&& w.owner_id@ == user_id@
                    &&& str_views(w.members@) == seq![user_id@]
                    &&& w.metadata@.len() == 0
                    &&& forall|i: int|
                        0 <= i < w.offices@.len() ==> self.domains().contains_key(#[trigger] w.offices@[i]@)
                            && belongs_to_office(self.domains()[w.offices@[i]@], user_id@)
                    &&& forall|k: Seq<char>|
                        #[trigger] self.domains().contains_key(k) && belongs_to_office(self.domains()[k], user_id@)
                            ==> holds_str(w.offices@, k)
                })
            },
    {
        if self.store().get_user(user_id).is_none() {
            return Err(KernelError::UserDoesNotExist);
        }
        let domains = &self.store().domains;
        let n = domains.len();
        let mut i: usize = 0;
        while i < n
            invariant
                n == domains.key_seq().len(),
                0 <= i <= n,
                domains@ == self.domains(),
                forall|k: Seq<char>| #[trigger] domains@.contains_key(k) <==> domains.key_seq().contains(k),
                self.users().contains_key(user_id@),
                forall|j: int|
                    0 <= j < i ==> !belongs_to_workspace(self.domains()[#[trigger] domains.key_seq()[j]], user_id@),
            decreases n - i,
        {
            let ghost key = domains.key_seq()[i as int];
            match domains.value_at(i) {
                Domain::Workspace { workspace } => {
                    if str_eq(workspace.owner_id.as_str(), user_id) || contains_str(&workspace.members, user_id) {
                        proof {
                            assert(self.domains().contains_key(key));
                        }
                        return Ok(workspace.clone());
                    }
                },
                _ => {},
            }
            i = i + 1;
        }
        proof {
            assert forall|k: Seq<char>| #[trigger] self.domains().contains_key(k) implies !belongs_to_workspace(
                self.domains()[k],
                user_id@,
            ) by {
                let j = choose|j: int| 0 <= j < n && domains.key_seq()[j] == k;
                assert(domains.key_seq()[j] == k);
            }
        }
        let mut offices: Vec<String> = Vec::new();
        let mut i: usize = 0;
        while i < n
            invariant
                n == domains.key_seq().len(),
                0 <= i <= n,
                domains@ == self.domains(),
                forall|k: Seq<char>| #[trigger] domains@.contains_key(k) <==> domains.key_seq().contains(k),
                forall|a: int|
                    0 <= a < offices@.len() ==> self.domains().contains_key(#[trigger] offices@[a]@) && belongs_to_office(
                        self.domains()[offices@[a]@],
                        user_id@,
                    ),
                forall|j: int|
                    0 <= j < i && belongs_to_office(self.domains()[#[trigger] domains.key_seq()[j]], user_id@)
                        ==> holds_str(offices@, domains.key_seq()[j]),
            decreases n - i,
        {
            let ghost key = domains.key_seq()[i as int];
            let ghost before = offices@;
            let id = domains.key_at(i);
            match domains.value_at(i) {
                Domain::Office { office } => {
                    if str_eq(office.owner_id.as_str(), user_id) || contains_str(&office.members, user_id) {
                        offices.push(id.clone());
                        proof {
                            assert(offices@[before.len() as int]@ == key);
                            assert forall|a: int|
                                0 <= a < offices@.len() implies self.domains().contains_key(
                                    #[trigger] offices@[a]@,
                                ) && belongs_to_office(self.domains()[offices@[a]@], user_id@) by {
                                if a < before.len() {
                                    assert(offices@[a] == before[a]);
                                }
                            }
                            assert forall|j: int|
                                0 <= j < i + 1 && belongs_to_office(
                                    self.domains()[#[trigger] domains.key_seq()[j]],
                                    user_id@,
                                ) implies holds_str(offices@, domains.key_seq()[j]) by {
                                if j < i {
                                    let a = choose|a: int| 0 <= a < before.len() && before[a]@ == domains.key_seq()[j];
                                    assert(offices@[a] == before[a]);
                                } else {
                                    assert(offices@[before.len() as int]@ == domains.key_seq()[j]);
                                }
                            }
                        }
                    }
                },
                _ => {},
            }
            i = i + 1;
        }
        proof {
            assert forall|k: Seq<char>|
                #[trigger] self.domains().contains_key(k) && belongs_to_office(self.domains()[k], user_id@) implies holds_str(
                offices@,
                k,
            ) by {
                let j = choose|j: int| 0 <= j < n && domains.key_seq()[j] == k;
                assert(domains.key_seq()[j] == k);
            }
        }
        if offices.len() == 0 {
            proof {
                assert forall|k: Seq<char>| #[trigger] self.domains().contains_key(k) implies !belongs_to_office(
                    self.domains()[k],
                    user_id@,
                ) by {
                    if belongs_to_office(self.domains()[k], user_id@) {
                        assert(holds_str(offices@, k));
                    }
                }
            }
            return Err(KernelError::NoAccessibleWorkspace);
        }
        let mut members: Vec<String> = Vec::new();
        members.push(user_id.to_owned());
        proof {
            assert(str_views(members@) =~= seq![user_id@]);
            let a = 0int;
            assert(self.domains().contains_key(offices@[a]@) && belongs_to_office(self.domains()[offices@[a]@], user_id@));
        }
        Ok(
            Workspace {
                id: concat(VIRTUAL_WORKSPACE_PREFIX, user_id),
                name: VIRTUAL_WORKSPACE_NAME.to_owned(),
                description: VIRTUAL_WORKSPACE_DESCRIPTION.to_owned(),
                owner_id: user_id.to_owned(),
                members,
                offices,
                metadata: Vec::new(),
            },
        )
    }
}

} // verus!
