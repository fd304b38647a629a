//! Operations on workspaces: reading, listing, creating, updating and
//! deleting them, and changing their office and member lists.
//!
//! A workspace is changed only by an administrator or its owner. A workspace
//! is read by an administrator or one of its members.

use vstd::prelude::*;
use crate::domain::{Domain, Workspace};
use crate::kernel::{WorkspaceServerKernel, error_of, new_random_id};
use crate::permissions::Permission;
use crate::seqs::{contains_str, copy_strings, holds_str, remove_all_str, str_views, without_str};
use crate::store::{KernelError, admin_spec, entity_permission_spec};
use crate::text::str_eq;
use crate::user::User;

verus! {

/// Whether the entry under `id` is a workspace.
pub open spec fn is_workspace_at(domains: Map<Seq<char>, Domain>, id: Seq<char>) -> bool {
    domains.contains_key(id) && domains[id] is Workspace
}

/// The workspace under `id`.
pub open spec fn workspace_at(domains: Map<Seq<char>, Domain>, id: Seq<char>) -> Workspace {
    domains[id]->workspace
}

/// Whether `a` and `b` hold the same workspace, field by field.
pub open spec fn same_workspace(a: Workspace, b: Workspace) -> bool {
    a.id == b.id && a.name == b.name && a.description == b.description && a.owner_id == b.owner_id
        && a.members@ == b.members@ && a.offices@ == b.offices@ && a.metadata@ == b.metadata@
}

/// May `user` change the workspace under `id`: an administrator may; anyone
/// else needs the workspace to exist and to own it.
pub open spec fn owner_check(
    domains: Map<Seq<char>, Domain>,
    users: Map<Seq<char>, User>,
    user: Seq<char>,
    id: Seq<char>,
) -> Result<(), KernelError> {
    if admin_spec(users, user) {
        Ok(())
    } else if !is_workspace_at(domains, id) {
        Err(KernelError::WorkspaceNotFound)
    } else if workspace_at(domains, id).owner_id@ != user {
        Err(KernelError::NotWorkspaceOwner)
    } else {
        Ok(())
    }
}

/// May `user` read the workspace under `id`: it must exist, and the user
/// must be an administrator or one of its members.
pub open spec fn read_check(
    domains: Map<Seq<char>, Domain>,
    users: Map<Seq<char>, User>,
    user: Seq<char>,
    id: Seq<char>,
) -> Result<(), KernelError> {
    if !is_workspace_at(domains, id) {
        Err(KernelError::WorkspaceNotFound)
    } else if !(admin_spec(users, user) || holds_str(workspace_at(domains, id).members@, user)) {
        Err(KernelError::NotAWorkspaceMember)
    } else {
        Ok(())
    }
}

/// `w` is a copy of a workspace `user` may read.
pub open spec fn visible_copy(
    domains: Map<Seq<char>, Domain>,
    users: Map<Seq<char>, User>,
    user: Seq<char>,
    w: Workspace,
) -> bool {
    exists|k: Seq<char>|
        #[trigger] is_workspace_at(domains, k) && read_check(domains, users, user, k) is Ok && same_workspace(
            w,
            workspace_at(domains, k),
        )
}

/// Whether `d` is an office that lists the room `room`.
pub open spec fn office_lists_room(d: Domain, room: Seq<char>) -> bool {
    match d {
        Domain::Office { office } => holds_str(office.rooms@, room),
        _ => false,
    }
}

/// Whether `k` is the workspace `wid` itself, one of its offices, or a room
/// of one of its offices.
pub open spec fn in_workspace_subtree(domains: Map<Seq<char>, Domain>, w: Workspace, wid: Seq<char>, k: Seq<char>) -> bool {
    ||| k == wid
    ||| holds_str(w.offices@, k)
    ||| exists|o: Seq<char>|
        holds_str(w.offices@, o) && #[trigger] domains.contains_key(o) && office_lists_room(domains[o], k)
}

/// `new` is `old` with some entries removed, none of them outside the
/// workspace's subtree, and the others unchanged.
pub open spec fn removed_within(
    old: Map<Seq<char>, Domain>,
    new: Map<Seq<char>, Domain>,
    w: Workspace,
    wid: Seq<char>,
) -> bool {
    &&& forall|k: Seq<char>| #[trigger] new.contains_key(k) ==> old.contains_key(k) && new[k] == old[k]
    &&& forall|k: Seq<char>|
        #[trigger] old.contains_key(k) && !new.contains_key(k) ==> in_workspace_subtree(old, w, wid, k)
}

/// The error of a failed check.
pub open spec fn check_error(r: Result<(), KernelError>) -> KernelError {
    match r {
        Err(e) => e,
        Ok(_) => KernelError::WorkspaceNotFound,
    }
}

/// `v` holds copies of the workspaces `user` may read, and only of those.
pub open spec fn workspaces_listed(
    domains: Map<Seq<char>, Domain>,
    users: Map<Seq<char>, User>,
    user: Seq<char>,
    v: Seq<Workspace>,
) -> bool {
    &&& forall|i: int| 0 <= i < v.len() ==> visible_copy(domains, users, user, #[trigger] v[i])
    &&& forall|k: Seq<char>|
        #[trigger] is_workspace_at(domains, k) && read_check(domains, users, user, k) is Ok ==> exists|i: int|
            0 <= i < v.len() && same_workspace(v[i], workspace_at(domains, k))
}

/// The table keeps its keys, and every entry but the one under `id`.
pub open spec fn others_unchanged(old: Map<Seq<char>, Domain>, new: Map<Seq<char>, Domain>, id: Seq<char>) -> bool {
    &&& new.dom() == old.dom()
    &&& forall|k: Seq<char>| k != id && #[trigger] old.contains_key(k) ==> new[k] == old[k]
}

/// `b` is `a` with, possibly, another office list.
pub open spec fn ws_same_but_offices(a: Workspace, b: Workspace) -> bool {
    a.id == b.id && a.name == b.name && a.description == b.description && a.owner_id == b.owner_id
        && a.members@ == b.members@ && a.metadata@ == b.metadata@
}

/// `b` is `a` with, possibly, another member list.
pub open spec fn ws_same_but_members(a: Workspace, b: Workspace) -> bool {
    a.id == b.id && a.name == b.name && a.description == b.description && a.owner_id == b.owner_id
        && a.offices@ == b.offices@ && a.metadata@ == b.metadata@
}

/// A list of ids with `id` added at the end, unless present.
pub open spec fn ids_with(ids: Seq<String>, id: Seq<char>) -> Seq<Seq<char>> {
    if holds_str(ids, id) {
        str_views(ids)
    } else {
        str_views(ids).push(id)
    }
}

impl WorkspaceServerKernel {
    /// Whether `user_id` may change workspace `workspace_id`.
    fn check_owner(&self, user_id: &str, workspace_id: &str) -> (r: Result<(), KernelError>)
        ensures
            r == owner_check(self.domains(), self.users(), user_id@, workspace_id@),
    {
        if self.is_admin(user_id) {
            return Ok(());
        }
        match self.store().get_domain(workspace_id) {
            Some(Domain::Workspace { workspace }) => {
                if str_eq(workspace.owner_id.as_str(), user_id) {
                    Ok(())
                } else {
                    Err(KernelError::NotWorkspaceOwner)
                }
            },
            _ => Err(KernelError::WorkspaceNotFound),
        }
    }

    /// The workspace `workspace_id`, for `user_id` to read.
    pub fn get_workspace(&self, user_id: &str, workspace_id: &str) -> (r: Result<Workspace, KernelError>)
        ensures
            read_check(self.domains(), self.users(), user_id@, workspace_id@) is Err ==> r == Err::<
                Workspace,
                KernelError,
            >(check_error(read_check(self.domains(), self.users(), user_id@, workspace_id@))),
            r is Ok <==> read_check(self.domains(), self.users(), user_id@, workspace_id@) is Ok,
            r matches Ok(w) ==> same_workspace(w, workspace_at(self.domains(), workspace_id@)),
    {
        match self.store().get_domain(workspace_id) {
            Some(Domain::Workspace { workspace }) => {
                if self.is_admin(user_id) || contains_str(&workspace.members, user_id) {
                    Ok(workspace.clone())
                } else {
                    Err(KernelError::NotAWorkspaceMember)
                }
            },
            _ => Err(KernelError::WorkspaceNotFound),
        }
    }
    /// Write `w` back as the workspace under `workspace_id` inside `tx`.
    fn put_workspace(tx: &mut crate::transaction::WriteTransaction, workspace_id: &str, w: Workspace) -> (r: Result<
        (),
        KernelError,
    >)
        ensures
            r is Ok <==> old(tx).domains().contains_key(workspace_id@),
            r is Err ==> r == Err::<(), KernelError>(KernelError::DomainNotFound),
            r is Ok ==> final(tx).domains() == old(tx).domains().insert(workspace_id@, Domain::Workspace { workspace: w }),
            r is Err ==> final(tx).domains() == old(tx).domains(),
            final(tx).users() == old(tx).users(),
            final(tx).start_domains() == old(tx).start_domains(),
            final(tx).start_users() == old(tx).start_users(),
            old(tx).restorable() ==> final(tx).restorable(),
    {
        tx.update_domain(workspace_id, Domain::Workspace { workspace: w })
    }

    /// List the office `office_id` in workspace `workspace_id`, on behalf of
    /// `user_id`, an administrator or the workspace's owner. The office must
    /// exist; listing it twice changes nothing.
    pub fn add_office_to_workspace(&mut self, user_id: &str, workspace_id: &str, office_id: &str) -> (r: Result<
        (),
        KernelError,
    >)
        ensures
            owner_check(old(self).domains(), old(self).users(), user_id@, workspace_id@) is Err ==> r == Err::<
                (),
                KernelError,
            >(check_error(owner_check(old(self).domains(), old(self).users(), user_id@, workspace_id@))),
            owner_check(old(self).domains(), old(self).users(), user_id@, workspace_id@) is Ok && !is_workspace_at(
                old(self).domains(),
                workspace_id@,
            ) ==> r == Err::<(), KernelError>(KernelError::WorkspaceNotFound),
            owner_check(old(self).domains(), old(self).users(), user_id@, workspace_id@) is Ok && is_workspace_at(
                old(self).domains(),
                workspace_id@,
            ) && !old(self).domains().contains_key(office_id@) ==> r == Err::<(), KernelError>(
                KernelError::OfficeNotFound,
            ),
            r is Ok <==> (owner_check(old(self).domains(), old(self).users(), user_id@, workspace_id@) is Ok
                && is_workspace_at(old(self).domains(), workspace_id@) && old(self).domains().contains_key(
                office_id@,
            )),
            r is Err ==> final(self).domains() == old(self).domains(),
            final(self).users() == old(self).users(),
            r is Ok ==> {
                let ow = workspace_at(old(self).domains(), workspace_id@);
                let nw = workspace_at(final(self).domains(), workspace_id@);
                &&& others_unchanged(old(self).domains(), final(self).domains(), workspace_id@)
                &&& is_workspace_at(final(self).domains(), workspace_id@)
                &&& ws_same_but_offices(ow, nw)
                &&& str_views(nw.offices@) == ids_with(ow.offices@, office_id@)
            },
    {
        match self.check_owner(user_id, workspace_id) {
            Ok(()) => {},
            Err(e) => {
                return Err(e);
            },
        }
        let workspace = match self.store().get_domain(workspace_id) {
            Some(Domain::Workspace { workspace }) => workspace.clone(),
            _ => {
                return Err(KernelError::WorkspaceNotFound);
            },
        };
        if self.store().get_domain(office_id).is_none() {
            return Err(KernelError::OfficeNotFound);
        }
        if contains_str(&workspace.offices, office_id) {
            proof {
                assert(str_views(workspace.offices@) =~= ids_with(workspace.offices@, office_id@));
            }
            return Ok(());
        }
        let Workspace { id, name, description, owner_id, members, offices, metadata } = workspace;
        let mut offices = offices;
        let ghost before = offices@;
        offices.push(office_id.to_owned());
        proof {
            assert(str_views(offices@) =~= ids_with(before, office_id@));
        }
        let updated = Workspace { id, name, description, owner_id, members, offices, metadata };
        let mut tx = self.begin_write();
        let r = Self::put_workspace(&mut tx, workspace_id, updated);
        let keep = r.is_ok();
        self.end_write(tx, keep);
        proof {
            assert(self.domains().dom() =~= old(self).domains().dom());
        }
        r
    }

    /// Take the office `office_id` off the list of workspace `workspace_id`,
    /// on behalf of `user_id`, an administrator or the workspace's owner.
    pub fn remove_office_from_workspace(&mut self, user_id: &str, workspace_id: &str, office_id: &str) -> (r: Result<
        (),
        KernelError,
    >)
        ensures
            owner_check(old(self).domains(), old(self).users(), user_id@, workspace_id@) is Err ==> r == Err::<
                (),
                KernelError,
            >(check_error(owner_check(old(self).domains(), old(self).users(), user_id@, workspace_id@))),
            r is Ok <==> (owner_check(old(self).domains(), old(self).users(), user_id@, workspace_id@) is Ok
                && is_workspace_at(old(self).domains(), workspace_id@)),
            owner_check(old(self).domains(), old(self).users(), user_id@, workspace_id@) is Ok && !is_workspace_at(
                old(self).domains(),
                workspace_id@,
            ) ==> r == Err::<(), KernelError>(KernelError::WorkspaceNotFound),
            r is Err ==> final(self).domains() == old(self).domains(),
            final(self).users() == old(self).users(),
            r is Ok ==> {
                let ow = workspace_at(old(self).domains(), workspace_id@);
                let nw = workspace_at(final(self).domains(), workspace_id@);
                &&& others_unchanged(old(self).domains(), final(self).domains(), workspace_id@)
                &&& is_workspace_at(final(self).domains(), workspace_id@)
                &&& ws_same_but_offices(ow, nw)
                &&& str_views(nw.offices@) == str_views(without_str(ow.offices@, office_id@))
            },
    {
        match self.check_owner(user_id, workspace_id) {
            Ok(()) => {},
            Err(e) => {
                return Err(e);
            },
        }
        let workspace = match self.store().get_domain(workspace_id) {
            Some(Domain::Workspace { workspace }) => workspace.clone(),
            _ => {
                return Err(KernelError::WorkspaceNotFound);
            },
        };
        let Workspace { id, name, description, owner_id, members, offices, metadata } = workspace;
        let offices = remove_all_str(&offices, office_id);
        let updated = Workspace { id, name, description, owner_id, members, offices, metadata };
        let mut tx = self.begin_write();
        let r = Self::put_workspace(&mut tx, workspace_id, updated);
        let keep = r.is_ok();
        self.end_write(tx, keep);
        proof {
            assert(self.domains().dom() =~= old(self).domains().dom());
        }
        r
    }

    /// Add `user_id` to the members of workspace `workspace_id`, on behalf of
    /// `admin_id`, an administrator or the workspace's owner. The user must
    /// have a record; adding a member twice changes nothing.
    pub fn add_user_to_workspace(&mut self, admin_id: &str, user_id: &str, workspace_id: &str) -> (r: Result<
        (),
        KernelError,
    >)
        ensures
            owner_check(old(self).domains(), old(self).users(), admin_id@, workspace_id@) is Err ==> r == Err::<
                (),
                KernelError,
            >(check_error(owner_check(old(self).domains(), old(self).users(), admin_id@, workspace_id@))),
            owner_check(old(self).domains(), old(self).users(), admin_id@, workspace_id@) is Ok && !is_workspace_at(
                old(self).domains(),
                workspace_id@,
            ) ==> r == Err::<(), KernelError>(KernelError::WorkspaceNotFound),
            owner_check(old(self).domains(), old(self).users(), admin_id@, workspace_id@) is Ok && is_workspace_at(
                old(self).domains(),
                workspace_id@,
            ) && !old(self).users().contains_key(user_id@) ==> r == Err::<(), KernelError>(
                KernelError::UserNotFound,
            ),
            r is Ok <==> (owner_check(old(self).domains(), old(self).users(), admin_id@, workspace_id@) is Ok
                && is_workspace_at(old(self).domains(), workspace_id@) && old(self).users().contains_key(user_id@)),
            r is Err ==> final(self).domains() == old(self).domains(),
            final(self).users() == old(self).users(),
            r is Ok ==> {
                let ow = workspace_at(old(self).domains(), workspace_id@);
                let nw = workspace_at(final(self).domains(), workspace_id@);
                &&& others_unchanged(old(self).domains(), final(self).domains(), workspace_id@)
                &&& is_workspace_at(final(self).domains(), workspace_id@)
                &&& ws_same_but_members(ow, nw)
                &&& str_views(nw.members@) == ids_with(ow.members@, user_id@)
            },
    {
        match self.check_owner(admin_id, workspace_id) {
            Ok(()) => {},
            Err(e) => {
                return Err(e);
            },
        }
        let workspace = match self.store().get_domain(workspace_id) {
            Some(Domain::Workspace { workspace }) => workspace.clone(),
            _ => {
                return Err(KernelError::WorkspaceNotFound);
            },
        };
        if self.store().get_user(user_id).is_none() {
            return Err(KernelError::UserNotFound);
        }
        if contains_str(&workspace.members, user_id) {
            proof {
                assert(str_views(workspace.members@) =~= ids_with(workspace.members@, user_id@));
            }
            return Ok(());
        }
        let Workspace { id, name, description, owner_id, members, offices, metadata } = workspace;
        let mut members = members;
        let ghost before = members@;
        members.push(user_id.to_owned());
        proof {
            assert(str_views(members@) =~= ids_with(before, user_id@));
        }
        let updated = Workspace { id, name, description, owner_id, members, offices, metadata };
        let mut tx = self.begin_write();
        let r = Self::put_workspace(&mut tx, workspace_id, updated);
        let keep = r.is_ok();
        self.end_write(tx, keep);
        proof {
            assert(self.domains().dom() =~= old(self).domains().dom());
        }
        r
    }

    /// Remove `user_id` from the members of workspace `workspace_id`, on
    /// behalf of `admin_id`, an administrator or the workspace's owner. The
    /// owner cannot be removed.
    pub fn remove_user_from_workspace(&mut self, admin_id: &str, user_id: &str, workspace_id: &str) -> (r: Result<
        (),
        KernelError,
    >)
        ensures
            owner_check(old(self).domains(), old(self).users(), admin_id@, workspace_id@) is Err ==> r == Err::<
                (),
                KernelError,
            >(check_error(owner_check(old(self).domains(), old(self).users(), admin_id@, workspace_id@))),
            owner_check(old(self).domains(), old(self).users(), admin_id@, workspace_id@) is Ok && !is_workspace_at(
                old(self).domains(),
                workspace_id@,
            ) ==> r == Err::<(), KernelError>(KernelError::WorkspaceNotFound),
            owner_check(old(self).domains(), old(self).users(), admin_id@, workspace_id@) is Ok && is_workspace_at(
                old(self).domains(),
                workspace_id@,
            ) && workspace_at(old(self).domains(), workspace_id@).owner_id@ == user_id@ ==> r == Err::<
                (),
                KernelError,
            >(KernelError::CannotRemoveOwner),
            r is Ok <==> (owner_check(old(self).domains(), old(self).users(), admin_id@, workspace_id@) is Ok
                && is_workspace_at(old(self).domains(), workspace_id@) && workspace_at(
                old(self).domains(),
                workspace_id@,
            ).owner_id@ != user_id@),
            r is Err ==> final(self).domains() == old(self).domains(),
            final(self).users() == old(self).users(),
            r is Ok ==> {
                let ow = workspace_at(old(self).domains(), workspace_id@);
                let nw = workspace_at(final(self).domains(), workspace_id@);
                &&& others_unchanged(old(self).domains(), final(self).domains(), workspace_id@)
                &&& is_workspace_at(final(self).domains(), workspace_id@)
                &&& ws_same_but_members(ow, nw)
                &&& str_views(nw.members@) == str_views(without_str(ow.members@, user_id@))
            },
    {
        match self.check_owner(admin_id, workspace_id) {
            Ok(()) => {},
            Err(e) => {
                return Err(e);
            },
        }
        let workspace = match self.store().get_domain(workspace_id) {
            Some(Domain::Workspace { workspace }) => workspace.clone(),
            _ => {
                return Err(KernelError::WorkspaceNotFound);
            },
        };
        if str_eq(workspace.owner_id.as_str(), user_id) {
            return Err(KernelError::CannotRemoveOwner);
        }
        let Workspace { id, name, description, owner_id, members, offices, metadata } = workspace;
        let members = remove_all_str(&members, user_id);
        let updated = Workspace { id, name, description, owner_id, members, offices, metadata };
        let mut tx = self.begin_write();
        let r = Self::put_workspace(&mut tx, workspace_id, updated);
        let keep = r.is_ok();
        self.end_write(tx, keep);
        proof {
            assert(self.domains().dom() =~= old(self).domains().dom());
        }
        r
    }
    /// Change the name, description and metadata of workspace
    /// `workspace_id` (each only when given), on behalf of `user_id`, an
    /// administrator or the workspace's owner. Returns the workspace as
    /// stored.
    pub fn update_workspace(
        &mut self,
        user_id: &str,
        workspace_id: &str,
        name: Option<&str>,
        description: Option<&str>,
        metadata: Option<Vec<u8>>,
    ) -> (r: Result<Workspace, KernelError>)
        ensures
            owner_check(old(self).domains(), old(self).users(), user_id@, workspace_id@) is Err ==> r == Err::<
                Workspace,
                KernelError,
            >(check_error(owner_check(old(self).domains(), old(self).users(), user_id@, workspace_id@))),
            r is Ok <==> (owner_check(old(self).domains(), old(self).users(), user_id@, workspace_id@) is Ok
                && is_workspace_at(old(self).domains(), workspace_id@)),
            owner_check(old(self).domains(), old(self).users(), user_id@, workspace_id@) is Ok && !is_workspace_at(
                old(self).domains(),
                workspace_id@,
            ) ==> r == Err::<Workspace, KernelError>(KernelError::WorkspaceNotFound),
            r is Err ==> final(self).domains() == old(self).domains(),
            final(self).users() == old(self).users(),
            r matches Ok(w) ==> {
                let ow = workspace_at(old(self).domains(), workspace_id@);
                let nw = workspace_at(final(self).domains(), workspace_id@);
                &&& others_unchanged(old(self).domains(), final(self).domains(), workspace_id@)
                &&& is_workspace_at(final(self).domains(), workspace_id@)
                &&& same_workspace(nw, w)
                &&& nw.id == ow.id
                &&& nw.owner_id == ow.owner_id
                &&& nw.members@ == ow.members@
                &&& nw.offices@ == ow.offices@
                &&& nw.name@ == (match name {
                    Some(n) => n@,
                    None => ow.name@,
                })
                &&& nw.description@ == (match description {
                    Some(d) => d@,
                    None => ow.description@,
                })
                &&& nw.metadata@ == (match metadata {
                    Some(m) => m@,
                    None => ow.metadata@,
                })
            },
    {
        match self.check_owner(user_id, workspace_id) {
            Ok(()) => {},
            Err(e) => {
                return Err(e);
            },
        }
        let workspace = match self.store().get_domain(workspace_id) {
            Some(Domain::Workspace { workspace }) => workspace.clone(),
            _ => {
                return Err(KernelError::WorkspaceNotFound);
            },
        };
        let Workspace { id, name: old_name, description: old_description, owner_id, members, offices, metadata: old_metadata } =
            workspace;
        let name = match name {
            Some(n) => n.to_owned(),
            None => old_name,
        };
        let description = match description {
            Some(d) => d.to_owned(),
            None => old_description,
        };
        let metadata = match metadata {
            Some(m) => m,
            None => old_metadata,
        };
        let updated = Workspace { id, name, description, owner_id, members, offices, metadata };
        let copy = updated.clone();
        let mut tx = self.begin_write();
        let r = Self::put_workspace(&mut tx, workspace_id, updated);
        let keep = r.is_ok();
        self.end_write(tx, keep);
        proof {
            assert(self.domains().dom() =~= old(self).domains().dom());
        }
        match r {
            Ok(()) => Ok(copy),
            Err(e) => Err(e),
        }
    }

    /// Create a workspace owned by `user_id`, whose only member it is, under
    /// a fresh random id. Administrators may; anyone else needs `All` on the
    /// entity with the empty id.
    pub fn create_workspace(
        &mut self,
        user_id: &str,
        name: &str,
        description: &str,
        metadata: Option<Vec<u8>>,
    ) -> (r: Result<Workspace, KernelError>)
        ensures
            !admin_spec(old(self).users(), user_id@) && entity_permission_spec(
                old(self).domains(),
                old(self).users(),
                user_id@,
                Seq::<char>::empty(),
                Permission::All,
            ) is Err ==> r == Err::<Workspace, KernelError>(error_of(entity_permission_spec(
                old(self).domains(),
                old(self).users(),
                user_id@,
                Seq::<char>::empty(),
                Permission::All,
            ))),
            !admin_spec(old(self).users(), user_id@) && entity_permission_spec(
                old(self).domains(),
                old(self).users(),
                user_id@,
                Seq::<char>::empty(),
                Permission::All,
            ) == Ok::<bool, KernelError>(false) ==> r == Err::<Workspace, KernelError>(KernelError::NoPermission),
            r is Ok <==> (admin_spec(old(self).users(), user_id@) || entity_permission_spec(
                old(self).domains(),
                old(self).users(),
                user_id@,
                Seq::<char>::empty(),
                Permission::All,
            ) == Ok::<bool, KernelError>(true)),
            r is Err ==> final(self).domains() == old(self).domains(),
            final(self).users() == old(self).users(),
            r matches Ok(w) ==> {
                &&& w.owner_id@ == user_id@
                &&& str_views(w.members@) == seq![user_id@]
                &&& w.offices@.len() == 0
                &&& w.name@ == name@
                &&& w.description@ == description@
                &&& w.metadata@ == (match metadata {
                    Some(m) => m@,
                    None => Seq::<u8>::empty(),
                })
                &&& final(self).domains().dom() == old(self).domains().dom().insert(w.id@)
                &&& is_workspace_at(final(self).domains(), w.id@)
                &&& same_workspace(workspace_at(final(self).domains(), w.id@), w)
                &&& forall|k: Seq<char>|
                    k != w.id@ && #[trigger] old(self).domains().contains_key(k) ==> final(self).domains()[k]
                        == old(self).domains()[k]
            },
    {
        if !self.is_admin(user_id) {
            let nothing: &str = "";
            proof {
                reveal_strlit("");
                assert(nothing@ =~= Seq::<char>::empty());
            }
            match self.check_entity_permission(user_id, nothing, Permission::All) {
                Ok(true) => {},
                Ok(false) => {
                    return Err(KernelError::NoPermission);
                },
                Err(e) => {
                    return Err(e);
                },
            }
        }
        let workspace_id = new_random_id();
        let mut members: Vec<String> = Vec::new();
        members.push(user_id.to_owned());
        let metadata = match metadata {
            Some(m) => m,
            None => Vec::new(),
        };
        let workspace = Workspace {
            id: workspace_id.clone(),
            name: name.to_owned(),
            description: description.to_owned(),
            owner_id: user_id.to_owned(),
            members,
            offices: Vec::new(),
            metadata,
        };
        proof {
            assert(str_views(workspace.members@) =~= seq![user_id@]);
        }
        let copy = workspace.clone();
        let mut tx = self.begin_write();
        tx.insert_domain(workspace_id, Domain::Workspace { workspace });
        self.end_write(tx, true);
        proof {
            assert(self.domains().dom() =~= old(self).domains().dom().insert(copy.id@));
        }
        Ok(copy)
    }

    /// The workspaces `user_id` may read: all of them for an administrator,
    /// otherwise those the user is a member of.
    pub fn list_workspaces(&self, user_id: &str) -> (r: Vec<Workspace>)
        ensures
            workspaces_listed(self.domains(), self.users(), user_id@, r@),
    {
        let is_admin = self.is_admin(user_id);
        let domains = &self.store().domains;
        let n = domains.len();
        let mut listed: Vec<Workspace> = Vec::new();
        let mut i: usize = 0;
        while i < n
            invariant
                n == domains.key_seq().len(),
                0 <= i <= n,
                domains@ == self.domains(),
                is_admin == admin_spec(self.users(), user_id@),
                forall|k: Seq<char>| #[trigger] domains@.contains_key(k) <==> domains.key_seq().contains(k),
                forall|a: int|
                    0 <= a < listed@.len() ==> visible_copy(self.domains(), self.users(), user_id@, #[trigger] listed@[a]),
                forall|j: int|
                    0 <= j < i ==> {
                        let k = #[trigger] domains.key_seq()[j];
                        is_workspace_at(self.domains(), k) && read_check(self.domains(), self.users(), user_id@, k)
                            is Ok ==> exists|a: int|
                            0 <= a < listed@.len() && same_workspace(listed@[a], workspace_at(self.domains(), k))
                    },
            decreases n - i,
        {
            let ghost key = domains.key_seq()[i as int];
            match domains.value_at(i) {
                Domain::Workspace { workspace } => {
                    if is_admin || contains_str(&workspace.members, user_id) {
                        let ghost before = listed@;
                        listed.push(workspace.clone());
                        proof {
                            assert(is_workspace_at(self.domains(), key));
                            assert forall|a: int|
                                0 <= a < listed@.len() implies visible_copy(
                                    self.domains(),
                                    self.users(),
                                    user_id@,
                                    #[trigger] listed@[a],
                                ) by {
                                if a < before.len() {
                                    assert(listed@[a] == before[a]);
                                } else {
                                    assert(same_workspace(listed@[a], workspace_at(self.domains(), key)));
                                }
                            }
                            assert forall|j: int|
                                0 <= j < i + 1 implies {
                                    let k = #[trigger] domains.key_seq()[j];
                                    is_workspace_at(self.domains(), k) && read_check(
                                        self.domains(),
                                        self.users(),
                                        user_id@,
                                        k,
                                    ) is Ok ==> exists|a: int|
                                        0 <= a < listed@.len() && same_workspace(
                                            listed@[a],
                                            workspace_at(self.domains(), k),
                                        )
                                } by {
                                let k = domains.key_seq()[j];
                                if j < i && is_workspace_at(self.domains(), k) && read_check(
                                    self.domains(),
                                    self.users(),
                                    user_id@,
                                    k,
                                ) is Ok {
                                    let a = choose|a: int|
                                        0 <= a < before.len() && same_workspace(
                                            before[a],
                                            workspace_at(self.domains(), k),
                                        );
                                    assert(listed@[a] == before[a]);
                                }
                                if j == i {
                                    assert(same_workspace(
                                        listed@[before.len() as int],
                                        workspace_at(self.domains(), k),
                                    ));
                                }
                            }
                        }
                    }
                },
                _ => {},
            }
            i = i + 1;
        }
        proof {
            assert forall|k: Seq<char>|
                #[trigger] is_workspace_at(self.domains(), k) && read_check(self.domains(), self.users(), user_id@, k)
                    is Ok implies exists|a: int|
                    0 <= a < listed@.len() && same_workspace(listed@[a], workspace_at(self.domains(), k)) by {
                let j = choose|j: int| 0 <= j < n && domains.key_seq()[j] == k;
                assert(domains.key_seq()[j] == k);
            }
        }
        listed
    }
    /// Delete workspace `workspace_id` with its offices and their rooms, on
    /// behalf of `user_id`: an administrator, or the owner, who must also be
    /// able to read the workspace.
    pub fn delete_workspace(&mut self, user_id: &str, workspace_id: &str) -> (r: Result<(), KernelError>)
        ensures
            owner_check(old(self).domains(), old(self).users(), user_id@, workspace_id@) is Err ==> r == Err::<
                (),
                KernelError,
            >(check_error(owner_check(old(self).domains(), old(self).users(), user_id@, workspace_id@))),
            owner_check(old(self).domains(), old(self).users(), user_id@, workspace_id@) is Ok && read_check(
                old(self).domains(),
                old(self).users(),
                user_id@,
                workspace_id@,
            ) is Err ==> r == Err::<(), KernelError>(
                check_error(read_check(old(self).domains(), old(self).users(), user_id@, workspace_id@)),
            ),
            r is Ok <==> (owner_check(old(self).domains(), old(self).users(), user_id@, workspace_id@) is Ok
                && read_check(old(self).domains(), old(self).users(), user_id@, workspace_id@) is Ok),
            r is Err ==> final(self).domains() == old(self).domains(),
            final(self).users() == old(self).users(),
            r is Ok ==> {
                let w = workspace_at(old(self).domains(), workspace_id@);
                &&& removed_within(old(self).domains(), final(self).domains(), w, workspace_id@)
                &&& !final(self).domains().contains_key(workspace_id@)
                &&& forall|o: Seq<char>| holds_str(w.offices@, o) ==> !#[trigger] final(self).domains().contains_key(o)
            },
    {
        match self.check_owner(user_id, workspace_id) {
            Ok(()) => {},
            Err(e) => {
                return Err(e);
            },
        }
        let workspace = match self.get_workspace(user_id, workspace_id) {
            Ok(w) => w,
            Err(e) => {
                return Err(e);
            },
        };
        let ghost old_domains = self.domains();
        let ghost w = workspace_at(old_domains, workspace_id@);
        let mut tx = self.begin_write();
        let mut i: usize = 0;
        while i < workspace.offices.len()
            invariant
                0 <= i <= workspace.offices@.len(),
                same_workspace(workspace, w),
                tx.users() == old(self).users(),
                removed_within(old_domains, tx.domains(), w, workspace_id@),
                forall|j: int| 0 <= j < i ==> !tx.domains().contains_key(#[trigger] workspace.offices@[j]@),
            decreases workspace.offices@.len() - i,
        {
            let office_id = &workspace.offices[i];
            let ghost oid = office_id@;
            proof {
                assert(holds_str(w.offices@, oid)) by {
                    assert(w.offices@[i as int]@ == oid);
                }
            }
            let rooms: Option<Vec<String>> = match tx.store().get_domain(office_id.as_str()) {
                Some(Domain::Office { office }) => Some(copy_strings(&office.rooms)),
                _ => None,
            };
            match rooms {
                Some(rooms) => {
                    let mut k: usize = 0;
                    while k < rooms.len()
                        invariant
                            0 <= k <= rooms@.len(),
                            old_domains.contains_key(oid),
                            forall|x: int| 0 <= x < rooms@.len() ==> office_lists_room(old_domains[oid], #[trigger] rooms@[x]@),
                            holds_str(w.offices@, oid),
                            tx.users() == old(self).users(),
                            removed_within(old_domains, tx.domains(), w, workspace_id@),
                            forall|j: int| 0 <= j < i ==> !tx.domains().contains_key(#[trigger] workspace.offices@[j]@),
                        decreases rooms@.len() - k,
                    {
                        let ghost rid = rooms@[k as int]@;
                        let _ = tx.remove_domain(rooms[k].as_str());
                        proof {
                            assert(office_lists_room(old_domains[oid], rid));
                            assert(in_workspace_subtree(old_domains, w, workspace_id@, rid));
                        }
                        k = k + 1;
                    }
                    let _ = tx.remove_domain(office_id.as_str());
                },
                None => {
                    let _ = tx.remove_domain(office_id.as_str());
                },
            }
            proof {
                assert forall|j: int| 0 <= j < i + 1 implies !tx.domains().contains_key(
                    #[trigger] workspace.offices@[j]@,
                ) by {
                    if j == i {
                        assert(workspace.offices@[j]@ == oid);
                    }
                }
            }
            i = i + 1;
        }
        let _ = tx.remove_domain(workspace_id);
        self.end_write(tx, true);
        proof {
            assert forall|o: Seq<char>| holds_str(w.offices@, o) implies !#[trigger] self.domains().contains_key(o) by {
                let j = choose|j: int| 0 <= j < w.offices@.len() && w.offices@[j]@ == o;
                assert(workspace.offices@[j]@ == o);
            }
        }
        Ok(())
    }
}

/// A workspace can be read by everyone on its member list, and by
/// administrators.
pub proof fn law_members_read_their_workspace(
    domains: Map<Seq<char>, Domain>,
    users: Map<Seq<char>, User>,
    user: Seq<char>,
    id: Seq<char>,
)
    requires
        is_workspace_at(domains, id),
        admin_spec(users, user) || exists|i: int|
            0 <= i < workspace_at(domains, id).members@.len() && workspace_at(domains, id).members@[i]@ == user,
    ensures
        read_check(domains, users, user, id) is Ok,
{
}

} // verus!
