//! Setting a server up: the kernel it starts with, and the root workspace
//! created on first start, unowned until the first user who presents the
//! master password claims it.

use vstd::prelude::*;
use crate::domain::{Domain, Workspace};
use crate::kernel::WorkspaceServerKernel;
use crate::permissions::{PermissionSet, UserRole};
use crate::store::Store;
use crate::tree::WORKSPACE_ROOT_ID;
use crate::user::{MetadataValue, User};

verus! {

/// The id of the administrator a default kernel starts with.
pub const DEFAULT_ADMIN_ID: &'static str = "admin";

/// The name of the administrator a default kernel starts with.
pub const DEFAULT_ADMIN_NAME: &'static str = "Administrator";

/// The owner of a workspace nobody has claimed yet.
pub const UNASSIGNED_OWNER: &'static str = "";

/// The name of the root workspace.
pub const ROOT_WORKSPACE_NAME: &'static str = "Root Workspace";

/// The description of the root workspace.
pub const ROOT_WORKSPACE_DESCRIPTION: &'static str = "The main workspace for this instance.";

/// Whether `d` is the root workspace as first created: under the root id,
/// unowned, with no members, offices or metadata.
pub open spec fn unclaimed_root(d: Domain) -> bool {
    match d {
        Domain::Workspace { workspace: w } => {
            &&& w.id@ == WORKSPACE_ROOT_ID@
            &&& w.name@ == ROOT_WORKSPACE_NAME@
            &&& w.description@ == ROOT_WORKSPACE_DESCRIPTION@
            &&& w.owner_id@ == UNASSIGNED_OWNER@
            &&& w.members@.len() == 0
            &&& w.offices@.len() == 0
            &&& w.metadata@.len() == 0
        },
        _ => false,
    }
}

impl Default for WorkspaceServerKernel {
    /// A kernel without domains whose only user is the administrator.
    fn default() -> (k: WorkspaceServerKernel)
        ensures
            k.domains() == Map::<Seq<char>, Domain>::empty(),
            k.users().dom() == set![DEFAULT_ADMIN_ID@],
            k.users()[DEFAULT_ADMIN_ID@].id@ == DEFAULT_ADMIN_ID@,
            k.users()[DEFAULT_ADMIN_ID@].name@ == DEFAULT_ADMIN_NAME@,
            k.users()[DEFAULT_ADMIN_ID@].role == UserRole::Admin,
            k.users()[DEFAULT_ADMIN_ID@].permissions@ == Map::<Seq<char>, PermissionSet>::empty(),
            k.users()[DEFAULT_ADMIN_ID@].metadata@ == Map::<Seq<char>, MetadataValue>::empty(),
    {
        let mut store = Store::new();
        let admin = User::new(DEFAULT_ADMIN_ID.to_owned(), DEFAULT_ADMIN_NAME.to_owned(), UserRole::Admin);
        store.users.insert(DEFAULT_ADMIN_ID.to_owned(), admin);
        proof {
            assert(store.users@.dom() =~= set![DEFAULT_ADMIN_ID@]);
        }
        WorkspaceServerKernel::new(store)
    }
}

impl WorkspaceServerKernel {
    /// Create the root workspace, unowned and empty, when there is none;
    /// whether it was created. The users are never touched.
    pub fn ensure_root_workspace(&mut self) -> (created: bool)
        ensures
            created == !old(self).domains().contains_key(WORKSPACE_ROOT_ID@),
            final(self).users() == old(self).users(),
            !created ==> final(self).domains() == old(self).domains(),
            created ==> final(self).domains() == old(self).domains().insert(
                WORKSPACE_ROOT_ID@,
                final(self).domains()[WORKSPACE_ROOT_ID@],
            ),
            created ==> unclaimed_root(final(self).domains()[WORKSPACE_ROOT_ID@]),
            final(self).domains().contains_key(WORKSPACE_ROOT_ID@),
    {
        if self.store().get_domain(WORKSPACE_ROOT_ID).is_some() {
            return false;
        }
        let root = Workspace {
            id: WORKSPACE_ROOT_ID.to_owned(),
            name: ROOT_WORKSPACE_NAME.to_owned(),
            description: ROOT_WORKSPACE_DESCRIPTION.to_owned(),
            owner_id: UNASSIGNED_OWNER.to_owned(),
            members: Vec::new(),
            offices: Vec::new(),
            metadata: Vec::new(),
        };
        let ghost made = Domain::Workspace { workspace: root };
        let mut tx = self.begin_write();
        tx.insert_domain(WORKSPACE_ROOT_ID.to_owned(), Domain::Workspace { workspace: root });
        self.end_write(tx, true);
        proof {
            assert(self.domains()[WORKSPACE_ROOT_ID@] == made);
        }
        true
    }
}

} // verus!
