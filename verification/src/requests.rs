//! The answer to a request of the workspace protocol, for the requests whose
//! work the kernel does itself.
//!
//! A request names the workspace or domain it is about, or stands for the
//! root workspace when it names none. Reading another account's record or
//! permissions takes being that account or an administrator; listing a
//! domain's members takes being one of them or an administrator. Records are
//! sent as the requester may see them: the owner's profile choice decides
//! which profile details a stranger is sent, and only an administrator is
//! sent someone else's permissions. What the server cannot know without the
//! account store (who is whose contact, and each account's connection id)
//! is handed in.

use vstd::prelude::*;
use std::collections::HashSet;
use crate::connection::{may_list_members, may_view_member_record, requested_or_root};
use crate::domain::{Domain, Workspace};
use crate::kernel::{WorkspaceServerKernel, add_user_outcome, remove_user_outcome};
use crate::lookup::{LOOKUP_FAILED_PREFIX, LookupFailure, NO_SUCH_WORKSPACE_PREFIX, NOT_A_MEMBER_PREFIX, classify, classify_spec, response_for, uninitialised_answer, says_uninitialised};
use crate::members::{recorded, same_user};
use crate::permissions::{Permission, UserRole};
use crate::profile::{Viewer, metadata_for_viewer_spec, user_for_viewer};
use crate::response::WorkspaceProtocolResponse;
use crate::store::{KernelError, admin_spec, entity_permission_spec};
use crate::strmap::StrMap;
use crate::text::concat;
use crate::tree::WORKSPACE_ROOT_ID;
use crate::user::{User, meta_view, perm_view};
use crate::workspace_ops::{check_error, read_check, same_workspace, workspace_at, workspaces_listed};

verus! {

/// A request of the workspace protocol.
#[derive(Debug)]
pub enum WorkspaceProtocolRequest {
    GetWorkspace { workspace_id: Option<String> },
    ListWorkspaces,
    AddMember { user_id: String, domain_id: Option<String>, role: UserRole },
    RemoveMember { user_id: String, domain_id: Option<String> },
    GetMember { user_id: String },
    ListMembers { domain_id: Option<String> },
    GetUserPermissions { user_id: String, domain_id: String },
    Message,
}

/// What the account store tells about the requester and the accounts a
/// request is about: the connection ids the requester has registered with
/// as contacts, and each account's connection id.
pub struct RequestInputs {
    pub contacts: HashSet<u64>,
    pub cids: StrMap<u64>,
}

pub const MEMBER_ADDED: &'static str = "Member added successfully";
pub const MEMBER_REMOVED: &'static str = "Member removed successfully";
pub const ADD_FAILED: &'static str = "Failed to add member: ";
pub const REMOVE_FAILED: &'static str = "Failed to remove member: ";
pub const MEMBER_RECORD_DENIED: &'static str =
    "Permission denied: Can only view your own member record or must be admin";
pub const PERMISSIONS_DENIED: &'static str = "Permission denied: Can only view own permissions or must be admin";
pub const ROSTER_DENIED: &'static str = "Permission denied: not a member of this domain";
pub const MEMBER_MISSING: &'static str = "Member not found";
pub const USER_MISSING: &'static str = "User not found";
pub const DOMAIN_MISSING: &'static str = "Domain not found";
pub const THEMES_DENIED: &'static str = "Permission denied: Themes required";
pub const MESSAGE_REFUSED: &'static str =
    "Message command is not supported by server. Only peers may receive this type";

/// The characters of an optional string.
pub open spec fn named(o: Option<String>) -> Option<Seq<char>> {
    match o {
        Some(s) => Some(s@),
        None => None,
    }
}

/// The id a request about an optional domain is about: the one it names, or
/// the root workspace.
pub open spec fn target_of(o: Option<String>) -> Seq<char> {
    match o {
        Some(s) => s@,
        None => WORKSPACE_ROOT_ID@,
    }
}

/// `r` is the error whose message is exactly `m`.
pub open spec fn error_is(r: WorkspaceProtocolResponse, m: Seq<char>) -> bool {
    r matches WorkspaceProtocolResponse::Error(t) && t@ == m
}

/// `r` is the record `orig` as the account `viewer` is sent it, the viewer
/// being an administrator or not, with `contacts` its contacts and `cid` the
/// record owner's connection id.
pub open spec fn sent_as(orig: User, viewer: Seq<char>, is_admin: bool, contacts: Set<u64>, cid: u64, r: User) -> bool {
    if orig.id@ == viewer {
        same_user(r, orig)
    } else {
        &&& r.id == orig.id
        &&& r.name == orig.name
        &&& r.role == orig.role
        &&& meta_view(r.metadata@) == metadata_for_viewer_spec(
            meta_view(orig.metadata@),
            Viewer::Other { is_admin, is_contact: contacts.contains(cid) },
        )
        &&& (is_admin ==> perm_view(r.permissions@) == perm_view(orig.permissions@))
        &&& (!is_admin ==> r.permissions@ == Map::<Seq<char>, crate::permissions::PermissionSet>::empty())
    }
}

/// The answer to reading the workspace `id` for `user`: the workspace, or
/// the answer a failed lookup gets.
pub open spec fn workspace_answer(
    domains: Map<Seq<char>, Domain>,
    users: Map<Seq<char>, User>,
    user: Seq<char>,
    id: Seq<char>,
    r: WorkspaceProtocolResponse,
) -> bool {
    let check = read_check(domains, users, user, id);
    if check is Ok {
        r matches WorkspaceProtocolResponse::Workspace(w) && same_workspace(w, workspace_at(domains, id))
    } else {
        let e = check_error(check);
        let failure = classify_spec(e.message_spec());
        &&& says_uninitialised(r) <==> uninitialised_answer(id == WORKSPACE_ROOT_ID@, failure)
        &&& !says_uninitialised(r) ==> error_is(
            r,
            (match failure {
                LookupFailure::NoSuchWorkspace => NO_SUCH_WORKSPACE_PREFIX@,
                LookupFailure::NotAMember => NOT_A_MEMBER_PREFIX@,
                LookupFailure::Other => LOOKUP_FAILED_PREFIX@,
            }) + e.message_spec(),
        )
    }
}

/// What `request` of `user` does to the kernel's domains and users (`od`,
/// `ou` before, `nd`, `nu` after), given what the account store tells
/// (`contacts`, `cids`), and the answer `r`.
pub open spec fn request_outcome(
    od: Map<Seq<char>, Domain>,
    ou: Map<Seq<char>, User>,
    nd: Map<Seq<char>, Domain>,
    nu: Map<Seq<char>, User>,
    user: Seq<char>,
    request: WorkspaceProtocolRequest,
    contacts: Set<u64>,
    cids: Map<Seq<char>, u64>,
    r: WorkspaceProtocolResponse,
) -> bool {
    let is_admin = admin_spec(ou, user);
    match request {
        WorkspaceProtocolRequest::GetWorkspace { workspace_id } => nd == od && nu == ou && workspace_answer(
            od,
            ou,
            user,
            target_of(workspace_id),
            r,
        ),
        WorkspaceProtocolRequest::ListWorkspaces => {
            &&& nd == od
            &&& nu == ou
            &&& r matches WorkspaceProtocolResponse::Workspaces(v) && workspaces_listed(od, ou, user, v@)
        },
        WorkspaceProtocolRequest::AddMember { user_id, domain_id, role } => exists|res: Result<(), KernelError>|
            #[trigger] add_user_outcome(od, ou, nd, nu, user, user_id@, target_of(domain_id), role, res) && match res {
                Ok(_) => r matches WorkspaceProtocolResponse::Success(m) && m@ == MEMBER_ADDED@,
                Err(e) => error_is(r, ADD_FAILED@ + e.message_spec()),
            },
        WorkspaceProtocolRequest::RemoveMember { user_id, domain_id } => exists|res: Result<(), KernelError>|
            #[trigger] remove_user_outcome(od, ou, nd, nu, user, user_id@, target_of(domain_id), res) && match res {
                Ok(_) => r matches WorkspaceProtocolResponse::Success(m) && m@ == MEMBER_REMOVED@,
                Err(e) => error_is(r, REMOVE_FAILED@ + e.message_spec()),
            },
        WorkspaceProtocolRequest::GetMember { user_id } => {
            &&& nd == od
            &&& nu == ou
            &&& if user != user_id@ && !is_admin {
                error_is(r, MEMBER_RECORD_DENIED@)
            } else if !ou.contains_key(user_id@) {
                error_is(r, MEMBER_MISSING@)
            } else {
                r matches WorkspaceProtocolResponse::Member(m) && sent_as(
                    ou[user_id@],
                    user,
                    is_admin,
                    contacts,
                    cids[ou[user_id@].id@],
                    m,
                )
            }
        },
        WorkspaceProtocolRequest::ListMembers { domain_id } => {
            let id = target_of(domain_id);
            let is_member = od.contains_key(id) && od[id].has_member(user);
            &&& nd == od
            &&& nu == ou
            &&& if !is_admin && !is_member {
                error_is(r, ROSTER_DENIED@)
            } else if !od.contains_key(id) {
                error_is(r, DOMAIN_MISSING@)
            } else {
                let ids = recorded(ou, od[id].members_view());
                r matches WorkspaceProtocolResponse::Members(v) && v@.len() == ids.len() && forall|i: int|
                    0 <= i < v@.len() ==> sent_as(ou[ids[i]], user, is_admin, contacts, cids[ou[ids[i]].id@], #[trigger] v@[i])
            }
        },
        WorkspaceProtocolRequest::GetUserPermissions { user_id, domain_id } => {
            &&& nd == od
            &&& nu == ou
            &&& if user != user_id@ && !is_admin {
                error_is(r, PERMISSIONS_DENIED@)
            } else if !ou.contains_key(user_id@) {
                error_is(r, USER_MISSING@)
            } else {
                r matches WorkspaceProtocolResponse::UserPermissions { domain_id: d, user_id: u, role, permissions } && {
                    &&& d@ == domain_id@
                    &&& u@ == user_id@
                    &&& role == ou[user_id@].role
                    &&& permissions@ == crate::kernel::granted_order(
                        od,
                        ou,
                        user_id@,
                        domain_id@,
                        crate::permissions::all_permissions(),
                    )
                    &&& permissions@.no_duplicates()
                    &&& forall|p: Permission|
                        #[trigger] permissions@.contains(p) <==> entity_permission_spec(od, ou, user_id@, domain_id@, p)
                            == Ok::<bool, KernelError>(true)
                }
            }
        },
        WorkspaceProtocolRequest::Message => nd == od && nu == ou && error_is(r, MESSAGE_REFUSED@),
    }
}

/// Every id `recorded` keeps has a record.
proof fn lemma_recorded_have_records(users: Map<Seq<char>, User>, ids: Seq<String>)
    ensures
        forall|j: int| 0 <= j < recorded(users, ids).len() ==> users.contains_key(#[trigger] recorded(users, ids)[j]),
    decreases ids.len(),
{
    if ids.len() > 0 {
        let rest = recorded(users, ids.drop_last());
        lemma_recorded_have_records(users, ids.drop_last());
        assert forall|j: int| 0 <= j < rest.len() implies users.contains_key(#[trigger] rest.push(ids.last()@)[j]) by {
            assert(rest.push(ids.last()@)[j] == rest[j]);
        }
    }
}

/// `user` as `viewer_id` is sent it, with the owner's connection id taken
/// from `inputs`.
fn sent_copy(user: User, viewer_id: &str, is_admin: bool, inputs: &RequestInputs) -> (r: User)
    requires
        inputs.cids@.contains_key(user.id@),
    ensures
        user.id@ == viewer_id@ ==> r == user,
        user.id@ != viewer_id@ ==> sent_as(user, viewer_id@, is_admin, inputs.contacts@, inputs.cids@[user.id@], r),
{
    let cid = match inputs.cids.get(user.id.as_str()) {
        Some(c) => *c,
        None => 0,
    };
    user_for_viewer(user, viewer_id, is_admin, &inputs.contacts, cid)
}

/// The workspace a theme update of `actor_user_id` may change: the one
/// `workspace_id` names, or the root workspace. A theme changes how a
/// workspace looks, not what it is, so the update takes the Themes permission
/// there; where the actor lacks it, or the check itself fails, the answer is
/// the refusal.
pub fn theme_update_target(
    kernel: &WorkspaceServerKernel,
    actor_user_id: &str,
    workspace_id: Option<&str>,
) -> (r: Result<String, WorkspaceProtocolResponse>)
    ensures
        ({
            let target = match workspace_id {
                Some(w) => w@,
                None => WORKSPACE_ROOT_ID@,
            };
            let allowed = entity_permission_spec(kernel.domains(), kernel.users(), actor_user_id@, target, Permission::Themes)
                == Ok::<bool, KernelError>(true);
            match r {
                Ok(t) => allowed && t@ == target,
                Err(answer) => !allowed && error_is(answer, THEMES_DENIED@),
            }
        }),
{
    let target = requested_or_root(workspace_id);
    let allowed = match kernel.check_entity_permission(actor_user_id, target, Permission::Themes) {
        Ok(b) => b,
        Err(_) => false,
    };
    if allowed {
        Ok(target.to_owned())
    } else {
        Err(WorkspaceProtocolResponse::Error(THEMES_DENIED.to_owned()))
    }
}

/// Answer `request` of `actor_user_id`: run it on the kernel and say what
/// came of it.
pub fn answer_request(
    kernel: &mut WorkspaceServerKernel,
    actor_user_id: &str,
    request: WorkspaceProtocolRequest,
    inputs: &RequestInputs,
) -> (r: WorkspaceProtocolResponse)
    requires
        forall|k: Seq<char>|
            #[trigger] old(kernel).users().contains_key(k) ==> inputs.cids@.contains_key(old(kernel).users()[k].id@),
    ensures
        request_outcome(
            old(kernel).domains(),
            old(kernel).users(),
            final(kernel).domains(),
            final(kernel).users(),
            actor_user_id@,
            request,
            inputs.contacts@,
            inputs.cids@,
            r,
        ),
{
    match request {
        WorkspaceProtocolRequest::GetWorkspace { workspace_id } => {
            let target = requested_or_root(match &workspace_id {
                Some(w) => Some(w.as_str()),
                None => None,
            });
            proof {
                assert(target@ == target_of(workspace_id));
            }
            match kernel.get_workspace(actor_user_id, target) {
                Ok(w) => WorkspaceProtocolResponse::Workspace(w),
                Err(e) => {
                    let detail = e.message();
                    let is_root = crate::text::str_eq(target, WORKSPACE_ROOT_ID);
                    response_for(is_root, classify(detail), detail)
                },
            }
        },
        WorkspaceProtocolRequest::ListWorkspaces => WorkspaceProtocolResponse::Workspaces(
            kernel.list_workspaces(actor_user_id),
        ),
        WorkspaceProtocolRequest::AddMember { user_id, domain_id, role } => {
            let target = requested_or_root(match &domain_id {
                Some(d) => Some(d.as_str()),
                None => None,
            });
            proof {
                assert(target@ == target_of(domain_id));
            }
            match kernel.add_user_to_domain(actor_user_id, user_id.as_str(), target, role) {
                Ok(()) => WorkspaceProtocolResponse::Success(MEMBER_ADDED.to_owned()),
                Err(e) => WorkspaceProtocolResponse::Error(concat(ADD_FAILED, e.message())),
            }
        },
        WorkspaceProtocolRequest::RemoveMember { user_id, domain_id } => {
            let target = requested_or_root(match &domain_id {
                Some(d) => Some(d.as_str()),
                None => None,
            });
            proof {
                assert(target@ == target_of(domain_id));
            }
            match kernel.remove_user_from_domain(actor_user_id, user_id.as_str(), target) {
                Ok(()) => WorkspaceProtocolResponse::Success(MEMBER_REMOVED.to_owned()),
                Err(e) => WorkspaceProtocolResponse::Error(concat(REMOVE_FAILED, e.message())),
            }
        },
        WorkspaceProtocolRequest::GetMember { user_id } => {
            let is_admin = kernel.is_admin(actor_user_id);
            if !may_view_member_record(actor_user_id, user_id.as_str(), is_admin) {
                return WorkspaceProtocolResponse::Error(MEMBER_RECORD_DENIED.to_owned());
            }
            match kernel.get_user(user_id.as_str()) {
                Some(u) => {
                    let sent = sent_copy(u, actor_user_id, is_admin, inputs);
                    WorkspaceProtocolResponse::Member(sent)
                },
                None => WorkspaceProtocolResponse::Error(MEMBER_MISSING.to_owned()),
            }
        },
        WorkspaceProtocolRequest::ListMembers { domain_id } => {
            let target = requested_or_root(match &domain_id {
                Some(d) => Some(d.as_str()),
                None => None,
            });
            let is_admin = kernel.is_admin(actor_user_id);
            let is_member = match kernel.is_member_of_domain(actor_user_id, target) {
                Ok(b) => b,
                Err(_) => false,
            };
            if !may_list_members(is_admin, is_member) {
                return WorkspaceProtocolResponse::Error(ROSTER_DENIED.to_owned());
            }
            let ids = match kernel.store().get_domain(target) {
                Some(d) => d.members(),
                None => {
                    return WorkspaceProtocolResponse::Error(DOMAIN_MISSING.to_owned());
                },
            };
            let records = kernel.records_of(ids);
            let ghost rec = recorded(kernel.users(), ids@);
            proof {
                lemma_recorded_have_records(kernel.users(), ids@);
            }
            let mut sent: Vec<User> = Vec::new();
            let mut i: usize = 0;
            while i < records.len()
                invariant
                    0 <= i <= records@.len(),
                    records@.len() == rec.len(),
                    forall|j: int| 0 <= j < records@.len() ==> same_user(#[trigger] records@[j], kernel.users()[rec[j]]),
                    forall|k: Seq<char>|
                        #[trigger] kernel.users().contains_key(k) ==> inputs.cids@.contains_key(kernel.users()[k].id@),
                    forall|j: int| 0 <= j < rec.len() ==> kernel.users().contains_key(#[trigger] rec[j]),
                    sent@.len() == i,
                    forall|j: int|
                        0 <= j < i ==> sent_as(
                            kernel.users()[rec[j]],
                            actor_user_id@,
                            is_admin,
                            inputs.contacts@,
                            inputs.cids@[kernel.users()[rec[j]].id@],
                            #[trigger] sent@[j],
                        ),
                decreases records@.len() - i,
            {
                let u = records[i].clone();
                proof {
                    assert(kernel.users().contains_key(rec[i as int]));
                    assert(same_user(records@[i as int], kernel.users()[rec[i as int]]));
                }
                let s = sent_copy(u, actor_user_id, is_admin, inputs);
                sent.push(s);
                i = i + 1;
            }
            WorkspaceProtocolResponse::Members(sent)
        },
        WorkspaceProtocolRequest::GetUserPermissions { user_id, domain_id } => {
            let is_admin = kernel.is_admin(actor_user_id);
            if !may_view_member_record(actor_user_id, user_id.as_str(), is_admin) {
                return WorkspaceProtocolResponse::Error(PERMISSIONS_DENIED.to_owned());
            }
            let role = match kernel.get_user(user_id.as_str()) {
                Some(u) => u.role,
                None => {
                    return WorkspaceProtocolResponse::Error(USER_MISSING.to_owned());
                },
            };
            match kernel.effective_permissions(user_id.as_str(), domain_id.as_str()) {
                Ok(permissions) => WorkspaceProtocolResponse::UserPermissions {
                    domain_id,
                    user_id,
                    role,
                    permissions,
                },
                Err(_) => WorkspaceProtocolResponse::Error(USER_MISSING.to_owned()),
            }
        },
        WorkspaceProtocolRequest::Message => WorkspaceProtocolResponse::Error(MESSAGE_REFUSED.to_owned()),
    }
}

} // verus!
