//! What to tell a client when a workspace lookup fails.
//!
//! The decision is made on exact equality with the two messages the lookup
//! produces, never on a substring of them.

use vstd::prelude::*;
use crate::text::{concat, str_eq};
use crate::response::WorkspaceProtocolResponse;

verus! {

/// The workspace exists; the caller is not in it.
pub const NOT_A_MEMBER: &'static str = "Permission denied: Not a member of this workspace";
/// No workspace on this server has the requested id.
pub const NO_SUCH_WORKSPACE: &'static str = "Workspace not found";

/// Why a workspace lookup failed, as a fact rather than a sentence.
#[derive(Debug, Clone, Copy, PartialEq, Eq, Structural)]
pub enum LookupFailure {
    NoSuchWorkspace,
    NotAMember,
    Other,
}

/// The classification of an error message, as a spec.
pub open spec fn classify_spec(message: Seq<char>) -> LookupFailure {
    if message == NOT_A_MEMBER@ {
        LookupFailure::NotAMember
    } else if message == NO_SUCH_WORKSPACE@ {
        LookupFailure::NoSuchWorkspace
    } else {
        LookupFailure::Other
    }
}

/// Read one of the two known failures out of an error message.
pub fn classify(message: &str) -> (r: LookupFailure)
    ensures
        r == classify_spec(message@),
{
    if str_eq(message, NOT_A_MEMBER) {
        LookupFailure::NotAMember
    } else if str_eq(message, NO_SUCH_WORKSPACE) {
        LookupFailure::NoSuchWorkspace
    } else {
        LookupFailure::Other
    }
}

/// Prefix of the message for a workspace that does not exist.
pub const NO_SUCH_WORKSPACE_PREFIX: &'static str = "No such workspace: ";
/// Prefix of the message for a caller outside the workspace.
pub const NOT_A_MEMBER_PREFIX: &'static str = "You are not a member of this workspace: ";
/// Prefix of the message for any other failure.
pub const LOOKUP_FAILED_PREFIX: &'static str = "Failed to get workspace: ";

/// Whether a failed lookup is answered as an uninitialised server.
pub open spec fn uninitialised_answer(is_root: bool, failure: LookupFailure) -> bool {
    is_root && failure != LookupFailure::Other
}

/// Whether a response is the uninitialised-server answer.
pub open spec fn says_uninitialised(r: WorkspaceProtocolResponse) -> bool {
    r is WorkspaceNotInitialized
}

/// The response for a failed workspace lookup. Only a lookup of the root
/// workspace that failed for want of the workspace or of membership is
/// answered as an uninitialised server; everything else is an error that
/// carries `detail`.
pub fn response_for(is_root: bool, failure: LookupFailure, detail: &str) -> (r: WorkspaceProtocolResponse)
    ensures
        says_uninitialised(r) <==> uninitialised_answer(is_root, failure),
        !says_uninitialised(r) ==> (r matches WorkspaceProtocolResponse::Error(msg) && msg@ == (
        match failure {
            LookupFailure::NoSuchWorkspace => NO_SUCH_WORKSPACE_PREFIX@,
            LookupFailure::NotAMember => NOT_A_MEMBER_PREFIX@,
            LookupFailure::Other => LOOKUP_FAILED_PREFIX@,
        }) + detail@),
{
    match failure {
        LookupFailure::NoSuchWorkspace => {
            if is_root {
                WorkspaceProtocolResponse::WorkspaceNotInitialized
            } else {
                WorkspaceProtocolResponse::Error(concat(NO_SUCH_WORKSPACE_PREFIX, detail))
            }
        },
        LookupFailure::NotAMember => {
            if is_root {
                WorkspaceProtocolResponse::WorkspaceNotInitialized
            } else {
                WorkspaceProtocolResponse::Error(concat(NOT_A_MEMBER_PREFIX, detail))
            }
        },
        LookupFailure::Other => WorkspaceProtocolResponse::Error(concat(LOOKUP_FAILED_PREFIX, detail)),
    }
}

/// An error message leads to the uninitialised-server answer only when it is
/// exactly one of the two known lookup failures and the lookup was of the root
/// workspace; a message that merely contains their words never does.
pub proof fn law_uninitialised_needs_exact_message(is_root: bool, message: Seq<char>)
    requires
        uninitialised_answer(is_root, classify_spec(message)),
    ensures
        is_root,
        message == NOT_A_MEMBER@ || message == NO_SUCH_WORKSPACE@,
{
}

} // verus!
