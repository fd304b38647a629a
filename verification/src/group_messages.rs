//! The decisions around a group channel's message store, which lives
//! outside the kernel.
//!
//! Editing or deleting a message first looks it up: a message that is not
//! there is answered "Message not found", and a failed lookup names the
//! failure. Only the sender, or an administrator, may then change it. The
//! change itself may again find the message gone, or fail. A change that
//! went through is reported to the requester and broadcast to every other
//! connection.

use vstd::prelude::*;
use crate::connection::may_change_message;
use crate::kernel::WorkspaceServerKernel;
use crate::response::WorkspaceProtocolResponse;
use crate::store::admin_spec;
use crate::text::concat;

verus! {

/// Which change a request asks for.
#[derive(Debug, Clone, Copy, PartialEq, Eq, Structural)]
pub enum MessageChange {
    Edit,
    Delete,
}

pub const MESSAGE_NOT_FOUND: &'static str = "Message not found";
pub const LOOKUP_FAILED: &'static str = "Failed to get message: ";
pub const EDIT_DENIED: &'static str = "Permission denied: Can only edit own messages";
pub const DELETE_DENIED: &'static str = "Permission denied: Can only delete own messages";
pub const EDIT_FAILED: &'static str = "Failed to edit message: ";
pub const DELETE_FAILED: &'static str = "Failed to delete message: ";

/// `r` is the error whose message is exactly `m`.
pub open spec fn answered_error(r: WorkspaceProtocolResponse, m: Seq<char>) -> bool {
    r matches WorkspaceProtocolResponse::Error(t) && t@ == m
}

/// Whether `actor` may go on to make `change` to a message, given what the
/// lookup of the message found: `Ok(Some(sender))` for a message sent by
/// `sender`, `Ok(None)` for no such message, `Err(e)` for a failed lookup.
/// When it may not, the answer to send.
pub fn may_go_on(
    kernel: &WorkspaceServerKernel,
    actor: &str,
    change: MessageChange,
    found: Result<Option<String>, String>,
) -> (r: Result<(), WorkspaceProtocolResponse>)
    ensures
        match found {
            Err(e) => r matches Err(a) && answered_error(a, LOOKUP_FAILED@ + e@),
            Ok(None) => r matches Err(a) && answered_error(a, MESSAGE_NOT_FOUND@),
            Ok(Some(sender)) => if sender@ == actor@ || admin_spec(kernel.users(), actor@) {
                r is Ok
            } else {
                r matches Err(a) && answered_error(
                    a,
                    match change {
                        MessageChange::Edit => EDIT_DENIED@,
                        MessageChange::Delete => DELETE_DENIED@,
                    },
                )
            },
        },
{
    match found {
        Err(e) => Err(WorkspaceProtocolResponse::Error(concat(LOOKUP_FAILED, e.as_str()))),
        Ok(None) => Err(WorkspaceProtocolResponse::Error(MESSAGE_NOT_FOUND.to_owned())),
        Ok(Some(sender)) => {
            let admin = kernel.is_admin(actor);
            if may_change_message(actor, sender.as_str(), admin) {
                Ok(())
            } else {
                Err(
                    WorkspaceProtocolResponse::Error(
                        match change {
                            MessageChange::Edit => EDIT_DENIED.to_owned(),
                            MessageChange::Delete => DELETE_DENIED.to_owned(),
                        },
                    ),
                )
            }
        },
    }
}

/// What to answer a change, given what the store did: `Ok(true)` when it
/// changed the message, `Ok(false)` when the message was gone, `Err(e)` when
/// it failed. `None` means the change went through: it is answered with its
/// notification, which is broadcast to every other connection too.
pub fn change_refusal(change: MessageChange, done: Result<bool, String>) -> (r: Option<WorkspaceProtocolResponse>)
    ensures
        match done {
            Ok(true) => r is None,
            Ok(false) => r matches Some(a) && answered_error(a, MESSAGE_NOT_FOUND@),
            Err(e) => r matches Some(a) && answered_error(
                a,
                match change {
                    MessageChange::Edit => EDIT_FAILED@,
                    MessageChange::Delete => DELETE_FAILED@,
                } + e@,
            ),
        },
{
    match done {
        Ok(true) => None,
        Ok(false) => Some(WorkspaceProtocolResponse::Error(MESSAGE_NOT_FOUND.to_owned())),
        Err(e) => {
            let prefix = match change {
                MessageChange::Edit => EDIT_FAILED,
                MessageChange::Delete => DELETE_FAILED,
            };
            Some(WorkspaceProtocolResponse::Error(concat(prefix, e.as_str())))
        },
    }
}

} // verus!
