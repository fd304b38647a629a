//! One client connection, as a sequence of events and the kernel's answers.
//!
//! When a client connects, the account it signed in as is enrolled in the
//! root workspace (a new record is named after its registered full name) and
//! a placeholder name on an existing record is repaired. Every message it
//! then sends first spends a token of its connection id's rate budget: over
//! budget, it is answered that it is rate limited and is never read. Only a
//! message within budget is read: one that did not parse is answered with the
//! parse failure; one that did is handed on to be dispatched for the
//! connected account. A broadcast
//! reaches the connection unless the connection sent the change it reports.
//! The reading, parsing, dispatching and sending are done outside.

use vstd::prelude::*;
use crate::connection::{BroadcastMessage, RATE_LIMITED_MESSAGE, rate_limited_response};
use crate::display_name::repair_outcome;
use crate::domain::Domain;
use crate::kernel::{WorkspaceServerKernel, enrol_outcome};
use crate::rate_limiter::{Bucket, RateLimiter, consume_model};
use crate::response::WorkspaceProtocolResponse;
use crate::store::KernelError;
use crate::text::concat;
use crate::user::User;

verus! {

/// What is known of a connection: its id and the account signed in on it,
/// once it has connected.
#[derive(Debug)]
pub struct ConnectionState {
    pub cid: Option<u64>,
    pub user_id: Option<String>,
}

impl ConnectionState {
    /// The connection id and the account's characters, once connected.
    pub open spec fn view(&self) -> (Option<u64>, Option<Seq<char>>) {
        (
            self.cid,
            match self.user_id {
                Some(u) => Some(u@),
                None => None,
            },
        )
    }

    /// A connection on which nothing has happened yet.
    pub fn new() -> (s: ConnectionState)
        ensures
            s@ == (None::<u64>, None::<Seq<char>>),
    {
        ConnectionState { cid: None, user_id: None }
    }
}

/// Something that happened on a connection.
#[derive(Debug)]
pub enum ConnectionEvent {
    /// The client connected as `user_id`, who registered `registered_full_name`,
    /// on connection `cid`.
    Connected { user_id: String, registered_full_name: Option<String>, cid: u64 },
    /// A message arrived at time `now` (nanoseconds), still unread.
    Incoming { now: u64 },
    /// The message let through was read; `parse_error` is the parser's
    /// complaint when it could not be read as a request.
    Parsed { parse_error: Option<String> },
    /// Another connection's change is broadcast.
    Broadcast(BroadcastMessage),
    /// The client went away.
    Closed,
}

/// What to do next on a connection.
#[derive(Debug)]
pub enum ConnectionAction {
    /// Enrolment failed: end the connection with this refusal.
    Refuse(KernelError),
    /// The client is enrolled: start reading its messages.
    Listen,
    /// Send this response to the client.
    Send(WorkspaceProtocolResponse),
    /// The message is within budget: read it.
    Parse,
    /// Dispatch the message's request on behalf of `user_id`.
    Dispatch { user_id: String },
    /// Nothing to do.
    Skip,
    /// The connection is over.
    Close,
}

/// The start of the answer to a message that could not be parsed.
pub const INVALID_COMMAND_PREFIX: &'static str = "Invalid command. Failed serde_json deserialization: ";

/// The optional text's characters.
pub open spec fn text_view(o: Option<String>) -> Option<Seq<char>> {
    match o {
        Some(s) => Some(s@),
        None => None,
    }
}

/// What the event `e` does to a connection in state `c`, the kernel's
/// domains and users (`od`, `ou` before, `nd`, `nu` after) and the rate
/// limiter's table (`ot` before, `nt` after, with configuration `cfg`), and
/// the action `a` it calls for.
pub open spec fn connection_step(
    c: (Option<u64>, Option<Seq<char>>),
    od: Map<Seq<char>, Domain>,
    ou: Map<Seq<char>, User>,
    ot: Map<u64, Bucket>,
    cfg: crate::rate_limiter::LimiterConfig,
    e: ConnectionEvent,
    nc: (Option<u64>, Option<Seq<char>>),
    nd: Map<Seq<char>, Domain>,
    nu: Map<Seq<char>, User>,
    nt: Map<u64, Bucket>,
    a: ConnectionAction,
) -> bool {
    match e {
        ConnectionEvent::Connected { user_id, registered_full_name, cid } => {
            &&& nt == ot
            &&& exists|r: Result<(), KernelError>, md: Map<Seq<char>, Domain>, mu: Map<Seq<char>, User>|
                #[trigger] enrol_outcome(od, ou, md, mu, user_id@, text_view(registered_full_name), r) && match r {
                    Err(err) => nd == od && nu == ou && nc == c && a == ConnectionAction::Refuse(err),
                    Ok(_) => exists|w: bool|
                        #[trigger] repair_outcome(md, mu, nd, nu, user_id@, text_view(registered_full_name), w)
                            && nc == (Some(cid), Some(user_id@)) && a == ConnectionAction::Listen,
                }
        },
        ConnectionEvent::Incoming { now } => {
            &&& nd == od
            &&& nu == ou
            &&& nc == c
            &&& match c {
                (Some(cid), Some(_)) => {
                    let (table, allowed) = consume_model(ot, cfg, cid, now);
                    &&& nt == table
                    &&& !allowed ==> (a matches ConnectionAction::Send(WorkspaceProtocolResponse::Error(m)) && m@
                        == RATE_LIMITED_MESSAGE@)
                    &&& allowed ==> a == ConnectionAction::Parse
                },
                _ => nt == ot && a == ConnectionAction::Skip,
            }
        },
        ConnectionEvent::Parsed { parse_error } => {
            &&& nd == od
            &&& nu == ou
            &&& nt == ot
            &&& nc == c
            &&& match c {
                (Some(_), Some(user)) => match parse_error {
                    Some(p) => (a matches ConnectionAction::Send(WorkspaceProtocolResponse::Error(m)) && m@
                        == INVALID_COMMAND_PREFIX@ + p@),
                    None => (a matches ConnectionAction::Dispatch { user_id: u } && u@ == user),
                },
                _ => a == ConnectionAction::Skip,
            }
        },
        ConnectionEvent::Broadcast(m) => {
            &&& nd == od
            &&& nu == ou
            &&& nt == ot
            &&& nc == c
            &&& match c.0 {
                Some(cid) => if m.exclude_cid != Some(cid) {
                    a == ConnectionAction::Send(m.response)
                } else {
                    a == ConnectionAction::Skip
                },
                None => a == ConnectionAction::Skip,
            }
        },
        ConnectionEvent::Closed => nd == od && nu == ou && nt == ot && nc == (None::<u64>, None::<Seq<char>>)
            && a == ConnectionAction::Close,
    }
}

/// Take the event `event` on the connection `conn`: enrol on connecting,
/// rate-limit and screen each message, pass broadcasts on, and say what to
/// do next.
pub fn on_connection_event(
    conn: &mut ConnectionState,
    kernel: &mut WorkspaceServerKernel,
    limiter: &mut RateLimiter,
    event: ConnectionEvent,
) -> (a: ConnectionAction)
    ensures
        connection_step(
            old(conn)@,
            old(kernel).domains(),
            old(kernel).users(),
            old(limiter).table(),
            old(limiter).config(),
            event,
            final(conn)@,
            final(kernel).domains(),
            final(kernel).users(),
            final(limiter).table(),
            a,
        ),
        final(limiter).config() == old(limiter).config(),
        old(limiter).wf() ==> final(limiter).wf(),
{
    match event {
        ConnectionEvent::Connected { user_id, registered_full_name, cid } => {
            let full: Option<&str> = match &registered_full_name {
                Some(f) => Some(f.as_str()),
                None => None,
            };
            match kernel.enroll_on_connect(user_id.as_str(), full) {
                Ok(()) => {},
                Err(e) => {
                    return ConnectionAction::Refuse(e);
                },
            }
            kernel.repair_placeholder_name(user_id.as_str(), full);
            conn.cid = Some(cid);
            conn.user_id = Some(user_id);
            ConnectionAction::Listen
        },
        ConnectionEvent::Incoming { now } => {
            let cid = match conn.cid {
                Some(c) => c,
                None => {
                    return ConnectionAction::Skip;
                },
            };
            if conn.user_id.is_none() {
                return ConnectionAction::Skip;
            }
            if !limiter.try_consume(cid, now) {
                return ConnectionAction::Send(rate_limited_response());
            }
            ConnectionAction::Parse
        },
        ConnectionEvent::Parsed { parse_error } => {
            if conn.cid.is_none() {
                return ConnectionAction::Skip;
            }
            let user = match &conn.user_id {
                Some(u) => u.clone(),
                None => {
                    return ConnectionAction::Skip;
                },
            };
            match parse_error {
                Some(p) => ConnectionAction::Send(WorkspaceProtocolResponse::Error(concat(INVALID_COMMAND_PREFIX, p.as_str()))),
                None => ConnectionAction::Dispatch { user_id: user },
            }
        },
        ConnectionEvent::Broadcast(m) => {
            match conn.cid {
                Some(cid) => if m.delivers_to(cid) {
                    ConnectionAction::Send(m.response)
                } else {
                    ConnectionAction::Skip
                },
                None => ConnectionAction::Skip,
            }
        },
        ConnectionEvent::Closed => {
            conn.cid = None;
            conn.user_id = None;
            ConnectionAction::Close
        },
    }
}

} // verus!
