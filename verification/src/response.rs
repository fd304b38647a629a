//! The answers the kernel sends back that the library itself decides.

use vstd::prelude::*;
use crate::domain::Workspace;
use crate::permissions::{Permission, UserRole};
use crate::user::User;

verus! {

/// One relay (TURN or STUN) server a client may use.
#[derive(Debug, Clone)]
pub struct IceServer {
    pub urls: Vec<String>,
    pub username: Option<String>,
    pub credential: Option<String>,
}

/// A response of the workspace protocol.
#[derive(Debug, Clone)]
pub enum WorkspaceProtocolResponse {
    /// Nothing has been set up on this server yet.
    WorkspaceNotInitialized,
    /// The request failed, with a message fit to show.
    Error(String),
    /// Relay servers, and when their credentials stop working (unix seconds).
    IceServers { ice_servers: Vec<IceServer>, expires_at: u64 },
    /// No relay servers are given, and why.
    IceServersUnavailable { reason: String },
    /// The server is about to stop; clients may reconnect after the drain.
    ServerShutdown { message: String, drain_seconds: u64 },
    /// The request succeeded, as the message says.
    Success(String),
    /// A workspace.
    Workspace(Workspace),
    /// The workspaces the requester may read.
    Workspaces(Vec<Workspace>),
    /// A member's record, as the requester is sent it.
    Member(User),
    /// Members' records, as the requester is sent them.
    Members(Vec<User>),
    /// What a user may do on a domain.
    UserPermissions { domain_id: String, user_id: String, role: UserRole, permissions: Vec<Permission> },
}

} // verus!
