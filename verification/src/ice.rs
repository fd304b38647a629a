//! Who may have relay (TURN) credentials, and what a member is told.
//!
//! The kernel decides eligibility; minting credentials is the host's I/O and
//! happens outside the library. An enrolled account at Member standing or
//! above is eligible; a Guest, a removed (Banned) account, a custom role below
//! Member and a non-member are refused.

use vstd::prelude::*;
use crate::permissions::MEMBER_RANK;
use crate::response::{IceServer, WorkspaceProtocolResponse};
use crate::user::User;

verus! {

/// Who the credentials are for.
#[derive(Debug, Clone)]
pub struct IceServerMember {
    pub user_id: String,
}

/// What a host hands back: the servers, and when their credentials stop
/// working (unix seconds).
#[derive(Debug, Clone)]
pub struct IceServerGrant {
    pub ice_servers: Vec<IceServer>,
    pub expires_at: u64,
}

/// The host minted nothing, and why, in words fit to show the member.
#[derive(Debug, Clone)]
pub struct IceServersUnavailable(pub String);

/// Said to an account that is not eligible.
pub const REFUSED: &'static str = "relay servers are not available for your role";
/// Said when the host has no way to mint credentials.
pub const NOT_CONFIGURED: &'static str = "this workspace server has no relay servers to offer";

/// Whether an account may have relay servers.
pub open spec fn eligible_spec(user: Option<User>, enrolled: bool) -> bool {
    match user {
        Some(u) => enrolled && u.role.rank() >= MEMBER_RANK,
        None => false,
    }
}

/// Whether this account may have relay servers: an enrolled member of the
/// workspace, at Member standing or above.
pub fn may_have_ice_servers(user: Option<&User>, enrolled: bool) -> (b: bool)
    ensures
        b == eligible_spec(
            match user {
                Some(u) => Some(*u),
                None => None,
            },
            enrolled,
        ),
{
    match user {
        Some(u) => enrolled && u.role.get_rank() >= MEMBER_RANK,
        None => false,
    }
}

/// The answer when nothing is to be minted: a refusal for an ineligible
/// account, or the lack of a provider. `None` when the host should mint.
pub fn answer_without_minting(eligible: bool, has_source: bool) -> (r: Option<WorkspaceProtocolResponse>)
    ensures
        !eligible ==> (r matches Some(WorkspaceProtocolResponse::IceServersUnavailable { reason }) && reason@
            == REFUSED@),
        eligible && !has_source ==> (r matches Some(
            WorkspaceProtocolResponse::IceServersUnavailable { reason },
        ) && reason@ == NOT_CONFIGURED@),
        eligible && has_source ==> r is None,
{
    if !eligible {
        return Some(WorkspaceProtocolResponse::IceServersUnavailable { reason: REFUSED.to_owned() });
    }
    if !has_source {
        return Some(WorkspaceProtocolResponse::IceServersUnavailable { reason: NOT_CONFIGURED.to_owned() });
    }
    None
}

/// The member a host mints for.
pub fn member_for(user_id: &str) -> (m: IceServerMember)
    ensures
        m.user_id@ == user_id@,
{
    IceServerMember { user_id: user_id.to_owned() }
}

/// The answer once the host has minted, or failed to.
pub fn answer_from_mint(minted: Result<IceServerGrant, IceServersUnavailable>) -> (r: WorkspaceProtocolResponse)
    ensures
        match minted {
            Ok(grant) => r == WorkspaceProtocolResponse::IceServers {
                ice_servers: grant.ice_servers,
                expires_at: grant.expires_at,
            },
            Err(IceServersUnavailable(reason)) => r == WorkspaceProtocolResponse::IceServersUnavailable {
                reason,
            },
        },
{
    match minted {
        Ok(grant) => WorkspaceProtocolResponse::IceServers {
            ice_servers: grant.ice_servers,
            expires_at: grant.expires_at,
        },
        Err(IceServersUnavailable(reason)) => WorkspaceProtocolResponse::IceServersUnavailable { reason },
    }
}

/// A Guest, a removed (Banned) account and a custom role ranked below Member
/// are never eligible; an enrolled Member, Owner or Admin always is.
pub proof fn law_eligibility_follows_standing(user: User, enrolled: bool)
    ensures
        (user.role is Guest || user.role is Banned || (user.role matches crate::permissions::UserRole::Custom(
            _,
            rank,
        ) && rank < MEMBER_RANK)) ==> !eligible_spec(Some(user), enrolled),
        (enrolled && (user.role is Member || user.role is Owner || user.role is Admin)) ==> eligible_spec(
            Some(user),
            enrolled,
        ),
{
}

} // verus!
