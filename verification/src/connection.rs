//! Decisions taken around a client connection: which names may become paths
//! under the content directory, what to do with the stored schema version at
//! start-up, which broadcasts reach which client, and the small access rules
//! of the request handlers.

use vstd::prelude::*;
use crate::response::WorkspaceProtocolResponse;
use crate::text::str_eq;
use crate::tree::WORKSPACE_ROOT_ID;

verus! {

/// Why a name cannot be used as a path segment under the content directory.
#[derive(Debug, Clone, Copy, PartialEq, Eq, Structural)]
pub enum ContentSegmentError {
    /// The name is empty.
    Empty,
    /// The name is `.` or `..`.
    TraversalSentinel,
    /// The name starts with `.`.
    HiddenPrefix,
    /// The name holds `/`, `\` or a NUL character.
    ForbiddenCharacter,
}

/// Whether `c` may not appear in a content segment.
pub open spec fn forbidden_in_segment(c: char) -> bool {
    c == '/' || c == '\\' || c == '\0'
}

/// The verdict on a content segment, in the order the rules are checked.
pub open spec fn segment_verdict(s: Seq<char>) -> Result<(), ContentSegmentError> {
    if s.len() == 0 {
        Err(ContentSegmentError::Empty)
    } else if s == seq!['.'] || s == seq!['.', '.'] {
        Err(ContentSegmentError::TraversalSentinel)
    } else if s[0] == '.' {
        Err(ContentSegmentError::HiddenPrefix)
    } else if exists|i: int| 0 <= i < s.len() && forbidden_in_segment(#[trigger] s[i]) {
        Err(ContentSegmentError::ForbiddenCharacter)
    } else {
        Ok(())
    }
}

/// Refuse a client-supplied name before it is joined onto the content
/// directory: empty names, `.` and `..`, names starting with `.`, and names
/// holding a path separator or a NUL character.
pub fn validate_content_segment(segment: &str) -> (r: Result<(), ContentSegmentError>)
    ensures
        r == segment_verdict(segment@),
{
    let ghost s = segment@;
    let mut count: u8 = 0;
    let mut first: Option<char> = None;
    let mut second: Option<char> = None;
    let mut forbidden = false;
    let ghost mut i: int = 0;
    for c in it: segment.chars()
        invariant
            s == segment@,
            it.seq() == s,
            i == it.index(),
            0 <= i <= s.len(),
            count as int == (if i < 3 { i } else { 3 }),
            first == (if i > 0 { Some(s[0]) } else { None::<char> }),
            second == (if i > 1 { Some(s[1]) } else { None::<char> }),
            forbidden == exists|j: int| 0 <= j < i && forbidden_in_segment(#[trigger] s[j]),
    {
        assert(c == s[i]);
        if count == 0 {
            first = Some(c);
        } else if count == 1 {
            second = Some(c);
        }
        if count < 3 {
            count = count + 1;
        }
        if c == '/' || c == '\\' || c == '\0' {
            forbidden = true;
        }
        proof {
            if forbidden && !forbidden_in_segment(c) {
                let j = choose|j: int| 0 <= j < i && forbidden_in_segment(#[trigger] s[j]);
                assert(0 <= j < i + 1 && forbidden_in_segment(s[j]));
            } else if forbidden {
                assert(0 <= i < i + 1 && forbidden_in_segment(s[i]));
            } else {
                assert forall|j: int| 0 <= j < i + 1 implies !forbidden_in_segment(#[trigger] s[j]) by {
                    if j < i {
                        assert(!(0 <= j < i && forbidden_in_segment(s[j])));
                    }
                }
            }
            i = i + 1;
        }
    }
    if count == 0 {
        assert(s.len() == 0);
        return Err(ContentSegmentError::Empty);
    }
    let is_dot = count == 1 && first == Some('.');
    let is_dot_dot = count == 2 && first == Some('.') && second == Some('.');
    if is_dot || is_dot_dot {
        proof {
            if is_dot {
                assert(s =~= seq!['.']);
            } else {
                assert(s =~= seq!['.', '.']);
            }
        }
        return Err(ContentSegmentError::TraversalSentinel);
    }
    proof {
        if s == seq!['.'] {
            assert(count == 1 && first == Some('.'));
        }
        if s == seq!['.', '.'] {
            assert(count == 2 && first == Some('.') && second == Some('.'));
        }
    }
    if first == Some('.') {
        return Err(ContentSegmentError::HiddenPrefix);
    }
    if forbidden {
        return Err(ContentSegmentError::ForbiddenCharacter);
    }
    proof {
        assert forall|j: int| 0 <= j < s.len() implies !forbidden_in_segment(#[trigger] s[j]) by {
            assert(!(0 <= j < i && forbidden_in_segment(s[j])));
        }
    }
    Ok(())
}

/// The storage schema version this build reads and writes.
pub const CURRENT_SCHEMA_VERSION: u32 = 1;

/// What to do at start-up about the stored schema version.
#[derive(Debug, Clone, Copy, PartialEq, Eq, Structural)]
pub enum SchemaAction {
    /// No version is stored: stamp the current one.
    Stamp,
    /// An older version is stored: migrate, then stamp the current one.
    Migrate { from: u32 },
    /// The stored version is current: nothing to do.
    Current,
    /// A newer version is stored and a downgrade was allowed: go on.
    ProceedDespiteNewer { found: u32 },
    /// A newer version is stored: refuse to start.
    Refuse { found: u32 },
}

/// What to do about the stored schema version.
pub open spec fn schema_action_spec(stored: Option<u32>, allow_downgrade: bool) -> SchemaAction {
    match stored {
        None => SchemaAction::Stamp,
        Some(v) => if v < CURRENT_SCHEMA_VERSION {
            SchemaAction::Migrate { from: v }
        } else if v > CURRENT_SCHEMA_VERSION {
            if allow_downgrade {
                SchemaAction::ProceedDespiteNewer { found: v }
            } else {
                SchemaAction::Refuse { found: v }
            }
        } else {
            SchemaAction::Current
        },
    }
}

/// What to do about the stored schema version `stored`; `allow_downgrade`
/// is the operator's explicit permission to run against a newer store.
pub fn schema_action(stored: Option<u32>, allow_downgrade: bool) -> (a: SchemaAction)
    ensures
        a == schema_action_spec(stored, allow_downgrade),
{
    match stored {
        None => SchemaAction::Stamp,
        Some(v) => {
            if v < CURRENT_SCHEMA_VERSION {
                SchemaAction::Migrate { from: v }
            } else if v > CURRENT_SCHEMA_VERSION {
                if allow_downgrade {
                    SchemaAction::ProceedDespiteNewer { found: v }
                } else {
                    SchemaAction::Refuse { found: v }
                }
            } else {
                SchemaAction::Current
            }
        },
    }
}

/// The server starts on a store written by a newer build only with the
/// operator's permission, and it only ever migrates a store upwards.
pub proof fn law_newer_store_needs_permission(stored: Option<u32>, allow_downgrade: bool)
    ensures
        (schema_action_spec(stored, allow_downgrade) is ProceedDespiteNewer) ==> allow_downgrade,
        (stored matches Some(v) && v > CURRENT_SCHEMA_VERSION && !allow_downgrade) ==> schema_action_spec(
            stored,
            allow_downgrade,
        ) is Refuse,
        schema_action_spec(stored, allow_downgrade) matches SchemaAction::Migrate { from } ==> from
            < CURRENT_SCHEMA_VERSION,
{
}

/// Seconds the server waits for requests in flight before it stops.
pub const DRAIN_SECONDS: u64 = 2;

/// What clients are told when the server stops for a restart.
pub const SHUTDOWN_MESSAGE: &'static str = "Server is shutting down for a planned restart.";

/// What a client is told when its requests exceed its rate limit.
pub const RATE_LIMITED_MESSAGE: &'static str = "Rate limit exceeded. Please slow down.";

/// An update sent to every connected client but, possibly, its originator.
#[derive(Debug, Clone)]
pub struct BroadcastMessage {
    /// The response to send.
    pub response: WorkspaceProtocolResponse,
    /// The CID not to send it to (the originator).
    pub exclude_cid: Option<u64>,
}

impl BroadcastMessage {
    /// Whether the client with CID `cid` is sent this message.
    pub fn delivers_to(&self, cid: u64) -> (b: bool)
        ensures
            b == (self.exclude_cid != Some(cid)),
    {
        match self.exclude_cid {
            Some(excluded) => excluded != cid,
            None => true,
        }
    }
}

/// The notice broadcast to every client when the server stops.
pub fn shutdown_notice() -> (m: BroadcastMessage)
    ensures
        m.exclude_cid is None,
        m.response matches WorkspaceProtocolResponse::ServerShutdown { message, drain_seconds } && message@
            == SHUTDOWN_MESSAGE@ && drain_seconds == DRAIN_SECONDS,
{
    BroadcastMessage {
        response: WorkspaceProtocolResponse::ServerShutdown {
            message: SHUTDOWN_MESSAGE.to_owned(),
            drain_seconds: DRAIN_SECONDS,
        },
        exclude_cid: None,
    }
}

/// The answer to a request refused by the rate limiter.
pub fn rate_limited_response() -> (r: WorkspaceProtocolResponse)
    ensures
        r matches WorkspaceProtocolResponse::Error(m) && m@ == RATE_LIMITED_MESSAGE@,
{
    WorkspaceProtocolResponse::Error(RATE_LIMITED_MESSAGE.to_owned())
}

/// Default number of group messages in one page.
pub const DEFAULT_PAGE_SIZE: u32 = 50;
/// Most group messages in one page.
pub const MAX_PAGE_SIZE: u32 = 100;

/// The page size for a request: the one asked for, or the default, capped.
pub fn page_limit(requested: Option<u32>) -> (n: u32)
    ensures
        n == (match requested {
            Some(k) => if k < MAX_PAGE_SIZE {
                k
            } else {
                MAX_PAGE_SIZE
            },
            None => DEFAULT_PAGE_SIZE,
        }),
        n <= MAX_PAGE_SIZE,
{
    let asked = match requested {
        Some(k) => k,
        None => DEFAULT_PAGE_SIZE,
    };
    if asked < MAX_PAGE_SIZE {
        asked
    } else {
        MAX_PAGE_SIZE
    }
}

/// The workspace a request names, or the root workspace when it names none.
pub fn requested_or_root(workspace_id: Option<&str>) -> (r: &str)
    ensures
        r@ == (match workspace_id {
            Some(id) => id@,
            None => WORKSPACE_ROOT_ID@,
        }),
{
    match workspace_id {
        Some(id) => id,
        None => WORKSPACE_ROOT_ID,
    }
}

/// Whether `actor` may read the record (or the permissions) of `target`:
/// their own, or anyone's as an administrator.
pub fn may_view_member_record(actor: &str, target: &str, actor_is_admin: bool) -> (b: bool)
    ensures
        b == (actor@ == target@ || actor_is_admin),
{
    str_eq(actor, target) || actor_is_admin
}

/// Whether `actor` may edit or delete a group message sent by `sender`:
/// their own, or anyone's as an administrator.
pub fn may_change_message(actor: &str, sender: &str, actor_is_admin: bool) -> (b: bool)
    ensures
        b == (actor@ == sender@ || actor_is_admin),
{
    str_eq(actor, sender) || actor_is_admin
}

/// Whether a caller may list the members of a domain: as an administrator
/// or as one of its members.
pub fn may_list_members(caller_is_admin: bool, caller_is_member: bool) -> (b: bool)
    ensures
        b == (caller_is_admin || caller_is_member),
{
    caller_is_admin || caller_is_member
}

} // verus!
