//! Authorization for group (room and office) chat.
//!
//! A chat channel belongs to exactly one node of the tree, the one whose
//! `chat_channel_id` it is, and the people entitled to it are the people
//! entitled to that node: `ViewContent` to read, `SendMessages` to write. A
//! channel no node owns is refused, never treated as public.

use vstd::prelude::*;
use crate::kernel::WorkspaceServerKernel;
use crate::permissions::Permission;
use crate::store::{KernelError, entity_permission_spec};
use crate::tree::NodeMap;

verus! {

/// The message returned for every refusal, whether or not the channel exists.
pub const GROUP_ACCESS_DENIED: &'static str = "Permission denied: not a member of this chat channel";

/// Whether the node under `id` owns the channel `group`.
pub open spec fn owns_channel(nodes: Map<Seq<char>, crate::tree::DomainNode>, id: Seq<char>, group: Seq<char>) -> bool {
    nodes.contains_key(id) && channel_is(nodes[id].chat_channel_id, group)
}

/// Whether a node's channel id is `group`.
pub open spec fn channel_is(channel: Option<String>, group: Seq<char>) -> bool {
    match channel {
        Some(c) => c@ == group,
        None => false,
    }
}

/// The node whose `chat_channel_id` is `group_id`, if any (the first in the
/// table's order when several claim it).
pub fn resolve_group_node(nodes: &NodeMap, group_id: &str) -> (r: Option<String>)
    ensures
        match r {
            Some(id) => owns_channel(nodes@, id@, group_id@),
            None => forall|k: Seq<char>| !owns_channel(nodes@, k, group_id@),
        },
{
    let n = nodes.len();
    let mut i: usize = 0;
    while i < n
        invariant
            n == nodes.key_seq().len(),
            0 <= i <= n,
            forall|k: Seq<char>| #[trigger] nodes@.contains_key(k) <==> nodes.key_seq().contains(k),
            forall|j: int| 0 <= j < i ==> !owns_channel(nodes@, #[trigger] nodes.key_seq()[j], group_id@),
        decreases n - i,
    {
        let node = nodes.value_at(i);
        match &node.chat_channel_id {
            Some(c) => {
                if crate::text::str_eq(c.as_str(), group_id) {
                    let key = nodes.key_at(i);
                    return Some(key.clone());
                }
            },
            None => {},
        }
        i = i + 1;
    }
    proof {
        assert forall|k: Seq<char>| !owns_channel(nodes@, k, group_id@) by {
            if owns_channel(nodes@, k, group_id@) {
                let j = choose|j: int| 0 <= j < n && nodes.key_seq()[j] == k;
                assert(!owns_channel(nodes@, nodes.key_seq()[j], group_id@));
            }
        }
    }
    None
}

/// `id` is the node owning `group`, and `user` holds `permission` on it.
pub open spec fn group_grant(
    kernel: WorkspaceServerKernel,
    nodes: Map<Seq<char>, crate::tree::DomainNode>,
    user: Seq<char>,
    group: Seq<char>,
    permission: Permission,
    id: Seq<char>,
) -> bool {
    owns_channel(nodes, id, group) && entity_permission_spec(
        kernel.domains(),
        kernel.users(),
        user,
        id,
        permission,
    ) == Ok::<bool, KernelError>(true)
}

fn authorize_group(
    kernel: &WorkspaceServerKernel,
    nodes: &NodeMap,
    user_id: &str,
    group_id: &str,
    permission: Permission,
) -> (r: Option<String>)
    ensures
        r matches Some(id) ==> group_grant(*kernel, nodes@, user_id@, group_id@, permission, id@),
        r is None ==> (resolve_none_or_refused(*kernel, nodes@, user_id@, group_id@, permission)),
{
    let node_id = match resolve_group_node(nodes, group_id) {
        Some(id) => id,
        None => {
            return None;
        },
    };
    match kernel.check_entity_permission(user_id, node_id.as_str(), permission) {
        Ok(true) => Some(node_id),
        _ => None,
    }
}

/// No node owns the channel, or the node found for it refuses the user.
pub open spec fn resolve_none_or_refused(
    kernel: WorkspaceServerKernel,
    nodes: Map<Seq<char>, crate::tree::DomainNode>,
    user: Seq<char>,
    group: Seq<char>,
    permission: Permission,
) -> bool {
    (forall|k: Seq<char>| !owns_channel(nodes, k, group)) || exists|k: Seq<char>|
        owns_channel(nodes, k, group) && entity_permission_spec(
            kernel.domains(),
            kernel.users(),
            user,
            k,
            permission,
        ) != Ok::<bool, KernelError>(true)
}

/// May `user_id` see the messages of channel `group_id`? Returns the owning
/// node when so.
pub fn authorize_group_read(kernel: &WorkspaceServerKernel, nodes: &NodeMap, user_id: &str, group_id: &str) -> (r:
    Option<String>)
    ensures
        r matches Some(id) ==> group_grant(*kernel, nodes@, user_id@, group_id@, Permission::ViewContent, id@),
        r is None ==> resolve_none_or_refused(*kernel, nodes@, user_id@, group_id@, Permission::ViewContent),
{
    authorize_group(kernel, nodes, user_id, group_id, Permission::ViewContent)
}

/// May `user_id` send, edit or delete in channel `group_id`? Returns the
/// owning node when so.
pub fn authorize_group_write(kernel: &WorkspaceServerKernel, nodes: &NodeMap, user_id: &str, group_id: &str) -> (r:
    Option<String>)
    ensures
        r matches Some(id) ==> group_grant(*kernel, nodes@, user_id@, group_id@, Permission::SendMessages, id@),
        r is None ==> resolve_none_or_refused(*kernel, nodes@, user_id@, group_id@, Permission::SendMessages),
{
    authorize_group(kernel, nodes, user_id, group_id, Permission::SendMessages)
}

} // verus!
