//! The human-readable text of tree validation errors.

use vstd::prelude::*;
use crate::seqs::str_views;
use crate::text::concat;
use crate::tree::TreeValidationError;

verus! {

/// The character of the decimal digit `d`.
pub open spec fn digit_char(d: nat) -> char {
    if d == 0 {
        '0'
    } else if d == 1 {
        '1'
    } else if d == 2 {
        '2'
    } else if d == 3 {
        '3'
    } else if d == 4 {
        '4'
    } else if d == 5 {
        '5'
    } else if d == 6 {
        '6'
    } else if d == 7 {
        '7'
    } else if d == 8 {
        '8'
    } else {
        '9'
    }
}

/// The decimal representation of `n`, without leading zeros.
pub open spec fn decimal(n: nat) -> Seq<char>
    decreases n,
{
    if n < 10 {
        seq![digit_char(n)]
    } else {
        decimal(n / 10) + seq![digit_char(n % 10)]
    }
}

/// The text of one decimal digit.
fn digit_text(d: u32) -> (s: &'static str)
    requires
        d < 10,
    ensures
        s@ == seq![digit_char(d as nat)],
{
    if d == 0 {
        proof { reveal_strlit("0"); }
        "0"
    } else if d == 1 {
        proof { reveal_strlit("1"); }
        "1"
    } else if d == 2 {
        proof { reveal_strlit("2"); }
        "2"
    } else if d == 3 {
        proof { reveal_strlit("3"); }
        "3"
    } else if d == 4 {
        proof { reveal_strlit("4"); }
        "4"
    } else if d == 5 {
        proof { reveal_strlit("5"); }
        "5"
    } else if d == 6 {
        proof { reveal_strlit("6"); }
        "6"
    } else if d == 7 {
        proof { reveal_strlit("7"); }
        "7"
    } else if d == 8 {
        proof { reveal_strlit("8"); }
        "8"
    } else {
        proof { reveal_strlit("9"); }
        "9"
    }
}

/// `n` written in decimal.
pub fn decimal_text(n: u32) -> (s: String)
    ensures
        s@ == decimal(n as nat),
    decreases n,
{
    if n < 10 {
        digit_text(n).to_owned()
    } else {
        let head = decimal_text(n / 10);
        concat(head.as_str(), digit_text(n % 10))
    }
}

/// `n`, a count, written in decimal.
pub fn count_text(n: usize) -> (s: String)
    ensures
        s@ == decimal(n as nat),
    decreases n,
{
    if n < 10 {
        digit_text(n as u32).to_owned()
    } else {
        let head = count_text(n / 10);
        concat(head.as_str(), digit_text((n % 10) as u32))
    }
}

/// How `{:?}` renders a list of strings.
pub uninterp spec fn debug_list_text(items: Seq<Seq<char>>) -> Seq<char>;

/// Formats `items` with `{:?}`, the standard library's `Debug` rendering
/// of a `Vec<String>`. Claims only that the text depends on the items'
/// characters alone.
#[verifier::external_body]
fn debug_list(items: &Vec<String>) -> (r: String)
    ensures
        r@ == debug_list_text(str_views(items@)),
{
    format!("{:?}", items)
}

/// The text of a tree validation error.
pub open spec fn describe_spec(e: TreeValidationError) -> Seq<char> {
    match e {
        TreeValidationError::DanglingNode { node_id, invalid_parent_id } => "Node '"@ + node_id@
            + "' references non-existent parent '"@ + invalid_parent_id@ + "'"@,
        TreeValidationError::CycleDetected { node_id, ancestor_id } => "Cycle detected: node '"@ + node_id@
            + "' has '"@ + ancestor_id@ + "' in its ancestor chain"@,
        TreeValidationError::MultipleRoots { root_ids } => "Multiple root nodes found: "@ + debug_list_text(
            str_views(root_ids@),
        ),
        TreeValidationError::NoRoot => "No root node found (must have exactly one workspace root)"@,
        TreeValidationError::OrphanSubtree { disconnected_node_ids } => "Orphan subtree detected with nodes: "@
            + debug_list_text(str_views(disconnected_node_ids@)),
        TreeValidationError::DepthExceedsSchema { node_id, depth, max_depth } => "Node '"@ + node_id@
            + "' at depth "@ + decimal(depth as nat) + " exceeds max depth "@ + decimal(max_depth as nat),
        TreeValidationError::InvalidChildType { parent_type, child_type } => "Child type '"@ + child_type@
            + "' not allowed under parent type '"@ + parent_type@ + "'"@,
        TreeValidationError::ParentNotFound { parent_id } => "Parent node '"@ + parent_id@ + "' not found"@,
        TreeValidationError::NodeNotFound { node_id } => "Node '"@ + node_id@ + "' not found"@,
        TreeValidationError::CannotDeleteRoot { node_id } => "Cannot delete root node '"@ + node_id@ + "'"@,
        TreeValidationError::WouldCreateCycle { node_id, new_parent_id } => "Moving node '"@ + node_id@
            + "' under '"@ + new_parent_id@ + "' would create a cycle"@,
    }
}

/// `a`, `b`, `c` and `d` one after another.
fn join4(a: &str, b: &str, c: &str, d: &str) -> (r: String)
    ensures
        r@ == a@ + b@ + c@ + d@,
{
    let ab = concat(a, b);
    let abc = concat(ab.as_str(), c);
    concat(abc.as_str(), d)
}

impl TreeValidationError {
    /// The error as a sentence fit to show.
    pub fn describe(&self) -> (r: String)
        ensures
            r@ == describe_spec(*self),
    {
        match self {
            TreeValidationError::DanglingNode { node_id, invalid_parent_id } => {
                let s = join4("Node '", node_id.as_str(), "' references non-existent parent '", invalid_parent_id.as_str());
                concat(s.as_str(), "'")
            },
            TreeValidationError::CycleDetected { node_id, ancestor_id } => {
                let s = join4("Cycle detected: node '", node_id.as_str(), "' has '", ancestor_id.as_str());
                concat(s.as_str(), "' in its ancestor chain")
            },
            TreeValidationError::MultipleRoots { root_ids } => {
                let list = debug_list(root_ids);
                concat("Multiple root nodes found: ", list.as_str())
            },
            TreeValidationError::NoRoot => "No root node found (must have exactly one workspace root)".to_owned(),
            TreeValidationError::OrphanSubtree { disconnected_node_ids } => {
                let list = debug_list(disconnected_node_ids);
                concat("Orphan subtree detected with nodes: ", list.as_str())
            },
            TreeValidationError::DepthExceedsSchema { node_id, depth, max_depth } => {
                let d = decimal_text(*depth);
                let m = decimal_text(*max_depth);
                let s = join4("Node '", node_id.as_str(), "' at depth ", d.as_str());
                let t = concat(s.as_str(), " exceeds max depth ");
                concat(t.as_str(), m.as_str())
            },
            TreeValidationError::InvalidChildType { parent_type, child_type } => {
                let s = join4("Child type '", child_type.as_str(), "' not allowed under parent type '", parent_type.as_str());
                concat(s.as_str(), "'")
            },
            TreeValidationError::ParentNotFound { parent_id } => {
                let s = concat("Parent node '", parent_id.as_str());
                concat(s.as_str(), "' not found")
            },
            TreeValidationError::NodeNotFound { node_id } => {
                let s = concat("Node '", node_id.as_str());
                concat(s.as_str(), "' not found")
            },
            TreeValidationError::CannotDeleteRoot { node_id } => {
                let s = concat("Cannot delete root node '", node_id.as_str());
                concat(s.as_str(), "'")
            },
            TreeValidationError::WouldCreateCycle { node_id, new_parent_id } => {
                let s = join4("Moving node '", node_id.as_str(), "' under '", new_parent_id.as_str());
                concat(s.as_str(), "' would create a cycle")
            },
        }
    }
}

} // verus!
