//! The name other members see for an account.
//!
//! A new record is named after the full name the account registered with, or
//! after its username when there is none. A record whose name is still the
//! username placeholder is repaired on its owner's next connect; a name the
//! user chose is never replaced.

use vstd::prelude::*;
use crate::profile::{char_is_white_space, is_white_space};
use vstd::string::StrSliceExecFns;
use crate::kernel::WorkspaceServerKernel;
use crate::user::{User, meta_view, perm_view};
use crate::domain::Domain;

verus! {

/// `s` without its leading Unicode whitespace.
pub open spec fn trim_start_spec(s: Seq<char>) -> Seq<char>
    decreases s.len(),
{
    if s.len() > 0 && is_white_space(s[0]) {
        trim_start_spec(s.drop_first())
    } else {
        s
    }
}

/// `s` without its trailing Unicode whitespace.
pub open spec fn trim_end_spec(s: Seq<char>) -> Seq<char>
    decreases s.len(),
{
    if s.len() > 0 && is_white_space(s.last()) {
        trim_end_spec(s.drop_last())
    } else {
        s
    }
}

/// `s` without leading and trailing Unicode whitespace.
pub open spec fn trim_spec(s: Seq<char>) -> Seq<char> {
    trim_end_spec(trim_start_spec(s))
}

/// `s` without leading and trailing Unicode whitespace.
fn trim(s: &str) -> (r: &str)
    ensures
        r@ == trim_spec(s@),
{
    let n = s.unicode_len();
    let ghost v = s@;
    let mut a: usize = 0;
    proof {
        assert(v.subrange(0, n as int) =~= v);
    }
    while a < n
        invariant
            n == v.len(),
            v == s@,
            0 <= a <= n,
            trim_start_spec(v) == trim_start_spec(v.subrange(a as int, n as int)),
        ensures
            0 <= a <= n,
            trim_start_spec(v) == trim_start_spec(v.subrange(a as int, n as int)),
            a < n ==> !is_white_space(v[a as int]),
        decreases n - a,
    {
        if !char_is_white_space(s.get_char(a)) {
            break;
        }
        proof {
            let t = v.subrange(a as int, n as int);
            assert(t[0] == v[a as int]);
            assert(t.drop_first() =~= v.subrange(a + 1, n as int));
        }
        a = a + 1;
    }
    proof {
        let t = v.subrange(a as int, n as int);
        if a < n {
            assert(t[0] == v[a as int]);
        } else {
            assert(t =~= Seq::<char>::empty());
        }
        assert(trim_start_spec(v) == t);
    }
    let mut b: usize = n;
    while b > a
        invariant
            n == v.len(),
            v == s@,
            0 <= a <= b <= n,
            trim_spec(v) == trim_end_spec(v.subrange(a as int, b as int)),
        ensures
            0 <= a <= b <= n,
            trim_spec(v) == trim_end_spec(v.subrange(a as int, b as int)),
            b > a ==> !is_white_space(v[b - 1]),
        decreases b,
    {
        if !char_is_white_space(s.get_char(b - 1)) {
            break;
        }
        proof {
            let t = v.subrange(a as int, b as int);
            assert(t.last() == v[b - 1]);
            assert(t.drop_last() =~= v.subrange(a as int, b - 1));
        }
        b = b - 1;
    }
    proof {
        let t = v.subrange(a as int, b as int);
        if b > a {
            assert(t.last() == v[b - 1]);
        } else {
            assert(t =~= Seq::<char>::empty());
        }
    }
    s.substring_char(a, b)
}

/// The display name for an account: its registered full name without
/// surrounding whitespace, or the username when there is no full name or it
/// is blank.
pub open spec fn display_name_spec(user_id: Seq<char>, registered_full_name: Option<Seq<char>>) -> Seq<char> {
    match registered_full_name {
        Some(full) => if trim_spec(full).len() > 0 {
            trim_spec(full)
        } else {
            user_id
        },
        None => user_id,
    }
}

/// The display name for an account: its registered full name, or the
/// username when there is none to give.
pub fn display_name_for(user_id: &str, registered_full_name: Option<&str>) -> (r: String)
    ensures
        r@ == display_name_spec(
            user_id@,
            match registered_full_name {
                Some(f) => Some(f@),
                None => None,
            },
        ),
{
    match registered_full_name {
        Some(full) => {
            let trimmed = trim(full);
            if !trimmed.is_empty() {
                trimmed.to_owned()
            } else {
                user_id.to_owned()
            }
        },
        None => user_id.to_owned(),
    }
}

/// The name a repair writes onto a record with id `user_id` and name `name`,
/// if any: only a record still named after its username is changed, and only
/// to a different name.
pub open spec fn repaired_spec(user_id: Seq<char>, name: Seq<char>, full: Option<Seq<char>>) -> Option<Seq<char>> {
    if name != user_id {
        None
    } else if display_name_spec(user_id, full) != name {
        Some(display_name_spec(user_id, full))
    } else {
        None
    }
}

/// The name to write onto an existing record, or `None` to leave it alone.
pub fn repaired_name(user: &User, registered_full_name: Option<&str>) -> (r: Option<String>)
    ensures
        match r {
            Some(name) => repaired_spec(
                user.id@,
                user.name@,
                match registered_full_name {
                    Some(f) => Some(f@),
                    None => None,
                },
            ) == Some(name@),
            None => repaired_spec(
                user.id@,
                user.name@,
                match registered_full_name {
                    Some(f) => Some(f@),
                    None => None,
                },
            ) is None,
        },
{
    if user.name != user.id {
        return None;
    }
    let wanted = display_name_for(user.id.as_str(), registered_full_name);
    if wanted != user.name {
        Some(wanted)
    } else {
        None
    }
}

/// A name the user chose, anything but the username, is never replaced.
pub proof fn law_chosen_name_is_kept(user_id: Seq<char>, name: Seq<char>, full: Option<Seq<char>>)
    requires
        name != user_id,
    ensures
        repaired_spec(user_id, name, full) is None,
{
}

/// A repaired record needs no second repair.
pub proof fn law_repair_happens_once(user_id: Seq<char>, name: Seq<char>, full: Option<Seq<char>>)
    requires
        repaired_spec(user_id, name, full) is Some,
    ensures
        repaired_spec(user_id, repaired_spec(user_id, name, full)->0, full) is None,
{
}


/// What repairing the placeholder name of `user`, who registered the full
/// name `full`, does: a record still named after its username takes the
/// display name, when that differs; nothing else changes.
pub open spec fn repair_outcome(
    old_domains: Map<Seq<char>, Domain>,
    old_users: Map<Seq<char>, User>,
    new_domains: Map<Seq<char>, Domain>,
    new_users: Map<Seq<char>, User>,
    user: Seq<char>,
    full: Option<Seq<char>>,
    written: bool,
) -> bool {
    &&& (new_domains == old_domains)
    &&& (written <==> old_users.contains_key(user) && repaired_spec(
        old_users[user].id@,
        old_users[user].name@,
        full,
    ) is Some)
    &&& (!written ==> new_users == old_users)
    &&& (written ==> {
        let ou = old_users[user];
        let nu = new_users[user];
        &&& new_users.dom() == old_users.dom()
        &&& forall|k: Seq<char>|
            k != user && #[trigger] old_users.contains_key(k) ==> new_users[k]
                == old_users[k]
        &&& Some(nu.name@) == repaired_spec(
            ou.id@,
            ou.name@,
            full,
        )
        &&& nu.id == ou.id
        &&& nu.role == ou.role
        &&& perm_view(nu.permissions@) == perm_view(ou.permissions@)
        &&& meta_view(nu.metadata@) == meta_view(ou.metadata@)
    })
}

impl WorkspaceServerKernel {
    /// Repair the placeholder name of `user_id`'s record: when the record
    /// still carries the username as its name and a registered full name
    /// says otherwise, the name becomes that full name. Whether a write
    /// happened; a missing record is left to the enrolment that creates it.
    pub fn repair_placeholder_name(&mut self, user_id: &str, registered_full_name: Option<&str>) -> (written: bool)
        ensures
            repair_outcome(old(self).domains(), old(self).users(), final(self).domains(), final(self).users(), user_id@, crate::entity_ops::opt_view(registered_full_name), written),
    {
        let user = match self.store().get_user(user_id) {
            Some(u) => u.clone(),
            None => {
                return false;
            },
        };
        let name = match repaired_name(&user, registered_full_name) {
            Some(n) => n,
            None => {
                return false;
            },
        };
        let User { id, name: _, role, permissions, metadata } = user;
        let updated = User { id, name, role, permissions, metadata };
        let mut tx = self.begin_write();
        let _ = tx.update_user(user_id, updated);
        self.end_write(tx, true);
        proof {
            assert(self.users().dom() =~= old(self).users().dom());
        }
        true
    }
}

} // verus!
