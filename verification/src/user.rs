//! User records: identity, role, per-domain permissions and free metadata.

use vstd::prelude::*;
use crate::permissions::{Permission, PermissionSet, UserRole};
use crate::strmap::StrMap;

verus! {

/// A metadata value on a user record.
#[derive(Debug)]
pub enum MetadataValue {
    String(String),
    Boolean(bool),
}

/// What a metadata value holds.
pub enum MetaView {
    Text(Seq<char>),
    Flag(bool),
}

impl MetadataValue {
    /// What the value holds.
    pub open spec fn view(&self) -> MetaView {
        match self {
            MetadataValue::String(s) => MetaView::Text(s@),
            MetadataValue::Boolean(b) => MetaView::Flag(*b),
        }
    }
}

impl Clone for MetadataValue {
    /// A copy holding the same value.
    fn clone(&self) -> (r: MetadataValue)
        ensures
            r@ == self@,
    {
        match self {
            MetadataValue::String(s) => MetadataValue::String(s.clone()),
            MetadataValue::Boolean(b) => MetadataValue::Boolean(*b),
        }
    }
}

/// What a metadata table holds, key by key.
pub open spec fn meta_view(m: Map<Seq<char>, MetadataValue>) -> Map<Seq<char>, MetaView> {
    m.map_values(|v: MetadataValue| v@)
}

/// A copy of a metadata table.
pub fn copy_metadata(m: &StrMap<MetadataValue>) -> (r: StrMap<MetadataValue>)
    ensures
        meta_view(r@) == meta_view(m@),
{
    let n = m.len();
    let mut r: StrMap<MetadataValue> = StrMap::new();
    let mut i: usize = 0;
    while i < n
        invariant
            n == m.key_seq().len(),
            0 <= i <= n,
            m.key_seq().no_duplicates(),
            forall|k: Seq<char>| #[trigger] m@.contains_key(k) <==> m.key_seq().contains(k),
            forall|k: Seq<char>|
                #[trigger] r@.contains_key(k) <==> exists|j: int| 0 <= j < i && m.key_seq()[j] == k,
            forall|k: Seq<char>| #[trigger] r@.contains_key(k) ==> r@[k]@ == m@[k]@,
        decreases n - i,
    {
        let key = m.key_at(i);
        let value = m.value_at(i);
        let ghost r0 = r@;
        r.insert(key.clone(), value.clone());
        proof {
            assert forall|k: Seq<char>| #[trigger] r@.contains_key(k) <==> exists|j: int|
                0 <= j < i + 1 && m.key_seq()[j] == k by {
                if k == m.key_seq()[i as int] {
                    assert(m.key_seq()[i as int] == k);
                }
                if exists|j: int| 0 <= j < i + 1 && m.key_seq()[j] == k {
                    let j = choose|j: int| 0 <= j < i + 1 && m.key_seq()[j] == k;
                    if j < i {
                        assert(r0.contains_key(k));
                    }
                }
            }
        }
        i = i + 1;
    }
    proof {
        assert forall|k: Seq<char>| #[trigger] meta_view(r@).contains_key(k) <==> meta_view(m@).contains_key(k) by {
            if m@.contains_key(k) {
                let j = choose|j: int| 0 <= j < m.key_seq().len() && m.key_seq()[j] == k;
                assert(m.key_seq()[j] == k);
            }
        }
        assert(meta_view(r@) =~= meta_view(m@));
    }
    r
}

/// A user account as the workspace knows it.
#[derive(Debug)]
pub struct User {
    pub id: String,
    pub name: String,
    pub role: UserRole,
    /// Permissions held, by domain id.
    pub permissions: StrMap<PermissionSet>,
    pub metadata: StrMap<MetadataValue>,
}

/// The permissions held, by domain id.
pub open spec fn perm_view(p: Map<Seq<char>, PermissionSet>) -> Map<Seq<char>, Set<Permission>> {
    p.map_values(|s: PermissionSet| s@)
}

/// Whether a permission table grants `p` on `domain`.
pub open spec fn grants(p: Map<Seq<char>, PermissionSet>, domain: Seq<char>, perm: Permission) -> bool {
    p.contains_key(domain) && p[domain]@.contains(perm)
}

impl User {
    /// A user with no permissions and no metadata.
    pub fn new(id: String, name: String, role: UserRole) -> (u: User)
        ensures
            u.id == id,
            u.name == name,
            u.role == role,
            u.permissions@ == Map::<Seq<char>, PermissionSet>::empty(),
            u.metadata@ == Map::<Seq<char>, MetadataValue>::empty(),
    {
        User { id, name, role, permissions: StrMap::new(), metadata: StrMap::new() }
    }

    /// Whether the user holds `permission` on `domain_id`.
    pub fn has_permission(&self, domain_id: &str, permission: Permission) -> (b: bool)
        ensures
            b == grants(self.permissions@, domain_id@, permission),
    {
        match self.permissions.get(domain_id) {
            Some(set) => set.has(permission),
            None => false,
        }
    }

    /// The permissions held on `domain_id`, if any entry exists.
    pub fn get_permissions(&self, domain_id: &str) -> (r: Option<&PermissionSet>)
        ensures
            match r {
                Some(s) => self.permissions@.contains_key(domain_id@) && *s == self.permissions@[domain_id@],
                None => !self.permissions@.contains_key(domain_id@),
            },
    {
        self.permissions.get(domain_id)
    }

    /// Grant `permission` on `domain_id`.
    pub fn add_permission(&mut self, domain_id: &str, permission: Permission)
        ensures
            final(self).id == old(self).id,
            final(self).name == old(self).name,
            final(self).role == old(self).role,
            final(self).metadata == old(self).metadata,
            perm_view(final(self).permissions@) == perm_view(old(self).permissions@).insert(
                domain_id@,
                (if old(self).permissions@.contains_key(domain_id@) {
                    old(self).permissions@[domain_id@]@
                } else {
                    Set::<Permission>::empty()
                }).insert(permission),
            ),
    {
        let mut set = match self.permissions.remove(domain_id) {
            Some(s) => s,
            None => PermissionSet::new(),
        };
        set.add(permission);
        self.permissions.insert(domain_id.to_owned(), set);
        proof {
            assert(perm_view(self.permissions@) =~= perm_view(old(self).permissions@).insert(
                domain_id@,
                (if old(self).permissions@.contains_key(domain_id@) {
                    old(self).permissions@[domain_id@]@
                } else {
                    Set::<Permission>::empty()
                }).insert(permission),
            ));
        }
    }

    /// Withdraw `permission` on `domain_id`.
    pub fn revoke_permission(&mut self, domain_id: &str, permission: Permission)
        ensures
            final(self).id == old(self).id,
            final(self).name == old(self).name,
            final(self).role == old(self).role,
            final(self).metadata == old(self).metadata,
            perm_view(final(self).permissions@) == (if old(self).permissions@.contains_key(domain_id@) {
                perm_view(old(self).permissions@).insert(
                    domain_id@,
                    old(self).permissions@[domain_id@]@.remove(permission),
                )
            } else {
                perm_view(old(self).permissions@)
            }),
    {
        match self.permissions.remove(domain_id) {
            Some(s) => {
                let mut set = s;
                set.remove(permission);
                self.permissions.insert(domain_id.to_owned(), set);
                proof {
                    assert(perm_view(self.permissions@) =~= perm_view(old(self).permissions@).insert(
                        domain_id@,
                        old(self).permissions@[domain_id@]@.remove(permission),
                    ));
                }
            },
            None => {
                proof {
                    assert(self.permissions@ =~= old(self).permissions@);
                }
            },
        }
    }

    /// Withdraw every permission on `domain_id`.
    pub fn clear_permissions(&mut self, domain_id: &str)
        ensures
            final(self).id == old(self).id,
            final(self).name == old(self).name,
            final(self).role == old(self).role,
            final(self).metadata == old(self).metadata,
            perm_view(final(self).permissions@) == perm_view(old(self).permissions@).remove(domain_id@),
    {
        self.permissions.remove(domain_id);
        proof {
            assert(perm_view(self.permissions@) =~= perm_view(old(self).permissions@).remove(domain_id@));
        }
    }
}

impl Clone for User {
    /// A copy of the record, with the same identity, role, permissions and
    /// metadata.
    fn clone(&self) -> (r: User)
        ensures
            r.id == self.id,
            r.name == self.name,
            r.role == self.role,
            perm_view(r.permissions@) == perm_view(self.permissions@),
            meta_view(r.metadata@) == meta_view(self.metadata@),
    {
        let permissions = self.permissions.clone();
        let metadata = self.metadata.clone();
        proof {
            assert forall|k: Seq<char>| #[trigger] permissions@.contains_key(k) implies permissions@[k]@
                == self.permissions@[k]@ by {
                assert(cloned::<PermissionSet>(self.permissions@[k], permissions@[k]));
            }
            assert(perm_view(permissions@) =~= perm_view(self.permissions@));
            assert forall|k: Seq<char>| #[trigger] metadata@.contains_key(k) implies metadata@[k]@
                == self.metadata@[k]@ by {
                assert(cloned::<MetadataValue>(self.metadata@[k], metadata@[k]));
            }
            assert(meta_view(metadata@) =~= meta_view(self.metadata@));
        }
        User {
            id: self.id.clone(),
            name: self.name.clone(),
            role: self.role.clone(),
            permissions,
            metadata,
        }
    }
}

} // verus!
