//! Roles, permissions and permission sets.

use vstd::prelude::*;

verus! {

/// A capability a user can hold on a domain entity.
#[derive(Debug, Clone, Copy, PartialEq, Eq, Structural, Hash)]
pub enum Permission {
    All,
    ViewContent,
    EditContent,
    AddUsers,
    RemoveUsers,
    ManageUsers,
    CreateWorkspace,
    UpdateWorkspace,
    DeleteWorkspace,
    CreateOffice,
    AddOffice,
    DeleteOffice,
    UpdateOfficeSettings,
    EditOfficeConfig,
    ManageOfficeMembers,
    CreateRoom,
    AddRoom,
    DeleteRoom,
    UpdateRoomSettings,
    EditRoomConfig,
    CreateEntity,
    EditMdx,
    Themes,
    ReadMessages,
    SendMessages,
}

/// Every permission, once each.
pub open spec fn all_permissions() -> Seq<Permission> {
    seq![
        Permission::All,
        Permission::ViewContent,
        Permission::EditContent,
        Permission::AddUsers,
        Permission::RemoveUsers,
        Permission::ManageUsers,
        Permission::CreateWorkspace,
        Permission::UpdateWorkspace,
        Permission::DeleteWorkspace,
        Permission::CreateOffice,
        Permission::AddOffice,
        Permission::DeleteOffice,
        Permission::UpdateOfficeSettings,
        Permission::EditOfficeConfig,
        Permission::ManageOfficeMembers,
        Permission::CreateRoom,
        Permission::AddRoom,
        Permission::DeleteRoom,
        Permission::UpdateRoomSettings,
        Permission::EditRoomConfig,
        Permission::CreateEntity,
        Permission::EditMdx,
        Permission::Themes,
        Permission::ReadMessages,
        Permission::SendMessages,
    ]
}

/// No permission is listed twice.
pub proof fn lemma_all_permissions_distinct()
    ensures
        all_permissions().no_duplicates(),
{
    let s = all_permissions();
    assert forall|i: int, j: int| 0 <= i < s.len() && 0 <= j < s.len() && i != j implies s[i] != s[j] by {
        assert(s.len() == 25);
    }
}

impl Permission {
    /// Every permission, once each.
    pub fn all_variants() -> (r: Vec<Permission>)
        ensures
            r@ == all_permissions(),
    {
        let r = vec![
            Permission::All,
            Permission::ViewContent,
            Permission::EditContent,
            Permission::AddUsers,
            Permission::RemoveUsers,
            Permission::ManageUsers,
            Permission::CreateWorkspace,
            Permission::UpdateWorkspace,
            Permission::DeleteWorkspace,
            Permission::CreateOffice,
            Permission::AddOffice,
            Permission::DeleteOffice,
            Permission::UpdateOfficeSettings,
            Permission::EditOfficeConfig,
            Permission::ManageOfficeMembers,
            Permission::CreateRoom,
            Permission::AddRoom,
            Permission::DeleteRoom,
            Permission::UpdateRoomSettings,
            Permission::EditRoomConfig,
            Permission::CreateEntity,
            Permission::EditMdx,
            Permission::Themes,
            Permission::ReadMessages,
            Permission::SendMessages,
        ];
        assert(r@ =~= all_permissions());
        r
    }
}

/// A user's standing. Roles are ranked: Admin above Owner above Member above
/// Guest above Banned; a custom role carries its own rank.
#[derive(Debug)]
pub enum UserRole {
    Admin,
    Owner,
    Member,
    Guest,
    Banned,
    Custom(String, u8),
}

/// Rank of an administrator.
pub const ADMIN_RANK: u8 = 255;
/// Rank of an owner.
pub const OWNER_RANK: u8 = 20;
/// Rank of a member.
pub const MEMBER_RANK: u8 = 10;
/// Rank of a guest.
pub const GUEST_RANK: u8 = 5;
/// Rank of a banned account.
pub const BANNED_RANK: u8 = 0;

impl UserRole {
    /// The rank of a role.
    pub open spec fn rank(&self) -> u8 {
        match self {
            UserRole::Admin => ADMIN_RANK,
            UserRole::Owner => OWNER_RANK,
            UserRole::Member => MEMBER_RANK,
            UserRole::Guest => GUEST_RANK,
            UserRole::Banned => BANNED_RANK,
            UserRole::Custom(_, rank) => *rank,
        }
    }

    /// The rank of a role.
    pub fn get_rank(&self) -> (r: u8)
        ensures
            r == self.rank(),
    {
        match self {
            UserRole::Admin => ADMIN_RANK,
            UserRole::Owner => OWNER_RANK,
            UserRole::Member => MEMBER_RANK,
            UserRole::Guest => GUEST_RANK,
            UserRole::Banned => BANNED_RANK,
            UserRole::Custom(_, rank) => *rank,
        }
    }

    /// Whether this is the administrator role.
    pub fn is_admin(&self) -> (b: bool)
        ensures
            b == (self is Admin),
    {
        match self {
            UserRole::Admin => true,
            _ => false,
        }
    }

    /// Whether two roles are the same role.
    pub open spec fn same_as(&self, other: &UserRole) -> bool {
        match (self, other) {
            (UserRole::Custom(a, r), UserRole::Custom(b, s)) => a@ == b@ && r == s,
            (UserRole::Custom(_, _), _) => false,
            (_, UserRole::Custom(_, _)) => false,
            _ => self.rank() == other.rank(),
        }
    }

    /// Whether two roles are the same role.
    pub fn equals(&self, other: &UserRole) -> (b: bool)
        ensures
            b == self.same_as(other),
    {
        match (self, other) {
            (UserRole::Custom(a, r), UserRole::Custom(b, s)) => crate::text::str_eq(a.as_str(), b.as_str())
                && *r == *s,
            (UserRole::Custom(_, _), _) => false,
            (_, UserRole::Custom(_, _)) => false,
            _ => self.get_rank() == other.get_rank(),
        }
    }
}

impl Clone for UserRole {
    /// A copy of this role.
    fn clone(&self) -> (r: UserRole)
        ensures
            r == *self,
    {
        match self {
            UserRole::Admin => UserRole::Admin,
            UserRole::Owner => UserRole::Owner,
            UserRole::Member => UserRole::Member,
            UserRole::Guest => UserRole::Guest,
            UserRole::Banned => UserRole::Banned,
            UserRole::Custom(name, rank) => UserRole::Custom(name.clone(), *rank),
        }
    }
}

/// Whether `v` holds `p`.
fn holds(v: &Vec<Permission>, p: Permission) -> (b: bool)
    ensures
        b == v@.contains(p),
{
    let mut i: usize = 0;
    while i < v.len()
        invariant
            0 <= i <= v@.len(),
            forall|j: int| 0 <= j < i ==> v@[j] != p,
        decreases v@.len() - i,
    {
        if v[i] == p {
            return true;
        }
        i = i + 1;
    }
    false
}

/// A set of permissions that can be assigned to a user or role.
#[derive(Debug)]
pub struct PermissionSet {
    permissions: Vec<Permission>,
}

impl PermissionSet {
    #[verifier::type_invariant]
    spec fn inv(self) -> bool {
        self.permissions@.no_duplicates()
    }

    /// The permissions held, as a set.
    pub closed spec fn view(&self) -> Set<Permission> {
        self.permissions@.to_set()
    }

    /// An empty set.
    pub fn new() -> (s: PermissionSet)
        ensures
            s@ == Set::<Permission>::empty(),
    {
        let s = PermissionSet { permissions: Vec::new() };
        assert(s@ =~= Set::<Permission>::empty());
        s
    }

    /// A set holding one permission.
    pub fn with_permission(permission: Permission) -> (s: PermissionSet)
        ensures
            s@ == set![permission],
    {
        let mut s = Self::new();
        s.add(permission);
        assert(s@ =~= set![permission]);
        s
    }

    /// A set holding the given permissions.
    pub fn with_permissions(permissions: &[Permission]) -> (s: PermissionSet)
        ensures
            s@ == permissions@.to_set(),
    {
        let mut s = Self::new();
        let mut i: usize = 0;
        while i < permissions.len()
            invariant
                0 <= i <= permissions@.len(),
                s@ == permissions@.subrange(0, i as int).to_set(),
            decreases permissions@.len() - i,
        {
            s.add(permissions[i]);
            proof {
                assert(permissions@.subrange(0, i + 1) =~= permissions@.subrange(0, i as int).push(
                    permissions@[i as int],
                ));
                assert(permissions@.subrange(0, i + 1).to_set() =~= permissions@.subrange(
                    0,
                    i as int,
                ).to_set().insert(permissions@[i as int])) by {
                    broadcast use vstd::seq_lib::group_seq_properties;
                }
            }
            i = i + 1;
        }
        proof {
            assert(permissions@.subrange(0, permissions@.len() as int) =~= permissions@);
        }
        s
    }

    /// Add a permission.
    pub fn add(&mut self, permission: Permission)
        ensures
            final(self)@ == old(self)@.insert(permission),
    {
        proof {
            use_type_invariant(&*self);
        }
        if !holds(&self.permissions, permission) {
            let mut v: Vec<Permission> = Vec::new();
            std::mem::swap(&mut v, &mut self.permissions);
            let ghost before = v@;
            v.push(permission);
            proof {
                assert(v@ =~= before.push(permission));
                assert(v@.no_duplicates()) by {
                    assert forall|a: int, b: int| 0 <= a < b < v@.len() implies v@[a] != v@[b] by {
                        if b == v@.len() - 1 {
                            assert(v@[a] == before[a]);
                            assert(before.contains(before[a]));
                        }
                    }
                }
                assert(v@.to_set() =~= before.to_set().insert(permission)) by {
                    broadcast use vstd::seq_lib::group_seq_properties;
                }
            }
            self.permissions = v;
        } else {
            proof {
                assert(old(self)@.insert(permission) =~= old(self)@);
            }
        }
    }

    /// Remove a permission.
    pub fn remove(&mut self, permission: Permission)
        ensures
            final(self)@ == old(self)@.remove(permission),
    {
        proof {
            use_type_invariant(&*self);
        }
        let mut kept: Vec<Permission> = Vec::new();
        let mut i: usize = 0;
        while i < self.permissions.len()
            invariant
                0 <= i <= self.permissions@.len(),
                self.permissions@.no_duplicates(),
                kept@.no_duplicates(),
                forall|q: Permission| #[trigger] kept@.contains(q) <==> (q != permission && exists|j: int|
                    0 <= j < i && self.permissions@[j] == q),
            decreases self.permissions@.len() - i,
        {
            let q = self.permissions[i];
            if q != permission {
                let ghost before = kept@;
                kept.push(q);
                proof {
                    assert forall|a: int, b: int| 0 <= a < b < kept@.len() implies kept@[a] != kept@[b] by {
                        if b == kept@.len() - 1 && kept@[a] == kept@[b] {
                            assert(kept@[a] == before[a]);
                            assert(before.contains(before[a]));
                            let j = choose|j: int| 0 <= j < i && self.permissions@[j] == before[a];
                            assert(self.permissions@[j] == self.permissions@[i as int]);
                            assert(false);
                        }
                    }
                    assert forall|r: Permission| #[trigger] kept@.contains(r) <==> (r != permission
                        && exists|j: int| 0 <= j < i + 1 && self.permissions@[j] == r) by {
                        if kept@.contains(r) {
                            let x = choose|x: int| 0 <= x < kept@.len() && kept@[x] == r;
                            if x < before.len() {
                                assert(before[x] == r);
                                assert(before.contains(r));
                            } else {
                                assert(self.permissions@[i as int] == r);
                            }
                        }
                        if r != permission && exists|j: int| 0 <= j < i + 1 && self.permissions@[j] == r {
                            let j = choose|j: int| 0 <= j < i + 1 && self.permissions@[j] == r;
                            if j < i {
                                assert(before.contains(r));
                                let x = choose|x: int| 0 <= x < before.len() && before[x] == r;
                                assert(kept@[x] == r);
                            } else {
                                assert(kept@[kept@.len() - 1] == r);
                            }
                        }
                    }
                }
            } else {
                proof {
                    assert forall|r: Permission| #[trigger] kept@.contains(r) <==> (r != permission
                        && exists|j: int| 0 <= j < i + 1 && self.permissions@[j] == r) by {
                        if r != permission && exists|j: int| 0 <= j < i + 1 && self.permissions@[j] == r {
                            let j = choose|j: int| 0 <= j < i + 1 && self.permissions@[j] == r;
                            assert(j < i);
                        }
                    }
                }
            }
            i = i + 1;
        }
        proof {
            assert(kept@.to_set() =~= old(self)@.remove(permission)) by {
                assert forall|r: Permission| kept@.to_set().contains(r) <==> old(self)@.remove(permission).contains(r) by {
                    if old(self)@.remove(permission).contains(r) {
                        let j = choose|j: int| 0 <= j < self.permissions@.len() && self.permissions@[j] == r;
                        assert(kept@.contains(r));
                    }
                }
            }
        }
        self.permissions = kept;
    }

    /// Whether the set has `permission`.
    pub fn has(&self, permission: Permission) -> (b: bool)
        ensures
            b == self@.contains(permission),
    {
        holds(&self.permissions, permission)
    }

    /// The permissions of a system administrator.
    pub fn for_admin() -> (s: PermissionSet)
        ensures
            s@ == set![
                Permission::ViewContent,
                Permission::EditContent,
                Permission::AddUsers,
                Permission::RemoveUsers,
                Permission::CreateOffice,
                Permission::DeleteOffice,
                Permission::CreateRoom,
                Permission::DeleteRoom,
                Permission::CreateWorkspace,
                Permission::UpdateWorkspace,
                Permission::DeleteWorkspace,
            ],
    {
        let v = vec![
            Permission::ViewContent,
            Permission::EditContent,
            Permission::AddUsers,
            Permission::RemoveUsers,
            Permission::CreateOffice,
            Permission::DeleteOffice,
            Permission::CreateRoom,
            Permission::DeleteRoom,
            Permission::CreateWorkspace,
            Permission::UpdateWorkspace,
            Permission::DeleteWorkspace,
        ];
        let s = Self::with_permissions(v.as_slice());
        proof {
            assert(v@.to_set() =~= set![
                Permission::ViewContent,
                Permission::EditContent,
                Permission::AddUsers,
                Permission::RemoveUsers,
                Permission::CreateOffice,
                Permission::DeleteOffice,
                Permission::CreateRoom,
                Permission::DeleteRoom,
                Permission::CreateWorkspace,
                Permission::UpdateWorkspace,
                Permission::DeleteWorkspace,
            ]) by {
                broadcast use vstd::seq_lib::group_seq_properties;
            }
        }
        s
    }

    /// The permissions of a domain owner.
    pub fn for_owner() -> (s: PermissionSet)
        ensures
            s@ == set![
                Permission::ViewContent,
                Permission::EditContent,
                Permission::CreateRoom,
                Permission::ManageOfficeMembers,
            ],
    {
        let v = vec![
            Permission::ViewContent,
            Permission::EditContent,
            Permission::CreateRoom,
            Permission::ManageOfficeMembers,
        ];
        let s = Self::with_permissions(v.as_slice());
        proof {
            assert(v@.to_set() =~= set![
                Permission::ViewContent,
                Permission::EditContent,
                Permission::CreateRoom,
                Permission::ManageOfficeMembers,
            ]) by {
                broadcast use vstd::seq_lib::group_seq_properties;
            }
        }
        s
    }

    /// The permissions of a domain member.
    pub fn for_member() -> (s: PermissionSet)
        ensures
            s@ == set![Permission::ViewContent, Permission::EditContent],
    {
        let v = vec![Permission::ViewContent, Permission::EditContent];
        let s = Self::with_permissions(v.as_slice());
        proof {
            assert(v@.to_set() =~= set![Permission::ViewContent, Permission::EditContent]) by {
                broadcast use vstd::seq_lib::group_seq_properties;
            }
        }
        s
    }

    /// The permissions of a guest.
    pub fn for_guest() -> (s: PermissionSet)
        ensures
            s@ == set![Permission::ViewContent],
    {
        Self::with_permission(Permission::ViewContent)
    }

    /// The permissions held, each once.
    pub fn all(&self) -> (r: Vec<Permission>)
        ensures
            r@.to_set() == self@,
            r@.no_duplicates(),
    {
        proof {
            use_type_invariant(self);
        }
        self.permissions.clone()
    }

    /// Number of permissions held.
    pub fn count(&self) -> (n: usize)
        ensures
            n == self@.len(),
    {
        proof {
            use_type_invariant(self);
            self.permissions@.unique_seq_to_set();
        }
        self.permissions.len()
    }

    /// Whether no permission is held.
    pub fn is_empty(&self) -> (b: bool)
        ensures
            b == (self@ == Set::<Permission>::empty()),
    {
        if self.permissions.len() == 0 {
            assert(self@ =~= Set::<Permission>::empty());
            true
        } else {
            assert(self@.contains(self.permissions@[0]));
            false
        }
    }

    /// Whether any of `permissions` is held.
    pub fn has_any(&self, permissions: &[Permission]) -> (b: bool)
        ensures
            b == (exists|i: int| 0 <= i < permissions@.len() && self@.contains(#[trigger] permissions@[i])),
    {
        let mut i: usize = 0;
        while i < permissions.len()
            invariant
                0 <= i <= permissions@.len(),
                forall|j: int| 0 <= j < i ==> !self@.contains(#[trigger] permissions@[j]),
            decreases permissions@.len() - i,
        {
            if self.has(permissions[i]) {
                return true;
            }
            i = i + 1;
        }
        false
    }

    /// Whether all of `permissions` are held.
    pub fn has_all(&self, permissions: &[Permission]) -> (b: bool)
        ensures
            b == (forall|i: int| 0 <= i < permissions@.len() ==> self@.contains(#[trigger] permissions@[i])),
    {
        let mut i: usize = 0;
        while i < permissions.len()
            invariant
                0 <= i <= permissions@.len(),
                forall|j: int| 0 <= j < i ==> self@.contains(#[trigger] permissions@[j]),
            decreases permissions@.len() - i,
        {
            if !self.has(permissions[i]) {
                return false;
            }
            i = i + 1;
        }
        true
    }

}

impl Clone for PermissionSet {
    /// A copy of this set.
    fn clone(&self) -> (r: PermissionSet)
        ensures
            r@ == self@,
    {
        proof {
            use_type_invariant(self);
        }
        PermissionSet { permissions: self.permissions.clone() }
    }
}

/// The permissions a role grants by default.
pub open spec fn role_default_permissions(role: UserRole) -> Set<Permission> {
    match role {
        UserRole::Admin => set![
            Permission::ViewContent,
            Permission::EditContent,
            Permission::AddUsers,
            Permission::RemoveUsers,
            Permission::CreateOffice,
            Permission::DeleteOffice,
            Permission::CreateRoom,
            Permission::DeleteRoom,
            Permission::CreateWorkspace,
            Permission::UpdateWorkspace,
            Permission::DeleteWorkspace,
        ],
        UserRole::Owner => set![
            Permission::ViewContent,
            Permission::EditContent,
            Permission::CreateRoom,
            Permission::ManageOfficeMembers,
        ],
        UserRole::Member => set![Permission::ViewContent, Permission::EditContent],
        UserRole::Guest => set![Permission::ViewContent],
        _ => Set::empty(),
    }
}

/// Default permissions for a role.
pub trait RolePermissions {
    /// The default permission set for this role.
    fn default_permissions(&self) -> PermissionSet;
}

impl RolePermissions for UserRole {
    fn default_permissions(&self) -> (s: PermissionSet)
        ensures
            s@ == role_default_permissions(*self),
    {
        match self {
            UserRole::Admin => PermissionSet::for_admin(),
            UserRole::Owner => PermissionSet::for_owner(),
            UserRole::Member => PermissionSet::for_member(),
            UserRole::Guest => PermissionSet::for_guest(),
            _ => PermissionSet::new(),
        }
    }
}

/// A user's membership in a domain, with its permissions.
#[derive(Debug, Clone)]
pub struct Membership {
    pub user_id: String,
    pub domain_id: String,
    pub role: UserRole,
    pub permissions: PermissionSet,
}

impl Membership {
    /// A membership with the role's default permissions.
    pub fn new(user_id: String, domain_id: String, role: UserRole) -> (m: Membership)
        ensures
            m.user_id == user_id,
            m.domain_id == domain_id,
            m.role == role,
            m.permissions@ == role_default_permissions(role),
    {
        let permissions = role.default_permissions();
        Membership { user_id, domain_id, role, permissions }
    }

    /// Whether this membership holds `permission`.
    pub fn has_permission(&self, permission: Permission) -> (b: bool)
        ensures
            b == self.permissions@.contains(permission),
    {
        self.permissions.has(permission)
    }

    /// Whether this membership holds any of `permissions`.
    pub fn has_any_permission(&self, permissions: &[Permission]) -> (b: bool)
        ensures
            b == (exists|i: int|
                0 <= i < permissions@.len() && self.permissions@.contains(#[trigger] permissions@[i])),
    {
        self.permissions.has_any(permissions)
    }

    /// Whether this membership holds all of `permissions`.
    pub fn has_all_permissions(&self, permissions: &[Permission]) -> (b: bool)
        ensures
            b == (forall|i: int|
                0 <= i < permissions@.len() ==> self.permissions@.contains(#[trigger] permissions@[i])),
    {
        self.permissions.has_all(permissions)
    }
}

} // verus!
