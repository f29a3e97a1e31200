use vstd::prelude::*;

verus! {

/// A single capability a user may hold. A user's capabilities are stored
/// together as a bit mask (the user's descriptor).
#[derive(Debug, Clone, Copy, PartialEq, Eq, Structural)]
pub enum UserPermission {
    Manage,
    Link,
    Code,
    File,
}

/// The bit that stands for `p` in a stored descriptor.
pub open spec fn permission_bit(p: UserPermission) -> i64 {
    match p {
        UserPermission::Manage => 1,
        UserPermission::Link => 2,
        UserPermission::Code => 4,
        UserPermission::File => 8,
    }
}

/// Whether the descriptor `d` grants `p`.
pub open spec fn has_permission(d: i64, p: UserPermission) -> bool {
    d & permission_bit(p) != 0
}

/// The permissions that `d` grants, in the order Manage, Link, Code, File.
pub open spec fn permissions_of(d: i64) -> Seq<UserPermission> {
    (if has_permission(d, UserPermission::Manage) { seq![UserPermission::Manage] } else { seq![] })
    + (if has_permission(d, UserPermission::Link) { seq![UserPermission::Link] } else { seq![] })
    + (if has_permission(d, UserPermission::Code) { seq![UserPermission::Code] } else { seq![] })
    + (if has_permission(d, UserPermission::File) { seq![UserPermission::File] } else { seq![] })
}

/// The descriptor that grants exactly the listed permissions: the union of
/// their bits.
pub open spec fn bits_of(s: Seq<UserPermission>) -> i64
    decreases s.len(),
{
    if s.len() == 0 {
        0
    } else {
        bits_of(s.drop_last()) | permission_bit(s.last())
    }
}

impl UserPermission {
    pub fn into_i64(self) -> (r: i64)
        ensures
            r == permission_bit(self),
    {
        match self {
            UserPermission::Manage => 1,
            UserPermission::Link => 2,
            UserPermission::Code => 4,
            UserPermission::File => 8,
        }
    }

    pub fn as_i64(&self) -> (r: i64)
        ensures
            r == permission_bit(*self),
    {
        self.into_i64()
    }

    /// Lists the permissions that the descriptor `i` grants.
    pub fn from_i64(i: i64) -> (r: Vec<UserPermission>)
        ensures
            r@ == permissions_of(i),
    {
        let mut result: Vec<UserPermission> = Vec::new();
        if i & UserPermission::Manage.as_i64() != 0 {
            result.push(UserPermission::Manage);
        }
        if i & UserPermission::Link.as_i64() != 0 {
            result.push(UserPermission::Link);
        }
        if i & UserPermission::Code.as_i64() != 0 {
            result.push(UserPermission::Code);
        }
        if i & UserPermission::File.as_i64() != 0 {
            result.push(UserPermission::File);
        }
        assert(result@ =~= permissions_of(i));
        result
    }
}

/// Membership test of a permission in a stored descriptor.
pub trait ToPermission: Sized {
    spec fn grants(self, permission: UserPermission) -> bool;

    fn contains(self, permission: UserPermission) -> (r: bool)
        ensures
            r == self.grants(permission),
    ;
}

impl ToPermission for i64 {
    open spec fn grants(self, permission: UserPermission) -> bool {
        has_permission(self, permission)
    }

    fn contains(self, permission: UserPermission) -> (r: bool) {
        self & permission.into_i64() != 0
    }
}

/// The descriptor for a list of granted permissions: the union of their bits,
/// so that a repeated permission changes nothing.
pub fn descriptor_of(permissions: &Vec<UserPermission>) -> (r: i64)
    ensures
        r == bits_of(permissions@),
        0 <= r <= 15,
{
    let mut bits: i64 = 0;
    let mut i: usize = 0;
    while i < permissions.len()
        invariant
            i <= permissions@.len(),
            0 <= bits <= 15,
            bits == bits_of(permissions@.subrange(0, i as int)),
        decreases permissions@.len() - i,
    {
        let b = permissions[i].as_i64();
        assert(permissions@.subrange(0, i + 1).drop_last() =~= permissions@.subrange(0, i as int));
        assert(1 <= b <= 8);
        assert(0 <= (bits | b) <= 15) by (bit_vector)
            requires
                0 <= bits <= 15,
                1 <= b <= 8,
        ;
        bits = bits | b;
        i = i + 1;
    }
    assert(permissions@.subrange(0, i as int) =~= permissions@);
    bits
}

} // verus!
