//! Access control of the relay server: the authorities a user or a role may hold.
use vstd::prelude::*;

verus! {

/// Can access administrative actions: assign users administrative roles and authorities,
/// and create administrative access rules.
pub const ADMIN: u32 = 0x01;
/// Can add, remove and update users.
pub const EDIT_USER_LIST: u32 = 0x02;
/// Can edit user authority, except for administrative roles.
pub const ASSIGN_USER_AUTH: u32 = 0x04;
/// Can assign users to a role, for non-administrative roles.
pub const ASSIGN_USER_ROLE: u32 = 0x08;
/// Can duplicate the current user's role and authority.
pub const DUPLICATE_SELF: u32 = 0x10;
/// Can set notification hooks.
pub const SET_SITE_HOOK: u32 = 0x20;
/// Can access the site's log.
pub const ACCESS_SITE_LOG: u32 = 0x40;
/// Can access the site's configuration history.
pub const ACCESS_SITE_HISTORY: u32 = 0x80;
/// Can modify the site's configuration.
pub const MODIFY_SITE_CONFIG: u32 = 0x100;

/// A set of authorities, one bit each.
#[derive(Debug, Clone, Copy, PartialEq, Eq, Structural)]
pub struct Authority {
    pub bits: u32,
}

impl Authority {
    /// The authorities given by `bits`.
    pub fn from_bits(bits: u32) -> (r: Authority)
        ensures
            r.bits == bits,
    {
        Authority { bits }
    }

    /// Whether every authority of `other` is held here.
    pub fn contains(&self, other: u32) -> (r: bool)
        ensures
            r == (self.bits & other == other),
    {
        self.bits & other == other
    }

    /// The authority set of administrative roles: the default one, which holds nothing.
    pub fn administrative() -> (r: Authority)
        ensures
            r.bits == 0,
    {
        Authority { bits: 0 }
    }
}

} // verus!
