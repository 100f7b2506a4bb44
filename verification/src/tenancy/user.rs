//! Users of a tenant.

use vstd::prelude::*;

use crate::tenancy::auth::PasswordHashStr;
use crate::tenancy::caps::TenantCaps;
use crate::text;

verus! {

/// Identifier of a user. Ids grow and are never used again.
#[derive(Debug, Clone, Copy, PartialEq, Eq, Hash, PartialOrd, Ord, Structural)]
pub struct UserId(pub u64);

impl UserId {
    /// The number itself.
    pub fn raw(self) -> (r: u64)
        ensures
            r == self.0,
    {
        self.0
    }

    /// `user-<n>`.
    pub fn display(&self) -> (r: String)
        ensures
            r@ == "user-"@ + text::decimal(self.0 as nat),
    {
        text::concat("user-", text::decimal_string(self.0).as_str())
    }
}

/// A user inside a tenant.
#[derive(Debug)]
pub struct User {
    /// Identifier.
    pub id: UserId,
    /// Name, a valid path segment.
    pub name: String,
    /// Capabilities, never more than the tenant's root set.
    pub caps: TenantCaps,
    /// Password hash, if a password was set.
    pub password_hash: Option<PasswordHashStr>,
}

/// Mathematical value of a [`User`].
#[verifier::ext_equal]
pub struct UserView {
    /// See [`User::id`].
    pub id: UserId,
    /// See [`User::name`].
    pub name: Seq<char>,
    /// See [`User::caps`].
    pub caps: TenantCaps,
    /// See [`User::password_hash`].
    pub password_hash: Option<Seq<char>>,
}

impl View for User {
    type V = UserView;

    open spec fn view(&self) -> UserView {
        UserView {
            id: self.id,
            name: self.name@,
            caps: self.caps,
            password_hash: match self.password_hash {
                Some(h) => Some(h@),
                None => None,
            },
        }
    }
}

impl Clone for User {
    fn clone(&self) -> (r: User)
        ensures
            r == *self,
    {
        User {
            id: self.id,
            name: self.name.clone(),
            caps: self.caps,
            password_hash: match &self.password_hash {
                Some(h) => Some(h.clone()),
                None => None,
            },
        }
    }
}

} // verus!
