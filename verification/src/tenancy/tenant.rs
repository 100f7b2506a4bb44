//! Tenants and their specifications.

use vstd::prelude::*;

use crate::error::{CelError, CelResult};
use crate::tenancy::caps::TenantCaps;
use crate::tenancy::namespace;
use crate::tenancy::namespace::validate_segment;
use crate::tenancy::quota::{QuotaUsage, TenantQuotas};
use crate::tenancy::user::{User, UserView};
use crate::text;

verus! {

/// Identifier of a tenant. Ids grow and are never used again.
#[derive(Debug, Clone, Copy, PartialEq, Eq, Hash, PartialOrd, Ord, Structural)]
pub struct TenantId(pub u64);

impl TenantId {
    /// The number itself.
    pub fn raw(self) -> (r: u64)
        ensures
            r == self.0,
    {
        self.0
    }

    /// `tenant-<n>`.
    pub fn display(&self) -> (r: String)
        ensures
            r@ == "tenant-"@ + text::decimal(self.0 as nat),
    {
        text::concat("tenant-", text::decimal_string(self.0).as_str())
    }
}

/// What an operator asks for when a tenant is created.
#[derive(Debug)]
pub struct TenantSpec {
    /// Name, a valid path segment.
    pub name: String,
    /// Ceilings of the new tenant.
    pub quotas: TenantQuotas,
    /// Parent, for a subtenant.
    pub parent: Option<TenantId>,
}

/// Mathematical value of a [`TenantSpec`].
#[verifier::ext_equal]
pub struct TenantSpecView {
    /// See [`TenantSpec::name`].
    pub name: Seq<char>,
    /// See [`TenantSpec::quotas`].
    pub quotas: TenantQuotas,
    /// See [`TenantSpec::parent`].
    pub parent: Option<TenantId>,
}

impl View for TenantSpec {
    type V = TenantSpecView;

    open spec fn view(&self) -> TenantSpecView {
        TenantSpecView { name: self.name@, quotas: self.quotas, parent: self.parent }
    }
}

impl Clone for TenantSpec {
    fn clone(&self) -> (r: TenantSpec)
        ensures
            r == *self,
    {
        TenantSpec { name: self.name.clone(), quotas: self.quotas, parent: self.parent }
    }
}

impl TenantSpec {
    /// Checks the name and builds a specification without a parent.
    pub fn new(name: &str, quotas: TenantQuotas) -> (r: CelResult<TenantSpec>)
        ensures
            match namespace::validated(name@) {
                Ok(_) => r matches Ok(s) && s@ == (TenantSpecView {
                    name: name@,
                    quotas,
                    parent: None,
                }),
                Err(e) => r == Err::<TenantSpec, CelError>(e),
            },
    {
        match validate_segment(name) {
            Ok(_) => Ok(TenantSpec { name: name.to_owned(), quotas, parent: None }),
            Err(e) => Err(e),
        }
    }

    /// Places the tenant under `parent`.
    pub fn with_parent(self, parent: TenantId) -> (r: TenantSpec)
        ensures
            r@ == (TenantSpecView { parent: Some(parent), ..self@ }),
    {
        TenantSpec { name: self.name, quotas: self.quotas, parent: Some(parent) }
    }
}

/// A live tenant.
#[derive(Debug)]
pub struct Tenant {
    /// Identifier.
    pub id: TenantId,
    /// Name.
    pub name: String,
    /// `/tenants/<name>`.
    pub namespace: String,
    /// Capabilities that no user of the tenant exceeds.
    pub root_caps: TenantCaps,
    /// Users.
    pub users: Vec<User>,
    /// Ceilings.
    pub quotas: TenantQuotas,
    /// Current use, subtenants included.
    pub usage: QuotaUsage,
    /// Parent, for a subtenant.
    pub parent: Option<TenantId>,
}

/// Mathematical value of a [`Tenant`].
#[verifier::ext_equal]
pub struct TenantView {
    /// See [`Tenant::id`].
    pub id: TenantId,
    /// See [`Tenant::name`].
    pub name: Seq<char>,
    /// See [`Tenant::namespace`].
    pub namespace: Seq<char>,
    /// See [`Tenant::root_caps`].
    pub root_caps: TenantCaps,
    /// See [`Tenant::users`].
    pub users: Seq<UserView>,
    /// See [`Tenant::quotas`].
    pub quotas: TenantQuotas,
    /// See [`Tenant::usage`].
    pub usage: QuotaUsage,
    /// See [`Tenant::parent`].
    pub parent: Option<TenantId>,
}

/// Mathematical value of a list of users.
pub open spec fn user_views(users: Seq<User>) -> Seq<UserView> {
    Seq::new(users.len(), |i: int| users[i]@)
}

impl View for Tenant {
    type V = TenantView;

    open spec fn view(&self) -> TenantView {
        TenantView {
            id: self.id,
            name: self.name@,
            namespace: self.namespace@,
            root_caps: self.root_caps,
            users: user_views(self.users@),
            quotas: self.quotas,
            usage: self.usage,
            parent: self.parent,
        }
    }
}

/// Copies a list of users.
pub fn clone_users(users: &Vec<User>) -> (r: Vec<User>)
    ensures
        user_views(r@) == user_views(users@),
{
    let mut out: Vec<User> = Vec::new();
    let mut i: usize = 0;
    while i < users.len()
        invariant
            i <= users@.len(),
            out@.len() == i,
            forall|j: int| 0 <= j < i ==> out@[j] == users@[j],
        decreases users@.len() - i,
    {
        out.push(users[i].clone());
        i = i + 1;
    }
    assert(user_views(out@) =~= user_views(users@));
    out
}

impl Clone for Tenant {
    fn clone(&self) -> (r: Tenant)
        ensures
            r@ == self@,
    {
        Tenant {
            id: self.id,
            name: self.name.clone(),
            namespace: self.namespace.clone(),
            root_caps: self.root_caps,
            users: clone_users(&self.users),
            quotas: self.quotas,
            usage: self.usage,
            parent: self.parent,
        }
    }
}

impl Tenant {
    /// Checks a candidate tenant name.
    pub fn validate_name(name: &str) -> (r: CelResult<()>)
        ensures
            r == namespace::validated(name@),
    {
        validate_segment(name)
    }
}

} // verus!
