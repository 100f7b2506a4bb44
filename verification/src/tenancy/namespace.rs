//! Paths of the form `/tenants/<name>/…` and the rules for their segments.

use vstd::prelude::*;
use vstd::string::*;
use vstd::utf8::*;

use crate::error::{CelError, CelResult};
use crate::text::concat;

verus! {

/// Longest path segment, in bytes.
pub const MAX_SEGMENT_BYTES: usize = 64;

/// Whether a byte may stand in a path segment: a letter, a digit, `-` or `_`.
pub open spec fn segment_byte(b: u8) -> bool {
    ||| 0x30 <= b <= 0x39
    ||| 0x41 <= b <= 0x5a
    ||| 0x61 <= b <= 0x7a
    ||| b == 0x2d
    ||| b == 0x5f
}

/// Whether every byte of a name may stand in a path segment.
pub open spec fn segment_text(s: Seq<char>) -> bool {
    forall|i: int|
        0 <= i < encode_utf8(s).len() ==> segment_byte(#[trigger] encode_utf8(s)[i])
}

/// The verdict on a name as a path segment.
pub open spec fn validated(s: Seq<char>) -> CelResult<()> {
    if s.len() == 0 {
        Err(CelError::Invalid("tenancy: name empty"))
    } else if encode_utf8(s).len() > MAX_SEGMENT_BYTES {
        Err(CelError::Invalid("tenancy: name longer than 64 bytes"))
    } else if !segment_text(s) {
        Err(CelError::Invalid("tenancy: name must match [A-Za-z0-9_-]+"))
    } else {
        Ok(())
    }
}

/// Checks a name as a path segment: not empty, at most 64 bytes, made of
/// letters, digits, `-` and `_`. Shared by tenant and user names.
pub fn validate_segment(s: &str) -> (r: CelResult<()>)
    ensures
        r == validated(s@),
{
    if s.is_empty() {
        return Err(CelError::Invalid("tenancy: name empty"));
    }
    let bytes = s.as_bytes();
    if bytes.len() > MAX_SEGMENT_BYTES {
        return Err(CelError::Invalid("tenancy: name longer than 64 bytes"));
    }
    let mut i: usize = 0;
    while i < bytes.len()
        invariant
            i <= bytes@.len(),
            bytes@ == encode_utf8(s@),
            s@.len() > 0,
            bytes@.len() <= MAX_SEGMENT_BYTES,
            forall|j: int| 0 <= j < i ==> segment_byte(#[trigger] bytes@[j]),
        decreases bytes@.len() - i,
    {
        let b: u8 = bytes[i];
        let ok = (0x30 <= b && b <= 0x39) || (0x41 <= b && b <= 0x5a) || (0x61 <= b && b <= 0x7a)
            || b == 0x2d || b == 0x5f;
        if !ok {
            assert(!segment_byte(encode_utf8(s@)[i as int]));
            return Err(CelError::Invalid("tenancy: name must match [A-Za-z0-9_-]+"));
        }
        i = i + 1;
    }
    Ok(())
}

/// Builder of the paths that belong to one tenant.
#[derive(Debug, Clone)]
pub struct TenantNamespace {
    root: String,
}

/// `/tenants/<name>`.
pub open spec fn root_path(name: Seq<char>) -> Seq<char> {
    "/tenants/"@ + name
}

impl View for TenantNamespace {
    type V = Seq<char>;

    closed spec fn view(&self) -> Seq<char> {
        self.root@
    }
}

impl TenantNamespace {
    /// Builds the namespace of the tenant called `tenant_name`.
    pub fn new(tenant_name: &str) -> (r: CelResult<TenantNamespace>)
        ensures
            match validated(tenant_name@) {
                Ok(_) => r matches Ok(ns) && ns@ == root_path(tenant_name@),
                Err(e) => r == Err::<TenantNamespace, CelError>(e),
            },
    {
        match validate_segment(tenant_name) {
            Ok(_) => Ok(TenantNamespace { root: concat("/tenants/", tenant_name) }),
            Err(e) => Err(e),
        }
    }

    /// `/tenants/<name>`.
    pub fn root(&self) -> (r: &str)
        ensures
            r@ == self@,
    {
        self.root.as_str()
    }

    /// `/tenants/<name>/vms`.
    pub fn vms(&self) -> (r: String)
        ensures
            r@ == self@ + "/vms"@,
    {
        concat(self.root.as_str(), "/vms")
    }

    /// `/tenants/<name>/volumes`.
    pub fn volumes(&self) -> (r: String)
        ensures
            r@ == self@ + "/volumes"@,
    {
        concat(self.root.as_str(), "/volumes")
    }

    /// `/tenants/<name>/networks`.
    pub fn networks(&self) -> (r: String)
        ensures
            r@ == self@ + "/networks"@,
    {
        concat(self.root.as_str(), "/networks")
    }

    /// `/tenants/<name>/users`.
    pub fn users(&self) -> (r: String)
        ensures
            r@ == self@ + "/users"@,
    {
        concat(self.root.as_str(), "/users")
    }

    /// `/tenants/<name>/quotas`.
    pub fn quotas(&self) -> (r: String)
        ensures
            r@ == self@ + "/quotas"@,
    {
        concat(self.root.as_str(), "/quotas")
    }

    /// `/tenants/<name>/users/<user>`.
    pub fn user_path(&self, user_name: &str) -> (r: CelResult<String>)
        ensures
            match validated(user_name@) {
                Ok(_) => r matches Ok(p) && p@ == self@ + "/users/"@ + user_name@,
                Err(e) => r == Err::<String, CelError>(e),
            },
    {
        match validate_segment(user_name) {
            Ok(_) => {
                let mut p = concat(self.root.as_str(), "/users/");
                p.append(user_name);
                Ok(p)
            },
            Err(e) => Err(e),
        }
    }
}

/// Two tenants share a root path only if they share a name.
pub proof fn law_root_path_injective(a: Seq<char>, b: Seq<char>)
    requires
        root_path(a) == root_path(b),
    ensures
        a == b,
{
    let n = "/tenants/"@.len() as int;
    assert(root_path(a).skip(n) =~= a);
    assert(root_path(b).skip(n) =~= b);
}

} // verus!
