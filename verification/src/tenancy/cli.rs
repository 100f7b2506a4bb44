//! The administrator's commands: what each does to a store and what it prints.

use vstd::prelude::*;
use vstd::string::*;

use crate::error;
use crate::error::{CelError, CelResult, ErrorView};
use crate::tenancy::caps;
use crate::tenancy::caps::TenantCaps;
use crate::tenancy::hierarchy;
use crate::tenancy::namespace;
use crate::tenancy::quota::{QuotaCharge, QuotaUsage, TenantQuotas};
use crate::tenancy::store;
use crate::tenancy::store::{position_of_user_name, StoreState, StoreView};
use crate::tenancy::tenant;
use crate::tenancy::tenant::{Tenant, TenantId, TenantSpec, TenantSpecView, TenantView};
use crate::tenancy::user::{User, UserId, UserView};
use crate::text;
use crate::text::{concat, push_decimal};

verus! {

/// Commands on tenants.
#[derive(Debug)]
pub enum TenantCmd {
    /// Creates a tenant.
    Create {
        /// Name.
        name: String,
        /// Ceilings.
        quotas: TenantQuotas,
        /// Tags of the root capabilities.
        caps: String,
    },
    /// Lists the tenants.
    List,
    /// Shows a tenant.
    Show {
        /// Name.
        name: String,
    },
    /// Deletes a tenant.
    Delete {
        /// Name.
        name: String,
    },
}

/// Commands on the users of a tenant.
#[derive(Debug)]
pub enum UserCmd {
    /// Adds a user.
    Add {
        /// Tenant.
        tenant: String,
        /// Name.
        name: String,
        /// Tags of the capabilities.
        caps: String,
    },
    /// Lists the users.
    List {
        /// Tenant.
        tenant: String,
    },
    /// Removes a user.
    Remove {
        /// Tenant.
        tenant: String,
        /// Name.
        name: String,
    },
}

/// Commands on the quotas of a tenant.
#[derive(Debug)]
pub enum QuotaCmd {
    /// Shows ceilings and usage.
    Show {
        /// Tenant.
        tenant: String,
    },
    /// Charges an allocation.
    Charge {
        /// Tenant.
        tenant: String,
        /// Allocation.
        charge: QuotaCharge,
    },
    /// Gives an allocation back.
    Release {
        /// Tenant.
        tenant: String,
        /// Allocation.
        charge: QuotaCharge,
    },
}

/// `n` blanks.
pub open spec fn blanks(n: int) -> Seq<char>
    decreases n,
{
    if n <= 0 {
        Seq::empty()
    } else {
        blanks(n - 1) + " "@
    }
}

/// A text with blanks behind it, at least `width` characters long.
pub open spec fn padded(s: Seq<char>, width: int) -> Seq<char> {
    s + blanks(width - s.len())
}

/// See [`padded`].
fn pad(s: &str, width: usize) -> (r: String)
    ensures
        r@ == padded(s@, width as int),
{
    let mut out = s.to_owned();
    let len: usize = s.unicode_len();
    let mut i: usize = len;
    assert(out@ =~= s@ + blanks(0));
    while i < width
        invariant
            len == s@.len(),
            len <= i,
            len < width ==> i <= width,
            len >= width ==> i == len,
            out@ == s@ + blanks(i - len),
        decreases width - i,
    {
        out.append(" ");
        i = i + 1;
        assert(out@ =~= s@ + blanks(i - len));
    }
    proof {
        if len >= width {
            assert(blanks(width - len) =~= blanks(0));
        }
    }
    out
}

/// The name of a tenant id.
pub open spec fn id_text(id: TenantId) -> Seq<char> {
    "tenant-"@ + text::decimal(id.0 as nat)
}

/// The name of a user id.
pub open spec fn user_id_text(id: UserId) -> Seq<char> {
    "user-"@ + text::decimal(id.0 as nat)
}

/// The line on a tenant that was created.
pub open spec fn created_text(t: TenantView) -> Seq<char> {
    id_text(t.id) + "  name="@ + t.name + "  ns="@ + t.namespace + "  caps="@
        + caps::rendered_tags(t.root_caps) + "\n"@
}

/// The line on a tenant in a list.
pub open spec fn row_text(t: TenantView) -> Seq<char> {
    padded(id_text(t.id), 14) + "  "@ + padded(t.name, 24) + "  "@ + t.namespace + "\n"@
}

/// The list of the tenants.
pub open spec fn list_text(ts: Seq<TenantView>) -> Seq<char>
    decreases ts.len(),
{
    if ts.len() == 0 {
        padded("ID"@, 14) + "  "@ + padded("NAME"@, 24) + "  "@ + "NAMESPACE\n"@
    } else {
        list_text(ts.drop_last()) + row_text(ts.last())
    }
}

/// The line on ceilings.
pub open spec fn quotas_text(q: TenantQuotas) -> Seq<char> {
    "quotas    = vcpus<= "@ + text::decimal(q.max_vcpus as nat) + ", memory_mib<= "@
        + text::decimal(q.max_memory_mib as nat) + ", storage<= "@ + text::decimal(
        q.max_storage_bytes as nat,
    ) + " B, net<= "@ + text::decimal(q.max_network_mbps as nat) + " Mbps, iops<= "@
        + text::decimal(q.max_iops as nat) + "\n"@
}

/// The line on a usage, after a heading.
pub open spec fn usage_text(head: Seq<char>, u: QuotaUsage) -> Seq<char> {
    head + "vcpus= "@ + text::decimal(u.vcpus as nat) + ", memory_mib= "@ + text::decimal(
        u.memory_mib as nat,
    ) + ", storage= "@ + text::decimal(u.storage_bytes as nat) + " B, net= "@ + text::decimal(
        u.network_mbps as nat,
    ) + " Mbps, iops= "@ + text::decimal(u.iops as nat) + "\n"@
}

/// The lines on the users of a tenant that is shown.
pub open spec fn users_text(us: Seq<UserView>) -> Seq<char>
    decreases us.len(),
{
    if us.len() == 0 {
        Seq::empty()
    } else {
        users_text(us.drop_last()) + ("  "@ + user_id_text(us.last().id) + "  name="@
            + us.last().name + "  caps="@ + caps::rendered_tags(us.last().caps) + "\n"@)
    }
}

/// The lines on a tenant that is shown.
pub open spec fn show_text(t: TenantView) -> Seq<char> {
    "id        = "@ + id_text(t.id) + "\nname      = "@ + t.name + "\nnamespace = "@ + t.namespace
        + "\nroot_caps = "@ + caps::rendered_tags(t.root_caps) + "\n"@ + quotas_text(t.quotas)
        + usage_text("usage     = "@, t.usage) + "users     = "@ + text::decimal(t.users.len())
        + "\n"@ + users_text(t.users)
}

/// The list of the users of a tenant.
pub open spec fn user_list_text(us: Seq<UserView>) -> Seq<char>
    decreases us.len(),
{
    if us.len() == 0 {
        padded("ID"@, 10) + "  "@ + padded("NAME"@, 24) + "  "@ + "CAPS\n"@
    } else {
        user_list_text(us.drop_last()) + (padded(user_id_text(us.last().id), 10) + "  "@ + padded(
            us.last().name,
            24,
        ) + "  "@ + caps::rendered_tags(us.last().caps) + "\n"@)
    }
}

/// A failure as a mathematical value.
pub open spec fn failed(s: StoreView, e: CelError) -> (StoreView, Result<Seq<char>, ErrorView>) {
    (s, Err(e@))
}

/// What [`run_tenant`] does and prints.
pub open spec fn tenant_ran(s: StoreView, op: TenantCmd) -> (
    StoreView,
    Result<Seq<char>, ErrorView>,
) {
    match op {
        TenantCmd::Create { name, quotas, caps } => match caps::parsed_tags(caps@) {
            Err(e) => failed(s, e),
            Ok(c) => match namespace::validated(name@) {
                Err(e) => failed(s, e),
                Ok(_) => {
                    let spec = TenantSpecView { name: name@, quotas, parent: None };
                    let (n, out) = store::created(s, spec, c);
                    match out {
                        Err(e) => (n, Err(e)),
                        Ok(t) => (n, Ok(created_text(t))),
                    }
                },
            },
        },
        TenantCmd::List => (s, Ok(list_text(s.tenants))),
        TenantCmd::Show { name } => match store::find_name(s.tenants, name@) {
            None => failed(s, CelError::Invalid("tenant name unknown")),
            Some(i) => (s, Ok(show_text(s.tenants[i]))),
        },
        TenantCmd::Delete { name } => match store::find_name(s.tenants, name@) {
            None => failed(s, CelError::Invalid("tenant name unknown")),
            Some(i) => {
                let t = s.tenants[i];
                let (n, out) = store::deleted(s, t.id);
                match out {
                    Err(e) => (n, Err(e)),
                    Ok(_) => (n, Ok("deleted "@ + t.name + " ("@ + id_text(t.id) + ")\n"@)),
                }
            },
        },
    }
}

/// What [`run_user`] does and prints.
pub open spec fn user_ran(s: StoreView, op: UserCmd) -> (StoreView, Result<Seq<char>, ErrorView>) {
    match op {
        UserCmd::Add { tenant, name, caps } => match store::find_name(s.tenants, tenant@) {
            None => failed(s, CelError::Invalid("tenant name unknown")),
            Some(i) => match caps::parsed_tags(caps@) {
                Err(e) => failed(s, e),
                Ok(c) => {
                    let t = s.tenants[i];
                    let (n, out) = store::user_added(s, t.id, name@, c);
                    match out {
                        Err(e) => (n, Err(e)),
                        Ok(u) => (
                            n,
                            Ok(
                                user_id_text(u.id) + "  name="@ + u.name + "  caps="@
                                    + caps::rendered_tags(u.caps) + "  tenant="@ + t.name + "\n"@,
                            ),
                        ),
                    }
                },
            },
        },
        UserCmd::List { tenant } => match store::find_name(s.tenants, tenant@) {
            None => failed(s, CelError::Invalid("tenant name unknown")),
            Some(i) => (s, Ok(user_list_text(s.tenants[i].users))),
        },
        UserCmd::Remove { tenant, name } => match store::find_name(s.tenants, tenant@) {
            None => failed(s, CelError::Invalid("tenant name unknown")),
            Some(i) => {
                let t = s.tenants[i];
                match store::find_user_name(t.users, name@) {
                    None => failed(s, CelError::Invalid("user name unknown")),
                    Some(k) => {
                        let (n, out) = store::user_removed(s, t.id, t.users[k].id);
                        match out {
                            Err(e) => (n, Err(e)),
                            Ok(_) => (n, Ok("removed "@ + name@ + " from "@ + t.name + "\n"@)),
                        }
                    },
                }
            },
        },
    }
}

/// What [`run_quota`] does and prints.
pub open spec fn quota_ran(s: StoreView, op: QuotaCmd) -> (
    StoreView,
    Result<Seq<char>, ErrorView>,
) {
    match op {
        QuotaCmd::Show { tenant } => match store::find_name(s.tenants, tenant@) {
            None => failed(s, CelError::Invalid("tenant name unknown")),
            Some(i) => {
                let t = s.tenants[i];
                (
                    s,
                    Ok(
                        "tenant    = "@ + t.name + "\n"@ + quotas_text(t.quotas) + usage_text(
                            "usage     = "@,
                            t.usage,
                        ),
                    ),
                )
            },
        },
        QuotaCmd::Charge { tenant, charge } => match store::find_name(s.tenants, tenant@) {
            None => failed(s, CelError::Invalid("tenant name unknown")),
            Some(i) => {
                let (n, out) = hierarchy::store_charged(s, s.tenants[i].id, charge);
                match out {
                    Err(e) => (n, Err(e)),
                    Ok(u) => (n, Ok(usage_text("charged: "@, u))),
                }
            },
        },
        QuotaCmd::Release { tenant, charge } => match store::find_name(s.tenants, tenant@) {
            None => failed(s, CelError::Invalid("tenant name unknown")),
            Some(i) => {
                let (n, out) = hierarchy::store_released(s, s.tenants[i].id, charge);
                match out {
                    Err(e) => (n, Err(e)),
                    Ok(u) => (n, Ok(usage_text("released: "@, u))),
                }
            },
        },
    }
}

/// The line on ceilings.
fn quotas_line(q: &TenantQuotas) -> (r: String)
    ensures
        r@ == quotas_text(*q),
{
    let mut s = "quotas    = vcpus<= ".to_owned();
    push_decimal(&mut s, q.max_vcpus as u64);
    s.append(", memory_mib<= ");
    push_decimal(&mut s, q.max_memory_mib);
    s.append(", storage<= ");
    push_decimal(&mut s, q.max_storage_bytes);
    s.append(" B, net<= ");
    push_decimal(&mut s, q.max_network_mbps as u64);
    s.append(" Mbps, iops<= ");
    push_decimal(&mut s, q.max_iops as u64);
    s.append("\n");
    s
}

/// The line on a usage.
fn usage_line(head: &str, u: &QuotaUsage) -> (r: String)
    ensures
        r@ == usage_text(head@, *u),
{
    let mut s = concat(head, "vcpus= ");
    push_decimal(&mut s, u.vcpus as u64);
    s.append(", memory_mib= ");
    push_decimal(&mut s, u.memory_mib);
    s.append(", storage= ");
    push_decimal(&mut s, u.storage_bytes);
    s.append(" B, net= ");
    push_decimal(&mut s, u.network_mbps as u64);
    s.append(" Mbps, iops= ");
    push_decimal(&mut s, u.iops as u64);
    s.append("\n");
    s
}

/// The lines on the users of a tenant that is shown.
fn users_lines(users: &Vec<User>) -> (r: String)
    ensures
        r@ == users_text(tenant::user_views(users@)),
{
    let ghost all = tenant::user_views(users@);
    let mut out = String::new();
    let mut i: usize = 0;
    assert(all.take(0) =~= Seq::empty());
    assert(out@ =~= Seq::empty());
    while i < users.len()
        invariant
            i <= users@.len(),
            all == tenant::user_views(users@),
            out@ == users_text(all.take(i as int)),
        decreases users@.len() - i,
    {
        let u = &users[i];
        let mut line = concat("  ", u.id.display().as_str());
        line.append("  name=");
        line.append(u.name.as_str());
        line.append("  caps=");
        line.append(u.caps.to_tags().as_str());
        line.append("\n");
        out.append(line.as_str());
        proof {
            let t = all.take(i + 1);
            assert(t.drop_last() =~= all.take(i as int));
            assert(t.last() == u@);
        }
        i = i + 1;
    }
    assert(all.take(i as int) =~= all);
    out
}

/// The list of the users of a tenant.
fn user_list(users: &Vec<User>) -> (r: String)
    ensures
        r@ == user_list_text(tenant::user_views(users@)),
{
    let ghost all = tenant::user_views(users@);
    let mut out = pad("ID", 10);
    out.append("  ");
    out.append(pad("NAME", 24).as_str());
    out.append("  ");
    out.append("CAPS\n");
    let mut i: usize = 0;
    assert(all.take(0) =~= Seq::empty());
    while i < users.len()
        invariant
            i <= users@.len(),
            all == tenant::user_views(users@),
            out@ == user_list_text(all.take(i as int)),
        decreases users@.len() - i,
    {
        let u = &users[i];
        let mut line = pad(u.id.display().as_str(), 10);
        line.append("  ");
        line.append(pad(u.name.as_str(), 24).as_str());
        line.append("  ");
        line.append(u.caps.to_tags().as_str());
        line.append("\n");
        out.append(line.as_str());
        proof {
            let t = all.take(i + 1);
            assert(t.drop_last() =~= all.take(i as int));
            assert(t.last() == u@);
        }
        i = i + 1;
    }
    assert(all.take(i as int) =~= all);
    out
}

/// The list of the tenants.
fn tenant_list(tenants: &Vec<Tenant>) -> (r: String)
    ensures
        r@ == list_text(store::tenant_views(tenants@)),
{
    let ghost all = store::tenant_views(tenants@);
    let mut out = pad("ID", 14);
    out.append("  ");
    out.append(pad("NAME", 24).as_str());
    out.append("  ");
    out.append("NAMESPACE\n");
    let mut i: usize = 0;
    assert(all.take(0) =~= Seq::empty());
    while i < tenants.len()
        invariant
            i <= tenants@.len(),
            all == store::tenant_views(tenants@),
            out@ == list_text(all.take(i as int)),
        decreases tenants@.len() - i,
    {
        let t = &tenants[i];
        let mut line = pad(t.id.display().as_str(), 14);
        line.append("  ");
        line.append(pad(t.name.as_str(), 24).as_str());
        line.append("  ");
        line.append(t.namespace.as_str());
        line.append("\n");
        out.append(line.as_str());
        proof {
            let head = all.take(i + 1);
            assert(head.drop_last() =~= all.take(i as int));
            assert(head.last() == t@);
        }
        i = i + 1;
    }
    assert(all.take(i as int) =~= all);
    out
}

/// The lines on a tenant that is shown.
fn tenant_lines(t: &Tenant) -> (r: String)
    ensures
        r@ == show_text(t@),
{
    let mut s = concat("id        = ", t.id.display().as_str());
    s.append("\nname      = ");
    s.append(t.name.as_str());
    s.append("\nnamespace = ");
    s.append(t.namespace.as_str());
    s.append("\nroot_caps = ");
    s.append(t.root_caps.to_tags().as_str());
    s.append("\n");
    s.append(quotas_line(&t.quotas).as_str());
    s.append(usage_line("usage     = ", &t.usage).as_str());
    s.append("users     = ");
    push_decimal(&mut s, t.users.len() as u64);
    s.append("\n");
    s.append(users_lines(&t.users).as_str());
    assert(t@.users.len() == t.users@.len());
    s
}

/// The line on a tenant that was created.
fn created_line(t: &Tenant) -> (r: String)
    ensures
        r@ == created_text(t@),
{
    let mut s = t.id.display();
    s.append("  name=");
    s.append(t.name.as_str());
    s.append("  ns=");
    s.append(t.namespace.as_str());
    s.append("  caps=");
    s.append(t.root_caps.to_tags().as_str());
    s.append("\n");
    s
}

/// Runs a command on tenants; gives what it prints.
pub fn run_tenant(store: &mut StoreState, op: TenantCmd) -> (r: CelResult<String>)
    ensures
        final(store)@ == tenant_ran(old(store)@, op).0,
        error::result_view(r) == tenant_ran(old(store)@, op).1,
        old(store)@.wf() ==> final(store)@.wf(),
{
    match op {
        TenantCmd::Create { name, quotas, caps } => {
            let c = match TenantCaps::parse_tags(caps.as_str()) {
                Ok(c) => c,
                Err(e) => {
                    return Err(e);
                },
            };
            let spec = match TenantSpec::new(name.as_str(), quotas) {
                Ok(s) => s,
                Err(e) => {
                    return Err(e);
                },
            };
            match store.create(spec, c) {
                Ok(t) => Ok(created_line(&t)),
                Err(e) => Err(e),
            }
        },
        TenantCmd::List => {
            let rows = store.list();
            Ok(tenant_list(&rows))
        },
        TenantCmd::Show { name } => match store.get_by_name(name.as_str()) {
            Ok(t) => Ok(tenant_lines(&t)),
            Err(e) => Err(e),
        },
        TenantCmd::Delete { name } => {
            let t = match store.get_by_name(name.as_str()) {
                Ok(t) => t,
                Err(e) => {
                    return Err(e);
                },
            };
            match store.delete(t.id) {
                Ok(_) => {
                    let mut s = concat("deleted ", t.name.as_str());
                    s.append(" (");
                    s.append(t.id.display().as_str());
                    s.append(")\n");
                    Ok(s)
                },
                Err(e) => Err(e),
            }
        },
    }
}

/// Runs a command on users; gives what it prints.
pub fn run_user(store: &mut StoreState, op: UserCmd) -> (r: CelResult<String>)
    ensures
        final(store)@ == user_ran(old(store)@, op).0,
        error::result_view(r) == user_ran(old(store)@, op).1,
        old(store)@.wf() ==> final(store)@.wf(),
{
    match op {
        UserCmd::Add { tenant, name, caps } => {
            let t = match store.get_by_name(tenant.as_str()) {
                Ok(t) => t,
                Err(e) => {
                    return Err(e);
                },
            };
            let c = match TenantCaps::parse_tags(caps.as_str()) {
                Ok(c) => c,
                Err(e) => {
                    return Err(e);
                },
            };
            match store.add_user(t.id, name, c) {
                Ok(u) => {
                    let mut s = u.id.display();
                    s.append("  name=");
                    s.append(u.name.as_str());
                    s.append("  caps=");
                    s.append(u.caps.to_tags().as_str());
                    s.append("  tenant=");
                    s.append(t.name.as_str());
                    s.append("\n");
                    Ok(s)
                },
                Err(e) => Err(e),
            }
        },
        UserCmd::List { tenant } => match store.get_by_name(tenant.as_str()) {
            Ok(t) => Ok(user_list(&t.users)),
            Err(e) => Err(e),
        },
        UserCmd::Remove { tenant, name } => {
            let t = match store.get_by_name(tenant.as_str()) {
                Ok(t) => t,
                Err(e) => {
                    return Err(e);
                },
            };
            let k: usize = match position_of_user_name(&t.users, name.as_str()) {
                Some(k) => k,
                None => {
                    return Err(CelError::Invalid("user name unknown"));
                },
            };
            assert(t@.users[k as int] == t.users@[k as int]@);
            match store.remove_user(t.id, t.users[k].id) {
                Ok(_) => {
                    let mut s = concat("removed ", name.as_str());
                    s.append(" from ");
                    s.append(t.name.as_str());
                    s.append("\n");
                    Ok(s)
                },
                Err(e) => Err(e),
            }
        },
    }
}

/// Runs a command on quotas; gives what it prints.
pub fn run_quota(store: &mut StoreState, op: QuotaCmd) -> (r: CelResult<String>)
    ensures
        final(store)@ == quota_ran(old(store)@, op).0,
        error::result_view(r) == quota_ran(old(store)@, op).1,
        old(store)@.wf() ==> final(store)@.wf(),
{
    match op {
        QuotaCmd::Show { tenant } => match store.get_by_name(tenant.as_str()) {
            Ok(t) => {
                let mut s = concat("tenant    = ", t.name.as_str());
                s.append("\n");
                s.append(quotas_line(&t.quotas).as_str());
                s.append(usage_line("usage     = ", &t.usage).as_str());
                Ok(s)
            },
            Err(e) => Err(e),
        },
        QuotaCmd::Charge { tenant, charge } => {
            let t = match store.get_by_name(tenant.as_str()) {
                Ok(t) => t,
                Err(e) => {
                    return Err(e);
                },
            };
            match store.charge(t.id, charge) {
                Ok(u) => Ok(usage_line("charged: ", &u)),
                Err(e) => Err(e),
            }
        },
        QuotaCmd::Release { tenant, charge } => {
            let t = match store.get_by_name(tenant.as_str()) {
                Ok(t) => t,
                Err(e) => {
                    return Err(e);
                },
            };
            match store.release(t.id, charge) {
                Ok(u) => Ok(usage_line("released: ", &u)),
                Err(e) => Err(e),
            }
        },
    }
}

} // verus!
