//! What holds of the administrator's commands: what each leaves in the store, and
//! how its answer is laid out.

use vstd::prelude::*;
use vstd::string::*;
use vstd::utf8::*;

use crate::error::ErrorView;
use crate::tenancy::caps;
use crate::tenancy::cli;
use crate::tenancy::cli::{QuotaCmd, TenantCmd, UserCmd};
use crate::tenancy::entitlements;
use crate::tenancy::family_laws;
use crate::tenancy::quota::{QuotaCharge, QuotaUsage, TenantQuotas};
use crate::tenancy::store;
use crate::tenancy::store::StoreView;
use crate::tenancy::store_laws;
use crate::tenancy::tenant::TenantView;
use crate::tenancy::user::UserView;
use crate::text;

verus! {

proof fn lemma_blanks(n: int)
    ensures
        cli::blanks(n).len() == if n > 0 {
            n
        } else {
            0
        },
        forall|i: int| 0 <= i < cli::blanks(n).len() ==> #[trigger] cli::blanks(n)[i] == ' ',
    decreases n,
{
    reveal_strlit(" ");
    if n > 0 {
        lemma_blanks(n - 1);
    }
}

/// A column holds its text at the left and blanks behind it, and is as wide as it
/// is meant to be unless the text is longer.
pub proof fn law_columns(s: Seq<char>, width: int)
    ensures
        cli::padded(s, width).len() == if s.len() < width {
            width
        } else {
            s.len() as int
        },
        cli::padded(s, width).take(s.len() as int) == s,
        forall|i: int|
            s.len() <= i < cli::padded(s, width).len() ==> #[trigger] cli::padded(s, width)[i]
                == ' ',
{
    lemma_blanks(width - s.len());
    assert(cli::padded(s, width).take(s.len() as int) =~= s);
}

/// A list of tenants has a heading and a line for each tenant, in their order.
/// The number stands at the left, the name at place 16 and the namespace at
/// place 42, under their headings, where they are not too long.
pub proof fn law_tenant_list(ts: Seq<TenantView>, t: TenantView)
    ensures
        cli::list_text(ts.push(t)) == cli::list_text(ts) + cli::row_text(t),
        cli::list_text(Seq::empty()).subrange(0, 2) == "ID"@,
        cli::list_text(Seq::empty()).subrange(16, 20) == "NAME"@,
        cli::list_text(Seq::empty()).skip(42) == "NAMESPACE\n"@,
        ({
            let id = "tenant-"@ + text::decimal(t.id.0 as nat);
            let row = cli::row_text(t);
            id.len() <= 14 && t.name.len() <= 24 ==> row.take(id.len() as int) == id && row.subrange(
                16,
                16 + t.name.len() as int,
            ) == t.name && row.skip(42) == t.namespace + "\n"@
        }),
{
    assert(ts.push(t).drop_last() =~= ts);
    let id = "tenant-"@ + text::decimal(t.id.0 as nat);
    reveal_strlit("  ");
    law_columns(id, 14);
    law_columns(t.name, 24);
    let row = cli::row_text(t);
    let a = cli::padded(id, 14);
    let b = cli::padded(t.name, 24);
    if id.len() <= 14 && t.name.len() <= 24 {
        assert forall|i: int| 0 <= i < id.len() implies row[i] == id[i] by {
            assert(a.take(id.len() as int)[i] == a[i]);
        }
        assert(row.take(id.len() as int) =~= id);
        assert forall|i: int| 0 <= i < t.name.len() implies row[16 + i] == t.name[i] by {
            assert(b.take(t.name.len() as int)[i] == b[i]);
        }
        assert(row.subrange(16, 16 + t.name.len() as int) =~= t.name);
        assert(row.skip(42) =~= t.namespace + "\n"@);
    }
    reveal_strlit("ID");
    reveal_strlit("NAME");
    let h = cli::list_text(Seq::empty());
    law_columns("ID"@, 14);
    law_columns("NAME"@, 24);
    let c = cli::padded("ID"@, 14);
    let d = cli::padded("NAME"@, 24);
    assert forall|i: int| 0 <= i < 2 implies h[i] == "ID"@[i] by {
        assert(c.take(2)[i] == c[i]);
    }
    assert forall|i: int| 0 <= i < 4 implies h[16 + i] == "NAME"@[i] by {
        assert(d.take(4)[i] == d[i]);
    }
    assert(h.subrange(0, 2) =~= "ID"@);
    assert(h.subrange(16, 20) =~= "NAME"@);
    assert(h.skip(42) =~= "NAMESPACE\n"@);
}

/// A list of users has a heading and a line for each user, in their order. The
/// number stands at the left, the name at place 12 and the capabilities at place
/// 38, under their headings, where they are not too long.
pub proof fn law_user_list(us: Seq<UserView>, u: UserView)
    ensures
        cli::user_list_text(us.push(u)).take(cli::user_list_text(us).len() as int)
            == cli::user_list_text(us),
        cli::user_list_text(Seq::empty()).subrange(0, 2) == "ID"@,
        cli::user_list_text(Seq::empty()).subrange(12, 16) == "NAME"@,
        cli::user_list_text(Seq::empty()).skip(38) == "CAPS\n"@,
        ({
            let id = "user-"@ + text::decimal(u.id.0 as nat);
            let row = cli::user_list_text(us.push(u)).skip(cli::user_list_text(us).len() as int);
            id.len() <= 10 && u.name.len() <= 24 ==> row.take(id.len() as int) == id && row.subrange(
                12,
                12 + u.name.len() as int,
            ) == u.name && row.skip(38) == caps::rendered_tags(u.caps) + "\n"@
        }),
{
    assert(us.push(u).drop_last() =~= us);
    let id = "user-"@ + text::decimal(u.id.0 as nat);
    reveal_strlit("  ");
    law_columns(id, 10);
    law_columns(u.name, 24);
    let a = cli::padded(id, 10);
    let b = cli::padded(u.name, 24);
    let before = cli::user_list_text(us);
    let after = cli::user_list_text(us.push(u));
    let row = a + "  "@ + b + "  "@ + caps::rendered_tags(u.caps) + "\n"@;
    assert(after == before + row);
    assert(after.take(before.len() as int) =~= before);
    assert(after.skip(before.len() as int) =~= row);
    if id.len() <= 10 && u.name.len() <= 24 {
        assert forall|i: int| 0 <= i < id.len() implies row[i] == id[i] by {
            assert(a.take(id.len() as int)[i] == a[i]);
        }
        assert(row.take(id.len() as int) =~= id);
        assert forall|i: int| 0 <= i < u.name.len() implies row[12 + i] == u.name[i] by {
            assert(b.take(u.name.len() as int)[i] == b[i]);
        }
        assert(row.subrange(12, 12 + u.name.len() as int) =~= u.name);
        assert(row.skip(38) =~= caps::rendered_tags(u.caps) + "\n"@);
    }
    reveal_strlit("ID");
    reveal_strlit("NAME");
    let h = cli::user_list_text(Seq::empty());
    law_columns("ID"@, 10);
    law_columns("NAME"@, 24);
    let c = cli::padded("ID"@, 10);
    let d = cli::padded("NAME"@, 24);
    assert forall|i: int| 0 <= i < 2 implies h[i] == "ID"@[i] by {
        assert(c.take(2)[i] == c[i]);
    }
    assert forall|i: int| 0 <= i < 4 implies h[12 + i] == "NAME"@[i] by {
        assert(d.take(4)[i] == d[i]);
    }
    assert(h.subrange(0, 2) =~= "ID"@);
    assert(h.subrange(12, 16) =~= "NAME"@);
    assert(h.skip(38) =~= "CAPS\n"@);
}

/// The ceilings and the usage of a tenant are shown in full, each number behind
/// its word, in the order vCPUs, memory, storage, network and operations.
pub proof fn law_quota_lines(head: Seq<char>, q: TenantQuotas, u: QuotaUsage)
    ensures
        cli::quotas_text(q) == "quotas    = vcpus<= "@ + text::decimal(q.max_vcpus as nat)
            + ", memory_mib<= "@ + text::decimal(q.max_memory_mib as nat) + ", storage<= "@
            + text::decimal(q.max_storage_bytes as nat) + " B, net<= "@ + text::decimal(
            q.max_network_mbps as nat,
        ) + " Mbps, iops<= "@ + text::decimal(q.max_iops as nat) + "\n"@,
        cli::usage_text(head, u) == head + "vcpus= "@ + text::decimal(u.vcpus as nat)
            + ", memory_mib= "@ + text::decimal(u.memory_mib as nat) + ", storage= "@
            + text::decimal(u.storage_bytes as nat) + " B, net= "@ + text::decimal(
            u.network_mbps as nat,
        ) + " Mbps, iops= "@ + text::decimal(u.iops as nat) + "\n"@,
{
}

proof fn lemma_name_at(ts: Seq<TenantView>, name: Seq<char>)
    ensures
        match store::find_name(ts, name) {
            Some(k) => 0 <= k < ts.len() && ts[k].name == name,
            None => forall|k: int| 0 <= k < ts.len() ==> (#[trigger] ts[k]).name != name,
        },
{
    let names = store::tenant_names(ts);
    store::lemma_first_at(names, name, 0);
    assert forall|k: int| 0 <= k < ts.len() && store::find_name(ts, name) is None implies (
    #[trigger] ts[k]).name != name by {
        assert(names[k] == ts[k].name);
    }
}

proof fn lemma_user_at(us: Seq<UserView>, name: Seq<char>)
    ensures
        match store::find_user_name(us, name) {
            Some(k) => 0 <= k < us.len() && us[k].name == name,
            None => forall|k: int| 0 <= k < us.len() ==> (#[trigger] us[k]).name != name,
        },
{
    let names = store::user_names(us);
    store::lemma_first_at(names, name, 0);
    assert forall|k: int| 0 <= k < us.len() && store::find_user_name(us, name) is None implies (
    #[trigger] us[k]).name != name by {
        assert(names[k] == us[k].name);
    }
}

/// A tenant that was created can be shown: without a parent, with the ceilings
/// that were given and the capabilities that the tags stand for. Creating changes
/// nothing where it fails.
pub proof fn law_create_then_show(s: StoreView, op: TenantCmd, show: TenantCmd)
    requires
        store_laws::sound(s),
        s.next_tenant_id < u64::MAX,
        op is Create,
        show matches TenantCmd::Show { name } && name@ == op->Create_name@,
    ensures
        ({
            let (n, r) = cli::tenant_ran(s, op);
            &&& r is Err ==> n.tenants == s.tenants && n.sessions == s.sessions
            &&& r is Ok ==> {
                let t = n.tenants.last();
                &&& n.tenants == s.tenants.push(t)
                &&& t.name == op->Create_name@
                &&& t.parent is None
                &&& t.quotas == op->Create_quotas
                &&& (caps::parsed_tags(op->Create_caps@) matches Ok(c) && t.root_caps == c)
                &&& cli::tenant_ran(n, show).0 == n
                &&& cli::tenant_ran(n, show).1 == Ok::<Seq<char>, ErrorView>(cli::show_text(t))
            }
        }),
{
    let name = op->Create_name@;
    let c = caps::parsed_tags(op->Create_caps@);
    if c is Ok {
        let spec = crate::tenancy::tenant::TenantSpecView {
            name,
            quotas: op->Create_quotas,
            parent: None,
        };
        entitlements::law_tenant_is_created(s, spec, c->Ok_0);
        let (n, r) = cli::tenant_ran(s, op);
        if r is Ok {
            let t = n.tenants.last();
            let k = s.tenants.len() as int;
            let names = store::tenant_names(n.tenants);
            assert forall|j: int| 0 <= j < k implies names[j] != name by {
                assert(s.tenants[j].name != name);
            }
            store::lemma_is_first(names, name, k);
        }
    }
}

/// Showing and listing change nothing. What is not there is not found.
pub proof fn law_looking_changes_nothing(s: StoreView, op: TenantCmd, u: UserCmd, q: QuotaCmd)
    ensures
        op is List || op is Show ==> cli::tenant_ran(s, op).0 == s,
        u is List ==> cli::user_ran(s, u).0 == s,
        q is Show ==> cli::quota_ran(s, q).0 == s,
        op is List ==> cli::tenant_ran(s, op).1 == Ok::<Seq<char>, ErrorView>(
            cli::list_text(s.tenants),
        ),
        op matches TenantCmd::Show { name } ==> (cli::tenant_ran(s, op).1 is Ok <==> exists|i: int|
            0 <= i < s.tenants.len() && (#[trigger] s.tenants[i]).name == name@),
        u matches UserCmd::List { tenant } ==> (cli::user_ran(s, u).1 is Ok <==> exists|i: int|
            0 <= i < s.tenants.len() && (#[trigger] s.tenants[i]).name == tenant@),
        q matches QuotaCmd::Show { tenant } ==> (cli::quota_ran(s, q).1 is Ok <==> exists|i: int|
            0 <= i < s.tenants.len() && (#[trigger] s.tenants[i]).name == tenant@),
{
    if let TenantCmd::Show { name } = op {
        lemma_name_at(s.tenants, name@);
    }
    if let UserCmd::List { tenant } = u {
        lemma_name_at(s.tenants, tenant@);
    }
    if let QuotaCmd::Show { tenant } = q {
        lemma_name_at(s.tenants, tenant@);
    }
}

proof fn lemma_its_name(s: StoreView, i: int)
    requires
        store_laws::sound(s),
        0 <= i < s.tenants.len(),
    ensures
        store::find_name(s.tenants, s.tenants[i].name) == Some(i),
{
    let t = s.tenants[i];
    let names = store::tenant_names(s.tenants);
    assert forall|k: int| 0 <= k < i implies names[k] != t.name by {
        assert(s.tenants[k].name != s.tenants[i].name);
    }
    store::lemma_is_first(names, t.name, i);
}

/// The tenant of the given name is deleted, and no other; the answer names it and
/// its number.
pub proof fn law_delete_command(s: StoreView, i: int, op: TenantCmd)
    requires
        store_laws::sound(s),
        0 <= i < s.tenants.len(),
        op matches TenantCmd::Delete { name } && name@ == s.tenants[i].name,
    ensures
        ({
            let (n, r) = cli::tenant_ran(s, op);
            &&& r is Ok <==> !family_laws::in_use(s.tenants[i]) && forall|j: int|
                0 <= j < s.tenants.len() ==> (#[trigger] s.tenants[j]).parent != Some(
                    s.tenants[i].id,
                )
            &&& r is Err ==> n == s
            &&& r matches Ok(w) ==> n.tenants == s.tenants.remove(i) && n.sessions == s.sessions && w
                == "deleted "@ + s.tenants[i].name + " (tenant-"@ + text::decimal(
                s.tenants[i].id.0 as nat,
            ) + ")\n"@
        }),
{
    lemma_its_name(s, i);
    store_laws::lemma_find(s.tenants, i);
    entitlements::law_tenant_is_deleted(s, s.tenants[i].id);
    reveal_strlit(" (");
    reveal_strlit("tenant-");
    reveal_strlit(" (tenant-");
    let t = s.tenants[i];
    let d = text::decimal(t.id.0 as nat);
    assert("deleted "@ + t.name + " ("@ + ("tenant-"@ + d) + ")\n"@ =~= "deleted "@ + t.name
        + " (tenant-"@ + d + ")\n"@);
    let (n, r) = cli::tenant_ran(s, op);
    if !family_laws::in_use(t) {
        assert(t.usage == crate::tenancy::quota::no_usage());
    }
    if r is Ok {
        assert forall|j: int| 0 <= j < s.tenants.len() implies (#[trigger] s.tenants[j]).parent
            != Some(t.id) by {}
    }
}

/// A user is added to the tenant of the given name with the capabilities that the
/// tags stand for, and removed from it by name. The answer tells of it.
pub proof fn law_user_commands(s: StoreView, i: int, add: UserCmd, del: UserCmd)
    requires
        store_laws::sound(s),
        0 <= i < s.tenants.len(),
        s.next_user_id < u64::MAX,
        add matches UserCmd::Add { tenant, .. } && tenant@ == s.tenants[i].name,
        del matches UserCmd::Remove { tenant, .. } && tenant@ == s.tenants[i].name,
    ensures
        ({
            let t = s.tenants[i];
            let (n, r) = cli::user_ran(s, add);
            &&& r is Err ==> n == s
            &&& r matches Ok(w) ==> {
                let u = n.tenants[i].users.last();
                &&& n.tenants[i] == (TenantView { users: t.users.push(u), ..t })
                &&& u.name == add->Add_name@
                &&& (caps::parsed_tags(add->Add_caps@) matches Ok(c) && u.caps == c)
                &&& u.password_hash is None
                &&& w == "user-"@ + text::decimal(u.id.0 as nat) + "  name="@ + u.name + "  caps="@
                    + caps::rendered_tags(u.caps) + "  tenant="@ + t.name + "\n"@
            }
        }),
        ({
            let t = s.tenants[i];
            let (n, r) = cli::user_ran(s, del);
            &&& r is Ok <==> exists|j: int|
                0 <= j < t.users.len() && (#[trigger] t.users[j]).name == del->Remove_name@
            &&& r is Err ==> n == s
            &&& r matches Ok(w) ==> w == "removed "@ + del->Remove_name@ + " from "@ + t.name + "\n"@
            &&& r is Ok ==> forall|j: int|
                0 <= j < n.tenants[i].users.len() ==> (#[trigger] n.tenants[i].users[j]).name
                    != del->Remove_name@
        }),
{
    let t = s.tenants[i];
    lemma_its_name(s, i);
    let c = caps::parsed_tags(add->Add_caps@);
    if c is Ok {
        entitlements::law_user_is_added(s, i, add->Add_name@, c->Ok_0);
        let (n, r) = cli::user_ran(s, add);
        if r is Ok {
            let u = n.tenants[i].users.last();
            assert(n.tenants[i].users.drop_last() =~= t.users);
        }
    }
    let name = del->Remove_name@;
    lemma_user_at(t.users, name);
    if let Some(k) = store::find_user_name(t.users, name) {
        family_laws::law_user_is_removed(s, i, t.users[k].id);
        let n = cli::user_ran(s, del).0;
        assert(store_laws::tenant_ok(t, s.next_user_id));
        assert forall|j: int| 0 <= j < n.tenants[i].users.len() implies (
        #[trigger] n.tenants[i].users[j]).name != name by {
            let x = n.tenants[i].users[j];
            let a = choose|a: int| 0 <= a < t.users.len() && t.users[a] == x;
            if a < k {
                assert(t.users[a].name != t.users[k].name);
            } else if a > k {
                assert(t.users[k].name != t.users[a].name);
            } else {
                assert(n.tenants[i].users.contains(t.users[k]));
            }
        }
    }
}

/// A charge and a release go to the tenant of the given name, and the answer
/// shows the usage that it has then.
pub proof fn law_quota_commands(
    s: StoreView,
    i: int,
    charge: QuotaCharge,
    add: QuotaCmd,
    back: QuotaCmd,
)
    requires
        store_laws::sound(s),
        0 <= i < s.tenants.len(),
        add matches QuotaCmd::Charge { tenant, charge: c } && tenant@ == s.tenants[i].name && c
            == charge,
        back matches QuotaCmd::Release { tenant, charge: c } && tenant@ == s.tenants[i].name && c
            == charge,
    ensures
        ({
            let (n, r) = cli::quota_ran(s, add);
            &&& r is Err ==> n == s
            &&& r matches Ok(w) ==> entitlements::is_sum(
                n.tenants[i].usage,
                s.tenants[i].usage,
                charge,
            ) && entitlements::has_room(s.tenants[i].usage, s.tenants[i].quotas, charge) && w
                == cli::usage_text("charged: "@, n.tenants[i].usage)
        }),
        ({
            let (n, r) = cli::quota_ran(s, back);
            &&& r is Err ==> n == s
            &&& r matches Ok(w) ==> entitlements::is_rest(
                n.tenants[i].usage,
                s.tenants[i].usage,
                charge,
            ) && w == cli::usage_text("released: "@, n.tenants[i].usage)
        }),
{
    lemma_its_name(s, i);
    entitlements::law_charge_goes_all_the_way_up(s, s.tenants[i].id, charge, i);
}

/// What is shown of a tenant: its number, name, namespace, capabilities, ceilings
/// and usage, how many users it has, and a line for each of them.
pub proof fn law_shown(t: TenantView, us: Seq<UserView>, u: UserView)
    ensures
        cli::show_text(t) == "id        = tenant-"@ + text::decimal(t.id.0 as nat)
            + "\nname      = "@ + t.name + "\nnamespace = "@ + t.namespace + "\nroot_caps = "@
            + caps::rendered_tags(t.root_caps) + "\n"@ + cli::quotas_text(t.quotas)
            + cli::usage_text("usage     = "@, t.usage) + "users     = "@ + text::decimal(
            t.users.len(),
        ) + "\n"@ + cli::users_text(t.users),
        cli::users_text(us.push(u)) == cli::users_text(us) + ("  user-"@ + text::decimal(
            u.id.0 as nat,
        ) + "  name="@ + u.name + "  caps="@ + caps::rendered_tags(u.caps) + "\n"@),
        cli::users_text(Seq::empty()).len() == 0,
        cli::created_text(t) == "tenant-"@ + text::decimal(t.id.0 as nat) + "  name="@ + t.name
            + "  ns="@ + t.namespace + "  caps="@ + caps::rendered_tags(t.root_caps) + "\n"@,
{
    reveal_strlit("id        = ");
    reveal_strlit("tenant-");
    reveal_strlit("id        = tenant-");
    let d = text::decimal(t.id.0 as nat);
    assert("id        = "@ + ("tenant-"@ + d) =~= "id        = tenant-"@ + d);
    reveal_strlit("  ");
    reveal_strlit("user-");
    reveal_strlit("  user-");
    let e = text::decimal(u.id.0 as nat);
    assert("  "@ + ("user-"@ + e) =~= "  user-"@ + e);
    assert(us.push(u).drop_last() =~= us);
}

} // verus!
