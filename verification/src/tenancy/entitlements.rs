//! What a tenant, a user and a session are entitled to: the laws of quotas,
//! names, capabilities and sessions, told in plain numbers.

use vstd::prelude::*;
use vstd::string::*;
use vstd::utf8::*;

use crate::mesh::capabilities;
use crate::mesh::proto::VmOp;
use crate::tenancy::auth::{SessionView, TokenHash};
use crate::tenancy::caps::TenantCaps;
use crate::tenancy::exec;
use crate::tenancy::exec::{ExecOptions, ExecStep};
use crate::tenancy::hierarchy;
use crate::tenancy::namespace;
use crate::tenancy::quota;
use crate::tenancy::quota::{QuotaCharge, QuotaUsage, TenantQuotas};
use crate::tenancy::runtime;
use crate::tenancy::session;
use crate::tenancy::store;
use crate::tenancy::store::{SessionMatch, StoreView};
use crate::tenancy::store_laws;
use crate::tenancy::tenant::{TenantId, TenantSpecView, TenantView};
use crate::tenancy::user::{UserId, UserView};

verus! {

/// The sum of two counts, held to `top`.
pub open spec fn sum_to(a: int, b: int, top: int) -> int {
    if a + b <= top {
        a + b
    } else {
        top
    }
}

/// What is left of a count, never less than nothing.
pub open spec fn left_of(a: int, b: int) -> int {
    if b <= a {
        a - b
    } else {
        0
    }
}

/// Whether a usage is another one with a charge on top.
pub open spec fn is_sum(n: QuotaUsage, u: QuotaUsage, c: QuotaCharge) -> bool {
    &&& n.vcpus == sum_to(u.vcpus as int, c.vcpus as int, 0xFFFF_FFFF)
    &&& n.memory_mib == sum_to(u.memory_mib as int, c.memory_mib as int, 0xFFFF_FFFF_FFFF_FFFF)
    &&& n.storage_bytes == sum_to(
        u.storage_bytes as int,
        c.storage_bytes as int,
        0xFFFF_FFFF_FFFF_FFFF,
    )
    &&& n.network_mbps == sum_to(u.network_mbps as int, c.network_mbps as int, 0xFFFF_FFFF)
    &&& n.iops == sum_to(u.iops as int, c.iops as int, 0xFFFF_FFFF)
}

/// Whether a usage is another one with a charge taken off.
pub open spec fn is_rest(n: QuotaUsage, u: QuotaUsage, c: QuotaCharge) -> bool {
    &&& n.vcpus == left_of(u.vcpus as int, c.vcpus as int)
    &&& n.memory_mib == left_of(u.memory_mib as int, c.memory_mib as int)
    &&& n.storage_bytes == left_of(u.storage_bytes as int, c.storage_bytes as int)
    &&& n.network_mbps == left_of(u.network_mbps as int, c.network_mbps as int)
    &&& n.iops == left_of(u.iops as int, c.iops as int)
}

/// Whether a usage with a charge on top stays within every ceiling.
pub open spec fn has_room(u: QuotaUsage, q: TenantQuotas, c: QuotaCharge) -> bool {
    &&& sum_to(u.vcpus as int, c.vcpus as int, 0xFFFF_FFFF) <= q.max_vcpus
    &&& sum_to(u.memory_mib as int, c.memory_mib as int, 0xFFFF_FFFF_FFFF_FFFF) <= q.max_memory_mib
    &&& sum_to(u.storage_bytes as int, c.storage_bytes as int, 0xFFFF_FFFF_FFFF_FFFF)
        <= q.max_storage_bytes
    &&& sum_to(u.network_mbps as int, c.network_mbps as int, 0xFFFF_FFFF) <= q.max_network_mbps
    &&& sum_to(u.iops as int, c.iops as int, 0xFFFF_FFFF) <= q.max_iops
}

/// A charge is accepted exactly if there is room for all of it, counter by
/// counter, and then adds to every counter what it says; giving it back takes
/// the same off, down to nothing.
pub proof fn law_quota(u: QuotaUsage, q: TenantQuotas, c: QuotaCharge)
    ensures
        quota::charged(u, q, c) is Ok <==> has_room(u, q, c),
        quota::charged(u, q, c) matches Ok(n) ==> is_sum(n, u, c),
        is_sum(quota::added(u, c), u, c),
        is_rest(quota::removed(u, c), u, c),
{
}

/// Whoever is on the way up from a tenant is one that the tenant is below.
proof fn lemma_chain_below(ts: Seq<TenantView>, id: TenantId, depth: nat, i: int)
    requires
        store_laws::forest(ts),
        hierarchy::chain_of(ts, Some(id), depth) is Ok,
        0 <= i < ts.len(),
    ensures
        hierarchy::chain_of(ts, Some(id), depth)->Ok_0.contains(i) <==> store_laws::below(
            ts,
            id,
            ts[i].id,
        ),
    decreases id.0,
{
    store_laws::lemma_found(ts, id);
    let k = store::find_tenant(ts, id)->0;
    let chain = hierarchy::chain_of(ts, Some(id), depth)->Ok_0;
    let rest = hierarchy::chain_of(ts, ts[k].parent, depth + 1)->Ok_0;
    assert(chain == seq![k] + rest);
    assert(store_laws::parent_ok(ts, ts[k]));
    if i == k {
        assert(chain[0] == i);
    } else {
        assert(ts[i].id != id) by {
            store_laws::lemma_find(ts, i);
            store_laws::lemma_find(ts, k);
        }
        assert(chain.contains(i) <==> rest.contains(i)) by {
            if chain.contains(i) {
                let x = choose|x: int| 0 <= x < chain.len() && chain[x] == i;
                assert(rest[x - 1] == i);
            }
            if rest.contains(i) {
                let x = choose|x: int| 0 <= x < rest.len() && rest[x] == i;
                assert(chain[x + 1] == i);
            }
        }
        match ts[k].parent {
            None => {},
            Some(p) => {
                lemma_chain_below(ts, p, depth + 1, i);
            },
        }
    }
}

/// A charge goes to a tenant and to every tenant above it, and to no other; it
/// is refused, and nothing changes, if any of them has no room. Giving it back
/// goes the same way. Nothing of a tenant but its usage changes.
pub proof fn law_charge_goes_all_the_way_up(
    s: StoreView,
    tenant: TenantId,
    c: QuotaCharge,
    i: int,
)
    requires
        store_laws::sound(s),
        0 <= i < s.tenants.len(),
    ensures
        ({
            let (n, r) = hierarchy::store_charged(s, tenant, c);
            let t = s.tenants[i];
            let on_the_way = store_laws::below(s.tenants, tenant, t.id);
            &&& n.sessions == s.sessions
            &&& n.tenants.len() == s.tenants.len()
            &&& n.tenants[i] == (TenantView { usage: n.tenants[i].usage, ..t })
            &&& r is Err ==> n == s
            &&& r is Ok && on_the_way ==> has_room(t.usage, t.quotas, c) && is_sum(
                n.tenants[i].usage,
                t.usage,
                c,
            )
            &&& r is Ok && !on_the_way ==> n.tenants[i] == t
            &&& r matches Ok(u) ==> (t.id == tenant ==> u == n.tenants[i].usage)
        }),
        ({
            let (n, r) = hierarchy::store_released(s, tenant, c);
            let t = s.tenants[i];
            let on_the_way = store_laws::below(s.tenants, tenant, t.id);
            &&& n.sessions == s.sessions
            &&& n.tenants.len() == s.tenants.len()
            &&& n.tenants[i] == (TenantView { usage: n.tenants[i].usage, ..t })
            &&& r is Err ==> n == s
            &&& r is Ok && on_the_way ==> is_rest(n.tenants[i].usage, t.usage, c)
            &&& r is Ok && !on_the_way ==> n.tenants[i] == t
            &&& r matches Ok(u) ==> (t.id == tenant ==> u == n.tenants[i].usage)
        }),
{
    let ts = s.tenants;
    law_quota(ts[i].usage, ts[i].quotas, c);
    if hierarchy::chain_of(ts, Some(tenant), 0) is Ok {
        lemma_chain_below(ts, tenant, 0, i);
        let chain = hierarchy::chain_of(ts, Some(tenant), 0)->Ok_0;
        store_laws::lemma_found(ts, tenant);
        let k = store::find_tenant(ts, tenant)->0;
        assert(chain[0] == k);
        if ts[i].id == tenant {
            store_laws::lemma_find(ts, i);
        }
        if hierarchy::first_refusal(ts, chain, c, 0) is None {
            if chain.contains(i) {
                let x = choose|x: int| 0 <= x < chain.len() && chain[x] == i;
                store_laws::lemma_no_refusal(ts, chain, c, 0, x);
            }
        }
    }
}

/// A charge is refused only for want of room: where a tenant is known and the
/// way up from it can be walked, the charge is accepted if everybody on it has
/// room, and refused as exhausted if somebody has not.
pub proof fn law_charge_is_refused_for_want_of_room(s: StoreView, tenant: TenantId, c: QuotaCharge)
    requires
        store_laws::sound(s),
        hierarchy::chain_of(s.tenants, Some(tenant), 0) is Ok,
    ensures
        hierarchy::store_charged(s, tenant, c).1 is Ok <==> forall|i: int|
            0 <= i < s.tenants.len() && store_laws::below(
                s.tenants,
                tenant,
                (#[trigger] s.tenants[i]).id,
            ) ==> has_room(s.tenants[i].usage, s.tenants[i].quotas, c),
        hierarchy::store_charged(s, tenant, c).1 matches Err(e) ==> e is Exhausted,
{
    let ts = s.tenants;
    let chain = hierarchy::chain_of(ts, Some(tenant), 0)->Ok_0;
    hierarchy::lemma_chain_bounds(ts, Some(tenant), 0);
    if hierarchy::store_charged(s, tenant, c).1 is Ok {
        assert forall|i: int|
            0 <= i < ts.len() && store_laws::below(ts, tenant, (
            #[trigger] ts[i]).id) implies has_room(ts[i].usage, ts[i].quotas, c) by {
            law_charge_goes_all_the_way_up(s, tenant, c, i);
        }
    } else {
        lemma_refusal(ts, chain, c, 0);
        let x = choose|x: int|
            0 <= x < chain.len() && quota::charged(
                ts[#[trigger] chain[x]].usage,
                ts[chain[x]].quotas,
                c,
            ) is Err;
        let i = chain[x];
        lemma_chain_below(ts, tenant, 0, i);
        assert(chain.contains(i));
        law_quota(ts[i].usage, ts[i].quotas, c);
        assert(store_laws::below(ts, tenant, ts[i].id));
    }
}

/// A refusal on the way up is somebody's who has no room.
proof fn lemma_refusal(ts: Seq<TenantView>, chain: Seq<int>, c: QuotaCharge, from: int)
    requires
        0 <= from,
        hierarchy::first_refusal(ts, chain, c, from) is Some,
    ensures
        hierarchy::first_refusal(ts, chain, c, from)->0 is Exhausted,
        exists|x: int|
            from <= x < chain.len() && quota::charged(
                ts[#[trigger] chain[x]].usage,
                ts[chain[x]].quotas,
                c,
            ) is Err,
    decreases chain.len() - from,
{
    let t = ts[chain[from]];
    if quota::charged(t.usage, t.quotas, c) is Ok {
        lemma_refusal(ts, chain, c, from + 1);
    }
}

/// Whether a text is a name: 1 to 64 letters, digits, dashes and underscores.
pub open spec fn is_name(bytes: Seq<u8>) -> bool {
    &&& 1 <= bytes.len() <= 64
    &&& forall|i: int|
        0 <= i < bytes.len() ==> {
            let b = #[trigger] bytes[i] as int;
            ('a' as int <= b <= 'z' as int) || ('A' as int <= b <= 'Z' as int) || ('0' as int <= b
                <= '9' as int) || b == '-' as int || b == '_' as int
        }
}

/// A name is accepted exactly if it is made of 1 to 64 letters, digits, dashes
/// and underscores.
pub proof fn law_names(name: Seq<char>)
    ensures
        namespace::validated(name) is Ok <==> is_name(encode_utf8(name)),
{
    let b = encode_utf8(name);
    if name.len() == 0 {
        assert(b =~= encode_utf8(Seq::<char>::empty()));
        assert(name =~= Seq::<char>::empty());
        encode_utf8_decode_utf8(name);
        if b.len() > 0 {
            lemma_empty_text();
        }
    } else if b.len() == 0 {
        lemma_empty_text();
        encode_utf8_decode_utf8(name);
        encode_utf8_decode_utf8(Seq::<char>::empty());
        assert(b =~= encode_utf8(Seq::<char>::empty()));
    }
    if namespace::validated(name) is Ok {
        assert forall|i: int| 0 <= i < b.len() implies {
            let x = #[trigger] b[i] as int;
            ('a' as int <= x <= 'z' as int) || ('A' as int <= x <= 'Z' as int) || ('0' as int <= x
                <= '9' as int) || x == '-' as int || x == '_' as int
        } by {
            assert(namespace::segment_byte(b[i]));
        }
    }
    if is_name(b) {
        assert forall|i: int| 0 <= i < b.len() implies namespace::segment_byte(#[trigger] b[i]) by {}
    }
}

/// No text has no bytes.
proof fn lemma_empty_text()
    ensures
        encode_utf8(Seq::<char>::empty()).len() == 0,
{
    reveal_with_fuel(encode_utf8, 1);
}

/// Whether a tenant of a store has a name.
pub open spec fn name_taken(s: StoreView, name: Seq<char>) -> bool {
    exists|i: int| 0 <= i < s.tenants.len() && (#[trigger] s.tenants[i]).name == name
}

/// What a tenant that is created is, and when it is. Its name must be a name and
/// not be taken; a subtenant needs a parent that holds all it asks for. It comes
/// last, with the next number, without users or usage, in a namespace of its
/// own, and no other tenant or session changes.
pub proof fn law_tenant_is_created(s: StoreView, spec: TenantSpecView, root_caps: TenantCaps)
    requires
        store_laws::sound(s),
        s.next_tenant_id < u64::MAX,
    ensures
        ({
            let (n, r) = store::created(s, spec, root_caps);
            let asked = match spec.parent {
                None => true,
                Some(p) => exists|i: int|
                    0 <= i < s.tenants.len() && (#[trigger] s.tenants[i]).id == p && root_caps.0
                        & s.tenants[i].root_caps.0 == root_caps.0 && spec.quotas.max_vcpus
                        <= s.tenants[i].quotas.max_vcpus && spec.quotas.max_memory_mib
                        <= s.tenants[i].quotas.max_memory_mib && spec.quotas.max_storage_bytes
                        <= s.tenants[i].quotas.max_storage_bytes && spec.quotas.max_network_mbps
                        <= s.tenants[i].quotas.max_network_mbps && spec.quotas.max_iops
                        <= s.tenants[i].quotas.max_iops,
            };
            &&& r is Ok <==> is_name(encode_utf8(spec.name)) && !name_taken(s, spec.name) && asked
            &&& n.sessions == s.sessions
            &&& n.next_user_id == s.next_user_id
            &&& r is Err ==> n.tenants == s.tenants
            &&& r matches Ok(t) ==> {
                &&& n.next_tenant_id == s.next_tenant_id + 1
                &&& t.id.0 == s.next_tenant_id + 1
                &&& t.name == spec.name
                &&& t.namespace == "/tenants/"@ + spec.name
                &&& t.root_caps == root_caps
                &&& t.quotas == spec.quotas
                &&& t.parent == spec.parent
                &&& t.users.len() == 0
                &&& t.usage.vcpus == 0 && t.usage.memory_mib == 0 && t.usage.storage_bytes == 0
                    && t.usage.network_mbps == 0 && t.usage.iops == 0
                &&& n.tenants == s.tenants.push(t)
            }
        }),
{
    law_names(spec.name);
    let names = store::tenant_names(s.tenants);
    store::lemma_first_at(names, spec.name, 0);
    assert(store::find_name(s.tenants, spec.name) is Some <==> name_taken(s, spec.name)) by {
        if store::find_name(s.tenants, spec.name) is Some {
            let i = store::find_name(s.tenants, spec.name)->0;
            assert(names[i] == s.tenants[i].name);
        }
        if name_taken(s, spec.name) {
            let i = choose|i: int|
                0 <= i < s.tenants.len() && (#[trigger] s.tenants[i]).name == spec.name;
            assert(names[i] == spec.name);
        }
    }
    if let Some(p) = spec.parent {
        store_laws::lemma_found(s.tenants, p);
        let b = root_caps.0;
        assert forall|i: int| 0 <= i < s.tenants.len() implies (#[trigger] s.tenants[i].root_caps.0
            & b == b <==> b & s.tenants[i].root_caps.0 == b) by {
            let a = s.tenants[i].root_caps.0;
            assert(a & b == b & a) by (bit_vector);
        }
        match store::find_tenant(s.tenants, p) {
            Some(i) => {
                assert forall|j: int|
                    0 <= j < s.tenants.len() && (#[trigger] s.tenants[j]).id == p implies j == i by {
                    store_laws::lemma_find(s.tenants, j);
                }
                assert(s.tenants[i].root_caps.0 & b == b <==> b & s.tenants[i].root_caps.0 == b);
            },
            None => {},
        }
    }
}

/// A tenant can be deleted exactly if it is there, has no subtenant and uses
/// nothing. Then it goes, and every other tenant stays as and where it was.
pub proof fn law_tenant_is_deleted(s: StoreView, id: TenantId)
    requires
        store_laws::sound(s),
    ensures
        ({
            let (n, r) = store::deleted(s, id);
            &&& r is Ok <==> (exists|i: int|
                0 <= i < s.tenants.len() && (#[trigger] s.tenants[i]).id == id
                    && s.tenants[i].usage.vcpus == 0 && s.tenants[i].usage.memory_mib == 0
                    && s.tenants[i].usage.storage_bytes == 0 && s.tenants[i].usage.network_mbps == 0
                    && s.tenants[i].usage.iops == 0) && (forall|j: int|
                0 <= j < s.tenants.len() ==> (#[trigger] s.tenants[j]).parent != Some(id))
            &&& r is Err ==> n == s
            &&& n.sessions == s.sessions
            &&& n.next_tenant_id == s.next_tenant_id
            &&& n.next_user_id == s.next_user_id
            &&& r is Ok ==> n.tenants.len() == s.tenants.len() - 1 && forall|i: int|
                0 <= i < s.tenants.len() ==> (n.tenants.contains(#[trigger] s.tenants[i])
                    <==> s.tenants[i].id != id)
        }),
{
    store_laws::lemma_found(s.tenants, id);
    let (n, r) = store::deleted(s, id);
    if r is Ok {
        let k = store::find_tenant(s.tenants, id)->0;
        assert forall|i: int| 0 <= i < s.tenants.len() implies (n.tenants.contains(
            #[trigger] s.tenants[i],
        ) <==> s.tenants[i].id != id) by {
            store_laws::lemma_find(s.tenants, i);
            if i < k {
                assert(n.tenants[i] == s.tenants[i]);
            } else if i > k {
                assert(n.tenants[i - 1] == s.tenants[i]);
            }
            if n.tenants.contains(s.tenants[i]) && i == k {
                let x = choose|x: int| 0 <= x < n.tenants.len() && n.tenants[x] == s.tenants[i];
                let y = if x < k {
                    x
                } else {
                    x + 1
                };
                assert(s.tenants[y] == s.tenants[k]);
                store_laws::lemma_find(s.tenants, y);
            }
        }
    }
    if (exists|i: int|
        0 <= i < s.tenants.len() && (#[trigger] s.tenants[i]).id == id && s.tenants[i].usage.vcpus
            == 0 && s.tenants[i].usage.memory_mib == 0 && s.tenants[i].usage.storage_bytes == 0
            && s.tenants[i].usage.network_mbps == 0 && s.tenants[i].usage.iops == 0) && (forall|
        j: int,
    |
        0 <= j < s.tenants.len() ==> (#[trigger] s.tenants[j]).parent != Some(id)) {
        let i = choose|i: int|
            0 <= i < s.tenants.len() && (#[trigger] s.tenants[i]).id == id
                && s.tenants[i].usage.vcpus == 0 && s.tenants[i].usage.memory_mib == 0
                && s.tenants[i].usage.storage_bytes == 0 && s.tenants[i].usage.network_mbps == 0
                && s.tenants[i].usage.iops == 0;
        store_laws::lemma_find(s.tenants, i);
    }
}

/// A user is added exactly if the name is a name that no user of the tenant has,
/// and the tenant holds every capability that is asked for. The user comes last
/// among the tenant's, with the next number, with just those capabilities and no
/// password; nothing else changes.
pub proof fn law_user_is_added(
    s: StoreView,
    i: int,
    name: Seq<char>,
    requested: TenantCaps,
)
    requires
        store_laws::sound(s),
        0 <= i < s.tenants.len(),
        s.next_user_id < u64::MAX,
    ensures
        ({
            let t = s.tenants[i];
            let (n, r) = store::user_added(s, t.id, name, requested);
            &&& r is Ok <==> is_name(encode_utf8(name)) && requested.0 & t.root_caps.0
                == requested.0 && forall|j: int|
                0 <= j < t.users.len() ==> (#[trigger] t.users[j]).name != name
            &&& r is Err ==> n == s
            &&& r matches Ok(u) ==> {
                &&& u.id.0 == s.next_user_id + 1
                &&& u.name == name
                &&& u.caps == requested
                &&& u.password_hash is None
                &&& n == (StoreView {
                    next_user_id: u.id.0,
                    tenants: s.tenants.update(i, TenantView { users: t.users.push(u), ..t }),
                    ..s
                })
            }
        }),
{
    law_names(name);
    let t = s.tenants[i];
    store_laws::lemma_find(s.tenants, i);
    let names = store::user_names(t.users);
    store::lemma_first_at(names, name, 0);
    assert(store::find_user_name(t.users, name) is None <==> forall|j: int|
        0 <= j < t.users.len() ==> (#[trigger] t.users[j]).name != name) by {
        if store::find_user_name(t.users, name) is Some {
            let j = store::find_user_name(t.users, name)->0;
            assert(names[j] == t.users[j].name);
        } else {
            assert forall|j: int| 0 <= j < t.users.len() implies (#[trigger] t.users[j]).name
                != name by {
                assert(names[j] == t.users[j].name);
            }
        }
    }
    let (a, b) = (t.root_caps.0, requested.0);
    assert(a & b == b & a) by (bit_vector);
}

/// The moment at which a session that starts at `now` ends: after as many
/// seconds as were asked for, or after twelve hours.
pub open spec fn ends_at(now: int, ttl_secs: Option<u64>) -> int {
    let end = now + 1000 * (match ttl_secs {
        Some(t) => t as int,
        None => 43200,
    });
    if end <= u64::MAX {
        end
    } else {
        u64::MAX as int
    }
}

/// What a new session is: of that user and tenant, for as long as was asked for,
/// with the capabilities that were asked for and that the user holds. It takes
/// the place of any other with the same fingerprint.
pub proof fn law_session_is_created(
    s: StoreView,
    i: int,
    j: int,
    requested: TenantCaps,
    ttl_secs: Option<u64>,
    hash: TokenHash,
    now: u64,
)
    requires
        store_laws::sound(s),
        0 <= i < s.tenants.len(),
        0 <= j < s.tenants[i].users.len(),
    ensures
        ({
            let t = s.tenants[i];
            let u = t.users[j];
            let (n, r) = session::session_created(s, t.id, u.id, requested, ttl_secs, hash, now);
            &&& r matches Ok(x) && x.token_hash == hash@ && x.tenant == t.id && x.user == u.id
                && x.user_name == u.name && x.created_ms == now && x.expires_ms == ends_at(
                now as int,
                ttl_secs,
            ) && x.caps.0 == u.caps.0 & requested.0 & 0x1fff && n.sessions.contains(x)
            &&& n.tenants == s.tenants
            &&& forall|k: int|
                0 <= k < s.sessions.len() && (#[trigger] s.sessions[k]).token_hash != hash@
                    ==> n.sessions.contains(s.sessions[k])
        }),
{
    let t = s.tenants[i];
    store_laws::lemma_find(s.tenants, i);
    assert(store_laws::tenant_ok(t, s.next_user_id));
    let ids = store::user_ids(t.users);
    assert forall|k: int| 0 <= k < j implies ids[k] != t.users[j].id by {
        assert(t.users[k].id.0 < t.users[j].id.0);
    }
    store::lemma_is_first(ids, t.users[j].id, j);
    let (n, r) = session::session_created(s, t.id, t.users[j].id, requested, ttl_secs, hash, now);
    let left = store::kept(s.sessions, SessionMatch::WithHash(hash));
    store_laws::lemma_kept(s.sessions, SessionMatch::WithHash(hash));
    assert(n.sessions[n.sessions.len() - 1] == r->Ok_0);
    assert forall|k: int|
        0 <= k < s.sessions.len() && (#[trigger] s.sessions[k]).token_hash
            != hash@ implies n.sessions.contains(s.sessions[k]) by {
        assert(left.contains(s.sessions[k]));
        let x = choose|x: int| 0 <= x < left.len() && left[x] == s.sessions[k];
        assert(n.sessions[x] == s.sessions[k]);
    }
}

/// A token is good exactly until its session ends: it stands for the session
/// that has its fingerprint, as long as that one's end is still to come.
pub proof fn law_token_is_good_until_the_end(s: StoreView, hash: Seq<u8>, now: u64)
    requires
        store_laws::sound(s),
    ensures
        match session::live_session(s.sessions, hash, now) {
            Some(x) => s.sessions.contains(x) && x.token_hash == hash && now < x.expires_ms,
            None => forall|k: int|
                0 <= k < s.sessions.len() && (#[trigger] s.sessions[k]).token_hash == hash
                    ==> s.sessions[k].expires_ms <= now,
        },
{
    let hs = session::session_hashes(s.sessions);
    store::lemma_first_at(hs, hash, 0);
    match store::first_at(hs, hash, 0) {
        Some(i) => {
            assert(hs[i] == s.sessions[i].token_hash);
            assert forall|k: int|
                0 <= k < s.sessions.len() && (#[trigger] s.sessions[k]).token_hash
                    == hash implies k == i by {
                if k < i {
                    assert(s.sessions[k].token_hash != s.sessions[i].token_hash);
                } else if i < k {
                    assert(s.sessions[i].token_hash != s.sessions[k].token_hash);
                }
            }
        },
        None => {
            assert forall|k: int|
                0 <= k < s.sessions.len() && (#[trigger] s.sessions[k]).token_hash
                    == hash implies s.sessions[k].expires_ms <= now by {
                assert(hs[k] == hash);
            }
        },
    }
}

/// Which sessions end: those of a user, of a tenant, with a fingerprint, or over
/// at a moment. All of those end and all others stay.
pub proof fn law_sessions_end(ss: Seq<SessionView>, x: SessionView, now: u64, t: TenantId, u: UserId, h: TokenHash)
    requires
        ss.contains(x),
    ensures
        store::kept(ss, SessionMatch::ExpiredAt(now)).contains(x) <==> now < x.expires_ms,
        store::kept(ss, SessionMatch::OfTenant(t)).contains(x) <==> x.tenant != t,
        store::kept(ss, SessionMatch::OfUser(t, u)).contains(x) <==> !(x.tenant == t && x.user == u),
        store::kept(ss, SessionMatch::WithHash(h)).contains(x) <==> x.token_hash != h@,
{
    let i = choose|i: int| 0 <= i < ss.len() && ss[i] == x;
    lemma_ends(ss, SessionMatch::ExpiredAt(now), i);
    lemma_ends(ss, SessionMatch::OfTenant(t), i);
    lemma_ends(ss, SessionMatch::OfUser(t, u), i);
    lemma_ends(ss, SessionMatch::WithHash(h), i);
}

proof fn lemma_ends(ss: Seq<SessionView>, m: SessionMatch, i: int)
    requires
        0 <= i < ss.len(),
    ensures
        store::kept(ss, m).contains(ss[i]) <==> !m.selects(ss[i]),
{
    store_laws::lemma_kept(ss, m);
    let w = store::kept(ss, m);
    if w.contains(ss[i]) {
        let k = choose|k: int| 0 <= k < w.len() && w[k] == ss[i];
        assert(!m.selects(w[k]));
    }
}

/// A rotation leaves a tenant with the new root set and each of its users with
/// what they held of it; the tenant's sessions end. Nothing else of the tenant,
/// and no other tenant, changes.
pub proof fn law_rotation(s: StoreView, i: int, new_caps: TenantCaps)
    requires
        store_laws::sound(s),
        0 <= i < s.tenants.len(),
    ensures
        ({
            let t = s.tenants[i];
            let (n, r) = session::caps_rotated(s, t.id, new_caps);
            &&& r is Ok <==> (t.parent matches Some(p) ==> exists|k: int|
                0 <= k < s.tenants.len() && (#[trigger] s.tenants[k]).id == p && new_caps.0
                    & s.tenants[k].root_caps.0 == new_caps.0)
            &&& r is Err ==> n == s
            &&& r matches Ok(report) ==> {
                let after = n.tenants[i];
                &&& n.tenants == s.tenants.update(i, after)
                &&& after == (TenantView { root_caps: new_caps, users: after.users, ..t })
                &&& after.users.len() == t.users.len()
                &&& forall|j: int|
                    0 <= j < t.users.len() ==> (#[trigger] after.users[j]) == (UserView {
                        caps: after.users[j].caps,
                        ..t.users[j]
                    }) && after.users[j].caps.0 == t.users[j].caps.0 & new_caps.0 & 0x1fff
                &&& forall|x: SessionView| #[trigger]
                    s.sessions.contains(x) ==> (n.sessions.contains(x) <==> x.tenant != t.id)
                &&& report.tenant == t.id && report.tenant_name == t.name && report.old_caps
                    == t.root_caps && report.new_caps == new_caps
                &&& report.revoked_sessions == s.sessions.len() - n.sessions.len()
            }
        }),
{
    let t = s.tenants[i];
    store_laws::lemma_find(s.tenants, i);
    assert(store_laws::parent_ok(s.tenants, t));
    let b = new_caps.0;
    if let Some(p) = t.parent {
        store_laws::lemma_found(s.tenants, p);
        let k = store::find_tenant(s.tenants, p)->0;
        assert forall|j: int|
            0 <= j < s.tenants.len() && (#[trigger] s.tenants[j]).id == p implies j == k by {
            store_laws::lemma_find(s.tenants, j);
        }
        let a = s.tenants[k].root_caps.0;
        assert(a & b == b & a) by (bit_vector);
    }
    let (n, r) = session::caps_rotated(s, t.id, new_caps);
    if r is Ok {
        assert forall|x: SessionView| #[trigger] s.sessions.contains(x) implies (
        n.sessions.contains(x) <==> x.tenant != t.id) by {
            let k = choose|k: int| 0 <= k < s.sessions.len() && s.sessions[k] == x;
            lemma_ends(s.sessions, SessionMatch::OfTenant(t.id), k);
        }
    }
}

/// What an operation takes: a VM its vCPUs and its memory, a volume its bytes,
/// and anything else nothing.
pub proof fn law_what_operations_take(op: VmOp)
    ensures
        op is Create || op is CreateVolume <==> runtime::planned(op) is Some,
        op matches VmOp::Create { cpu_count, memory_mib, .. } ==> (runtime::planned(op) matches Some(
            c,
        ) && c.vcpus == (match cpu_count {
            Some(n) => n as int,
            None => 0,
        }) && c.memory_mib == (match memory_mib {
            Some(n) => n as int,
            None => 0,
        }) && c.storage_bytes == 0 && c.network_mbps == 0 && c.iops == 0),
        op matches VmOp::CreateVolume { size_bytes, .. } ==> (runtime::planned(op) matches Some(c)
            && c.storage_bytes == size_bytes && c.vcpus == 0 && c.memory_mib == 0 && c.network_mbps
            == 0 && c.iops == 0),
{
}

/// An execution runs with the rights of the user in whose name it runs, or with
/// those of the tenant where no user is named: what they do not hold, the host
/// refuses.
pub proof fn law_execution_has_the_users_rights(
    s: StoreView,
    i: int,
    user: Option<Seq<char>>,
    held: TenantCaps,
    op: VmOp,
    opts: ExecOptions,
    max_mount: usize,
    n: StoreView,
    step: ExecStep,
)
    requires
        store_laws::sound(s),
        0 <= i < s.tenants.len(),
        match user {
            None => held == s.tenants[i].root_caps,
            Some(name) => exists|j: int|
                0 <= j < s.tenants[i].users.len() && (#[trigger] s.tenants[i].users[j]).name == name
                    && s.tenants[i].users[j].caps == held,
        },
        exec::executed(s, s.tenants[i].name, user, op, opts, max_mount, n, Ok(step)),
        held.0 & 0x1fff & capabilities::required_for(op).0 != capabilities::required_for(op).0,
    ensures
        step matches ExecStep::Answered(_, r) && r is Err,
{
    let t = s.tenants[i];
    let names = store::tenant_names(s.tenants);
    assert forall|k: int| 0 <= k < i implies names[k] != t.name by {
        assert(s.tenants[k].name != s.tenants[i].name);
    }
    store::lemma_is_first(names, t.name, i);
    if let Some(name) = user {
        let j = choose|j: int|
            0 <= j < t.users.len() && (#[trigger] t.users[j]).name == name && t.users[j].caps
                == held;
        assert(store_laws::tenant_ok(t, s.next_user_id));
        let us = store::user_names(t.users);
        assert forall|k: int| 0 <= k < j implies us[k] != name by {
            assert(t.users[k].name != t.users[j].name);
        }
        store::lemma_is_first(us, name, j);
    }
}

proof fn lemma_narrowed_count(us: Seq<UserView>, new_caps: TenantCaps, n: int)
    requires
        0 <= n <= us.len(),
    ensures
        session::narrowed_count(us, new_caps, n) == us.take(n).filter(
            |u: UserView| (u.caps.0 & new_caps.0) & 0x1fff != u.caps.0,
        ).len(),
    decreases n,
{
    reveal(Seq::filter);
    if n > 0 {
        lemma_narrowed_count(us, new_caps, n - 1);
        assert(us.take(n).drop_last() =~= us.take(n - 1));
        assert(us.take(n).last() == us[n - 1]);
    }
}

/// A rotation counts each user who loses something once, and no one else.
pub proof fn law_rotation_counts_users(us: Seq<UserView>, new_caps: TenantCaps)
    ensures
        session::narrowed_count(us, new_caps, us.len() as int) == us.filter(
            |u: UserView| (u.caps.0 & new_caps.0) & 0x1fff != u.caps.0,
        ).len(),
{
    lemma_narrowed_count(us, new_caps, us.len() as int);
    assert(us.take(us.len() as int) =~= us);
}

} // verus!
