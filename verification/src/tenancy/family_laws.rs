//! What holds of tenants and subtenants: who is above and below whom, what goes
//! when a subtree is deleted, and what goes when a user is removed.

use vstd::prelude::*;
use vstd::string::*;

use crate::error::ErrorView;
use crate::tenancy::auth::SessionView;
use crate::tenancy::hierarchy;
use crate::tenancy::store;
use crate::tenancy::store::{SessionMatch, StoreView};
use crate::tenancy::store_laws;
use crate::tenancy::tenant::{TenantId, TenantView};
use crate::tenancy::user::{UserId, UserView};

verus! {

/// The tenants stand in the order of their numbers.
pub open spec fn in_order(ts: Seq<TenantView>) -> bool {
    forall|a: int, b: int|
        0 <= a < b < ts.len() ==> (#[trigger] ts[a]).id.0 < (#[trigger] ts[b]).id.0
}

/// The subtenants of a tenant are those that name it as their parent, each once
/// and in the order of their numbers.
pub proof fn law_children(ts: Seq<TenantView>, parent: TenantId)
    requires
        in_order(ts),
    ensures
        forall|k: int|
            0 <= k < hierarchy::children_of(ts, parent).len() ==> (
            #[trigger] hierarchy::children_of(ts, parent)[k]).parent == Some(parent)
                && ts.contains(hierarchy::children_of(ts, parent)[k]),
        forall|i: int|
            0 <= i < ts.len() && (#[trigger] ts[i]).parent == Some(parent)
                ==> hierarchy::children_of(ts, parent).contains(ts[i]),
        in_order(hierarchy::children_of(ts, parent)),
    decreases ts.len(),
{
    if ts.len() > 0 {
        let d = ts.drop_last();
        let w = hierarchy::children_of(d, parent);
        let v = hierarchy::children_of(ts, parent);
        law_children(d, parent);
        assert forall|k: int| 0 <= k < v.len() implies (#[trigger] v[k]).parent == Some(parent)
            && ts.contains(v[k]) by {
            if k < w.len() {
                assert(v[k] == w[k]);
                let i = choose|i: int| 0 <= i < d.len() && d[i] == w[k];
                assert(ts[i] == v[k]);
            } else {
                assert(ts[ts.len() - 1] == v[k]);
            }
        }
        assert forall|i: int| 0 <= i < ts.len() && (#[trigger] ts[i]).parent == Some(
            parent,
        ) implies v.contains(ts[i]) by {
            if i < d.len() {
                assert(d[i] == ts[i]);
                assert(w.contains(d[i]));
                let k = choose|k: int| 0 <= k < w.len() && w[k] == d[i];
                assert(v[k] == ts[i]);
            } else {
                assert(v[v.len() - 1] == ts[i]);
            }
        }
        assert forall|a: int, b: int| 0 <= a < b < v.len() implies (#[trigger] v[a]).id.0 < (
        #[trigger] v[b]).id.0 by {
            assert(v[a] == w[a]);
            if b < w.len() {
                assert(v[b] == w[b]);
            } else {
                let i = choose|i: int| 0 <= i < d.len() && d[i] == w[a];
                assert(ts[i] == v[a]);
                assert(ts[ts.len() - 1] == v[b]);
            }
        }
    }
}

/// A way up: it starts at a tenant, each is the parent of the one before, and the
/// last has none.
pub open spec fn way_up(ts: Seq<TenantView>, path: Seq<int>) -> bool {
    &&& path.len() > 0
    &&& forall|k: int| 0 <= k < path.len() ==> 0 <= #[trigger] path[k] < ts.len()
    &&& forall|k: int| 0 <= k < path.len() ==> #[trigger] climbs(ts, path, k)
}

/// The step of a way up at `k`.
pub open spec fn climbs(ts: Seq<TenantView>, path: Seq<int>, k: int) -> bool {
    ts[path[k]].parent == if k + 1 < path.len() {
        Some(ts[path[k + 1]].id)
    } else {
        None
    }
}

proof fn lemma_way_up(ts: Seq<TenantView>, path: Seq<int>, depth: nat)
    requires
        in_order(ts),
        way_up(ts, path),
    ensures
        path.len() + depth <= 65 ==> hierarchy::chain_of(ts, Some(ts[path[0]].id), depth) == Ok::<
            Seq<int>,
            ErrorView,
        >(path),
        path.len() + depth > 65 ==> hierarchy::chain_of(ts, Some(ts[path[0]].id), depth) is Err,
    decreases path.len(),
{
    let i = path[0];
    store_laws::lemma_find(ts, i);
    assert(climbs(ts, path, 0));
    if path.len() > 1 {
        let rest = path.skip(1);
        assert(way_up(ts, rest)) by {
            assert forall|k: int| 0 <= k < rest.len() implies 0 <= #[trigger] rest[k] < ts.len() by {
                assert(rest[k] == path[k + 1]);
            }
            assert forall|k: int| 0 <= k < rest.len() implies #[trigger] climbs(ts, rest, k) by {
                assert(climbs(ts, path, k + 1));
                assert(rest[k] == path[k + 1]);
                if k + 1 < rest.len() {
                    assert(rest[k + 1] == path[k + 2]);
                }
            }
        }
        assert(rest[0] == path[1]);
        if depth <= 64 {
            lemma_way_up(ts, rest, depth + 1);
            assert(seq![i] + rest =~= path);
        }
    } else if depth <= 64 {
        assert(hierarchy::chain_of(ts, None, depth + 1) == Ok::<Seq<int>, ErrorView>(Seq::empty()));
        assert(seq![i] + Seq::<int>::empty() =~= path);
    }
}

/// The tenants above a tenant are those on its way up without itself, the parent
/// first; there are at most 64 of them, and a longer way is refused.
pub proof fn law_ancestors(ts: Seq<TenantView>, path: Seq<int>)
    requires
        in_order(ts),
        way_up(ts, path),
    ensures
        ({
            let r = hierarchy::ancestors_of(ts, ts[path[0]].id);
            &&& r is Ok <==> path.len() <= 65
            &&& r matches Ok(a) ==> a.len() == path.len() - 1 && forall|k: int|
                0 <= k < a.len() ==> #[trigger] a[k] == ts[path[k + 1]]
        }),
{
    let i = path[0];
    store_laws::lemma_find(ts, i);
    lemma_way_up(ts, path, 0);
    assert(climbs(ts, path, 0));
    if path.len() > 1 {
        let rest = path.skip(1);
        assert(way_up(ts, rest)) by {
            assert forall|k: int| 0 <= k < rest.len() implies 0 <= #[trigger] rest[k] < ts.len() by {
                assert(rest[k] == path[k + 1]);
            }
            assert forall|k: int| 0 <= k < rest.len() implies #[trigger] climbs(ts, rest, k) by {
                assert(climbs(ts, path, k + 1));
                assert(rest[k] == path[k + 1]);
                if k + 1 < rest.len() {
                    assert(rest[k + 1] == path[k + 2]);
                }
            }
        }
        assert(rest[0] == path[1]);
        lemma_way_up(ts, rest, 1);
        if path.len() <= 65 {
            let a = hierarchy::ancestors_of(ts, ts[i].id)->Ok_0;
            assert forall|k: int| 0 <= k < a.len() implies #[trigger] a[k] == ts[path[k + 1]] by {
                assert(rest[k] == path[k + 1]);
            }
        }
    } else {
        assert(hierarchy::chain_of(ts, None, 1) == Ok::<Seq<int>, ErrorView>(Seq::empty()));
    }
}

/// A charge or a release goes along the whole way up of at most 65 tenants; a
/// longer way is refused.
pub proof fn law_who_pays(ts: Seq<TenantView>, path: Seq<int>)
    requires
        in_order(ts),
        way_up(ts, path),
    ensures
        hierarchy::chain_of(ts, Some(ts[path[0]].id), 0) is Ok <==> path.len() <= 65,
        hierarchy::chain_of(ts, Some(ts[path[0]].id), 0) matches Ok(c) ==> c == path,
{
    lemma_way_up(ts, path, 0);
}

/// The number of users of all tenants.
pub open spec fn all_users(ts: Seq<TenantView>) -> int
    decreases ts.len(),
{
    if ts.len() == 0 {
        0
    } else {
        all_users(ts.drop_last()) + ts.last().users.len()
    }
}

proof fn lemma_one_more(ts: Seq<TenantView>, ids: Seq<TenantId>, id: TenantId)
    requires
        in_order(ts),
        !ids.contains(id),
    ensures
        all_users(hierarchy::without_tenants(ts, ids)) == all_users(
            hierarchy::without_tenants(ts, ids.push(id)),
        ) + match store::find_tenant(ts, id) {
            Some(i) => ts[i].users.len() as int,
            None => 0,
        },
    decreases ts.len(),
{
    store_laws::lemma_found(ts, id);
    if ts.len() > 0 {
        let d = ts.drop_last();
        lemma_one_more(d, ids, id);
        store_laws::lemma_found(d, id);
        let a = hierarchy::without_tenants(d, ids);
        let b = hierarchy::without_tenants(d, ids.push(id));
        let t = ts.last();
        let more = ids.push(id);
        assert(more.contains(t.id) <==> ids.contains(t.id) || t.id == id) by {
            if ids.contains(t.id) {
                let k = choose|k: int| 0 <= k < ids.len() && ids[k] == t.id;
                assert(more[k] == t.id);
            }
            if t.id == id {
                assert(more[ids.len() as int] == id);
            }
            if more.contains(t.id) {
                let k = choose|k: int| 0 <= k < more.len() && more[k] == t.id;
                if k < ids.len() {
                    assert(ids[k] == t.id);
                }
            }
        }
        assert(a.push(t).drop_last() =~= a);
        assert(b.push(t).drop_last() =~= b);
        if let Some(i) = store::find_tenant(d, id) {
            assert(ts[i] == d[i]);
            store_laws::lemma_find(ts, i);
            if t.id == id {
                assert(ts[i].id.0 < ts[ts.len() - 1].id.0);
            }
        } else if t.id == id {
            store_laws::lemma_find(ts, ts.len() - 1);
        } else if let Some(i) = store::find_tenant(ts, id) {
            assert(i < d.len());
            assert(d[i].id == id);
        }
    }
}

proof fn lemma_users_gone(ts: Seq<TenantView>, ids: Seq<TenantId>, n: int)
    requires
        in_order(ts),
        ids.no_duplicates(),
        0 <= n <= ids.len(),
        forall|k: int| 0 <= k < ids.len() ==> store::find_tenant(ts, #[trigger] ids[k]) is Some,
    ensures
        all_users(ts) == all_users(hierarchy::without_tenants(ts, ids.take(n)))
            + hierarchy::users_within(ts, ids, n),
    decreases n,
{
    if n == 0 {
        lemma_none_gone(ts, ids.take(0));
    } else {
        lemma_users_gone(ts, ids, n - 1);
        let before = ids.take(n - 1);
        assert(ids.take(n) =~= before.push(ids[n - 1]));
        assert(!before.contains(ids[n - 1])) by {
            if before.contains(ids[n - 1]) {
                let k = choose|k: int| 0 <= k < before.len() && before[k] == ids[n - 1];
                assert(ids[k] == ids[n - 1]);
            }
        }
        lemma_one_more(ts, before, ids[n - 1]);
    }
}

proof fn lemma_none_gone(ts: Seq<TenantView>, ids: Seq<TenantId>)
    requires
        ids.len() == 0,
    ensures
        hierarchy::without_tenants(ts, ids) == ts,
    decreases ts.len(),
{
    if ts.len() > 0 {
        lemma_none_gone(ts.drop_last(), ids);
        assert(ts.drop_last().push(ts.last()) =~= ts);
    }
}

proof fn lemma_sessions_stay(ss: Seq<SessionView>, ids: Seq<TenantId>, n: int)
    requires
        0 <= n <= ids.len(),
    ensures
        forall|i: int|
            0 <= i < ss.len() && !ids.contains((#[trigger] ss[i]).tenant)
                ==> hierarchy::sessions_without(ss, ids, n).contains(ss[i]),
        forall|k: int|
            0 <= k < hierarchy::sessions_without(ss, ids, n).len() ==> ss.contains(
                #[trigger] hierarchy::sessions_without(ss, ids, n)[k],
            ),
    decreases n,
{
    if n == 0 {
        assert forall|i: int| 0 <= i < ss.len() implies ss.contains(#[trigger] ss[i]) by {}
    } else {
        lemma_sessions_stay(ss, ids, n - 1);
        let p = hierarchy::sessions_without(ss, ids, n - 1);
        let m = SessionMatch::OfTenant(ids[n - 1]);
        store_laws::lemma_kept(p, m);
        let v = store::kept(p, m);
        assert forall|i: int| 0 <= i < ss.len() && !ids.contains(
            (#[trigger] ss[i]).tenant,
        ) implies v.contains(ss[i]) by {
            let k = choose|k: int| 0 <= k < p.len() && p[k] == ss[i];
            assert(ids.contains(ids[n - 1]));
            assert(!m.selects(p[k]));
        }
        assert forall|k: int| 0 <= k < v.len() implies ss.contains(#[trigger] v[k]) by {
            assert(p.contains(v[k]));
            let j = choose|j: int| 0 <= j < p.len() && p[j] == v[k];
            assert(ss.contains(p[j]));
        }
    }
}

/// A tenant uses something.
pub open spec fn in_use(t: TenantView) -> bool {
    t.usage.vcpus > 0 || t.usage.memory_mib > 0 || t.usage.storage_bytes > 0 || t.usage.network_mbps
        > 0 || t.usage.iops > 0
}

/// What a recursive deletion reports is what went: every deleted tenant with its
/// name, as many users as there are fewer, and as many sessions as there are
/// fewer. Where the tenant is known and the tree below it can be walked, it is
/// refused only if somebody in it uses something. Sessions of other tenants stay.
pub proof fn law_deletion_is_reported(s: StoreView, tenant: TenantId)
    requires
        store_laws::sound(s),
        all_users(s.tenants) <= usize::MAX,
    ensures
        ({
            let (n, r) = hierarchy::subtree_deleted(s, tenant);
            &&& r is Err ==> n == s
            &&& store::find_tenant(s.tenants, tenant) is Some && hierarchy::subtree_of(
                s.tenants,
                tenant,
                0,
            ) is Ok && r is Err ==> exists|i: int|
                0 <= i < s.tenants.len() && store_laws::below(
                    s.tenants,
                    (#[trigger] s.tenants[i]).id,
                    tenant,
                ) && in_use(s.tenants[i])
            &&& r matches Ok(q) ==> {
                &&& q.dropped_users == all_users(s.tenants) - all_users(n.tenants)
                &&& q.revoked_sessions == s.sessions.len() - n.sessions.len()
                &&& n.next_tenant_id == s.next_tenant_id
                &&& n.next_user_id == s.next_user_id
                &&& forall|k: int|
                    0 <= k < q.deleted_tenants.len() ==> exists|i: int|
                        0 <= i < s.tenants.len() && (#[trigger] s.tenants[i]).id == (
                        #[trigger] q.deleted_tenants[k]).0 && s.tenants[i].name
                            == q.deleted_tenants[k].1 && !in_use(s.tenants[i])
                &&& forall|i: int|
                    0 <= i < s.sessions.len() ==> (n.sessions.contains(#[trigger] s.sessions[i])
                        <==> !store_laws::below(s.tenants, s.sessions[i].tenant, tenant))
            }
        }),
{
    let (n, r) = hierarchy::subtree_deleted(s, tenant);
    if r is Err && store::find_tenant(s.tenants, tenant) is Some && hierarchy::subtree_of(
        s.tenants,
        tenant,
        0,
    ) is Ok {
        let ids = hierarchy::subtree_of(s.tenants, tenant, 0)->Ok_0;
        store_laws::law_subtree_exact(s.tenants, tenant, 0);
        hierarchy::lemma_subtree_known(s.tenants, tenant, 0);
        let k = choose|k: int|
            0 <= k < ids.len() && hierarchy::tenant_at(s.tenants, #[trigger] ids[k]).usage
                != crate::tenancy::quota::no_usage();
        store_laws::lemma_found(s.tenants, ids[k]);
        let i = store::find_tenant(s.tenants, ids[k])->0;
        assert(store_laws::below(s.tenants, s.tenants[i].id, tenant));
    }
    if r is Ok {
        let q = r->Ok_0;
        let ts = s.tenants;
        let ids = hierarchy::subtree_of(ts, tenant, 0)->Ok_0;
        store_laws::law_delete_recursive(s, tenant);
        hierarchy::lemma_subtree_known(ts, tenant, 0);
        let m = ids.len() as int;
        assert(ids.take(m) =~= ids);
        lemma_users_gone(ts, ids, m);
        lemma_users_fewer(n.tenants);
        assert forall|k: int| 0 <= k < q.deleted_tenants.len() implies exists|i: int|
            0 <= i < ts.len() && (#[trigger] ts[i]).id == (#[trigger] q.deleted_tenants[k]).0
                && ts[i].name == q.deleted_tenants[k].1 && !in_use(ts[i]) by {
            store_laws::lemma_found(ts, ids[k]);
            let i = store::find_tenant(ts, ids[k])->0;
            assert(ts[i].id == q.deleted_tenants[k].0);
            assert(hierarchy::tenant_at(ts, ids[k]).usage == crate::tenancy::quota::no_usage());
        }
        lemma_sessions_stay(s.sessions, ids, m);
        store_laws::lemma_sessions_without(s, ids, m);
        assert forall|i: int| 0 <= i < s.sessions.len() implies (n.sessions.contains(
            #[trigger] s.sessions[i],
        ) <==> !store_laws::below(ts, s.sessions[i].tenant, tenant)) by {
            let x = s.sessions[i].tenant;
            if store_laws::below(ts, x, tenant) {
                lemma_below_known(ts, x, tenant);
                let j = choose|j: int| 0 <= j < ts.len() && (#[trigger] ts[j]).id == x;
                assert(ids.contains(ts[j].id));
                if n.sessions.contains(s.sessions[i]) {
                    let k = choose|k: int|
                        0 <= k < n.sessions.len() && n.sessions[k] == s.sessions[i];
                    assert(!ids.contains(n.sessions[k].tenant));
                }
            } else if ids.contains(x) {
                let k = choose|k: int| 0 <= k < ids.len() && ids[k] == x;
                assert(store_laws::below(ts, ids[k], tenant));
            }
        }
    }
}

proof fn lemma_users_fewer(ts: Seq<TenantView>)
    ensures
        0 <= all_users(ts),
    decreases ts.len(),
{
    if ts.len() > 0 {
        lemma_users_fewer(ts.drop_last());
    }
}

proof fn lemma_below_known(ts: Seq<TenantView>, x: TenantId, root: TenantId)
    requires
        store_laws::below(ts, x, root),
        store::find_tenant(ts, root) is Some,
    ensures
        exists|j: int| 0 <= j < ts.len() && (#[trigger] ts[j]).id == x,
{
    store_laws::lemma_found(ts, x);
    store_laws::lemma_found(ts, root);
    let j = if x == root {
        store::find_tenant(ts, root)->0
    } else {
        store::find_tenant(ts, x)->0
    };
    assert(ts[j].id == x);
}

proof fn lemma_users_stay(us: Seq<UserView>, id: UserId)
    ensures
        forall|j: int|
            0 <= j < us.len() && (#[trigger] us[j]).id != id ==> store::without_user(
                us,
                id,
            ).contains(us[j]),
    decreases us.len(),
{
    if us.len() > 0 {
        let d = us.drop_last();
        lemma_users_stay(d, id);
        let w = store::without_user(d, id);
        let v = store::without_user(us, id);
        assert forall|j: int| 0 <= j < us.len() && (#[trigger] us[j]).id != id implies v.contains(
            us[j],
        ) by {
            if j < d.len() {
                assert(d[j] == us[j]);
                assert(w.contains(d[j]));
                let k = choose|k: int| 0 <= k < w.len() && w[k] == d[j];
                assert(v[k] == us[j]);
            } else {
                assert(v[v.len() - 1] == us[j]);
            }
        }
    }
}

/// A user that is removed goes, with every session; every other user, tenant and
/// session stays as it was.
pub proof fn law_user_is_removed(s: StoreView, i: int, user: UserId)
    requires
        store_laws::sound(s),
        0 <= i < s.tenants.len(),
    ensures
        ({
            let t = s.tenants[i];
            let (n, r) = store::user_removed(s, t.id, user);
            &&& r is Ok
            &&& n.tenants.len() == s.tenants.len()
            &&& forall|k: int|
                0 <= k < s.tenants.len() && k != i ==> #[trigger] n.tenants[k] == s.tenants[k]
            &&& n.tenants[i] == (TenantView { users: n.tenants[i].users, ..t })
            &&& forall|j: int|
                0 <= j < t.users.len() ==> (n.tenants[i].users.contains(#[trigger] t.users[j])
                    <==> t.users[j].id != user)
            &&& forall|j: int|
                0 <= j < n.tenants[i].users.len() ==> t.users.contains(
                    #[trigger] n.tenants[i].users[j],
                )
            &&& forall|k: int|
                0 <= k < s.sessions.len() ==> (n.sessions.contains(#[trigger] s.sessions[k])
                    <==> !(s.sessions[k].tenant == t.id && s.sessions[k].user == user))
            &&& forall|k: int|
                0 <= k < n.sessions.len() ==> s.sessions.contains(#[trigger] n.sessions[k])
        }),
{
    let t = s.tenants[i];
    store_laws::lemma_find(s.tenants, i);
    let (n, r) = store::user_removed(s, t.id, user);
    store_laws::lemma_without_user_members(t.users, user);
    lemma_users_stay(t.users, user);
    let m = SessionMatch::OfUser(t.id, user);
    store_laws::lemma_kept(s.sessions, m);
    assert forall|j: int| 0 <= j < t.users.len() implies (n.tenants[i].users.contains(
        #[trigger] t.users[j],
    ) <==> t.users[j].id != user) by {
        let w = n.tenants[i].users;
        if w.contains(t.users[j]) {
            let k = choose|k: int| 0 <= k < w.len() && w[k] == t.users[j];
            assert(w[k].id != user);
        }
    }
    assert forall|k: int| 0 <= k < s.sessions.len() implies (n.sessions.contains(
        #[trigger] s.sessions[k],
    ) <==> !(s.sessions[k].tenant == t.id && s.sessions[k].user == user)) by {
        if n.sessions.contains(s.sessions[k]) {
            let x = choose|x: int| 0 <= x < n.sessions.len() && n.sessions[x] == s.sessions[k];
            assert(!m.selects(n.sessions[x]));
        }
    }
}

} // verus!
