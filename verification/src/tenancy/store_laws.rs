//! What every operation of the tenant store keeps, and what the operations
//! promise together.

use vstd::prelude::*;

use crate::tenancy::auth;
use crate::tenancy::auth::{SessionView, TokenHash};
use crate::tenancy::caps::TenantCaps;
use crate::tenancy::hierarchy;
use crate::tenancy::namespace;
use crate::tenancy::quota;
use crate::tenancy::quota::{QuotaCharge, QuotaUsage};
use crate::tenancy::session;
use crate::tenancy::store;
use crate::tenancy::store::{MAX_DEPTH, SessionMatch, StoreView};
use crate::tenancy::tenant::{TenantId, TenantSpecView, TenantView};
use crate::tenancy::user::{UserId, UserView};

verus! {

/// A tenant is in order: its name is valid and gives its namespace, its users
/// have increasing ids and hold no more than the root set, and its usage is
/// under its ceilings.
pub open spec fn tenant_ok(t: TenantView, next_user_id: u64) -> bool {
    &&& namespace::validated(t.name) is Ok
    &&& t.namespace == namespace::root_path(t.name)
    &&& quota::under(t.usage, t.quotas)
    &&& forall|j: int|
        0 <= j < t.users.len() ==> (#[trigger] t.users[j]).id.0 <= next_user_id
            && t.root_caps.includes(t.users[j].caps)
    &&& forall|j: int, k: int|
        0 <= j < k < t.users.len() ==> (#[trigger] t.users[j]).id.0 < (#[trigger] t.users[k]).id.0
    &&& forall|j: int, k: int|
        0 <= j < k < t.users.len() ==> (#[trigger] t.users[j]).name != (
        #[trigger] t.users[k]).name
}

/// A session holds no more than its user does, as long as that user exists.
pub open spec fn session_ok(ts: Seq<TenantView>, s: SessionView) -> bool {
    forall|i: int, j: int|
        0 <= i < ts.len() && 0 <= j < (#[trigger] ts[i]).users.len() && ts[i].id == s.tenant && (
        #[trigger] ts[i].users[j]).id == s.user ==> ts[i].users[j].caps.includes(s.caps)
}

/// A parent is an older tenant that exists.
pub open spec fn parent_ok(ts: Seq<TenantView>, t: TenantView) -> bool {
    t.parent matches Some(p) ==> p.0 < t.id.0 && store::find_tenant(ts, p) is Some
}

/// The invariant of a store that was only ever changed by its operations.
pub open spec fn sound(s: StoreView) -> bool {
    &&& s.wf()
    &&& forall|i: int| 0 <= i < s.tenants.len() ==> tenant_ok(#[trigger] s.tenants[i], s.next_user_id)
    &&& forall|i: int| 0 <= i < s.tenants.len() ==> parent_ok(s.tenants, #[trigger] s.tenants[i])
    &&& forall|i: int, j: int|
        0 <= i < j < s.tenants.len() ==> (#[trigger] s.tenants[i]).name != (
        #[trigger] s.tenants[j]).name
    &&& forall|k: int| 0 <= k < s.sessions.len() ==> session_ok(s.tenants, #[trigger] s.sessions[k])
    &&& forall|k: int|
        0 <= k < s.sessions.len() ==> (#[trigger] s.sessions[k]).user.0 <= s.next_user_id
            && s.sessions[k].tenant.0 <= s.next_tenant_id
    &&& forall|j: int, k: int|
        0 <= j < k < s.sessions.len() ==> (#[trigger] s.sessions[j]).token_hash != (
        #[trigger] s.sessions[k]).token_hash
}

/// In a store with increasing ids a tenant stands where its id says.
pub proof fn lemma_find(ts: Seq<TenantView>, i: int)
    requires
        0 <= i < ts.len(),
        forall|a: int, b: int|
            0 <= a < b < ts.len() ==> (#[trigger] ts[a]).id.0 < (#[trigger] ts[b]).id.0,
    ensures
        store::find_tenant(ts, ts[i].id) == Some(i),
{
    assert forall|j: int| 0 <= j < i implies store::tenant_ids(ts)[j] != ts[i].id by {
        assert(ts[j].id.0 < ts[i].id.0);
    }
    store::lemma_is_first(store::tenant_ids(ts), ts[i].id, i);
}

/// Finding a tenant says where it is, and that it is there.
pub proof fn lemma_found(ts: Seq<TenantView>, id: TenantId)
    ensures
        match store::find_tenant(ts, id) {
            Some(i) => 0 <= i < ts.len() && ts[i].id == id,
            None => forall|j: int| 0 <= j < ts.len() ==> (#[trigger] ts[j]).id != id,
        },
{
    store::lemma_first_at(store::tenant_ids(ts), id, 0);
    if store::find_tenant(ts, id) is None {
        assert forall|j: int| 0 <= j < ts.len() implies (#[trigger] ts[j]).id != id by {
            assert(store::tenant_ids(ts)[j] == ts[j].id);
        }
    }
}

/// A tenant that exists is found.
proof fn lemma_exists(ts: Seq<TenantView>, i: int)
    requires
        0 <= i < ts.len(),
    ensures
        store::find_tenant(ts, ts[i].id) is Some,
{
    lemma_found(ts, ts[i].id);
}

/// The sessions that stay were there before and are not selected; those that
/// are not selected stay.
pub proof fn lemma_kept(ss: Seq<SessionView>, m: SessionMatch)
    ensures
        forall|k: int|
            0 <= k < store::kept(ss, m).len() ==> !m.selects(#[trigger] store::kept(ss, m)[k])
                && ss.contains(store::kept(ss, m)[k]),
        forall|i: int|
            0 <= i < ss.len() && !m.selects(#[trigger] ss[i]) ==> store::kept(ss, m).contains(
                ss[i],
            ),
        (forall|i: int| 0 <= i < ss.len() ==> !m.selects(#[trigger] ss[i])) ==> store::kept(
            ss,
            m,
        ) == ss,
        (forall|j: int, k: int|
            0 <= j < k < ss.len() ==> (#[trigger] ss[j]).token_hash != (
            #[trigger] ss[k]).token_hash) ==> (forall|j: int, k: int|
            0 <= j < k < store::kept(ss, m).len() ==> (#[trigger] store::kept(ss, m)[j]).token_hash
                != (#[trigger] store::kept(ss, m)[k]).token_hash),
    decreases ss.len(),
{
    if ss.len() > 0 {
        let d = ss.drop_last();
        let w = store::kept(d, m);
        let v = store::kept(ss, m);
        lemma_kept(d, m);
        assert forall|k: int| 0 <= k < v.len() implies !m.selects(#[trigger] v[k]) && ss.contains(
            v[k],
        ) by {
            if k < w.len() {
                assert(v[k] == w[k]);
                let i = choose|i: int| 0 <= i < d.len() && d[i] == w[k];
                assert(ss[i] == v[k]);
            } else {
                assert(ss[ss.len() - 1] == v[k]);
            }
        }
        assert forall|i: int| 0 <= i < ss.len() && !m.selects(#[trigger] ss[i]) implies v.contains(
            ss[i],
        ) by {
            if i < d.len() {
                assert(d[i] == ss[i]);
                let k = choose|k: int| 0 <= k < w.len() && w[k] == d[i];
                assert(v[k] == ss[i]);
            } else {
                assert(v[v.len() - 1] == ss[i]);
            }
        }
        if forall|i: int| 0 <= i < ss.len() ==> !m.selects(#[trigger] ss[i]) {
            assert forall|i: int| 0 <= i < d.len() implies !m.selects(#[trigger] d[i]) by {
                assert(d[i] == ss[i]);
            }
            assert(!m.selects(ss[ss.len() - 1]));
            assert(v =~= ss);
        }
        if forall|j: int, k: int|
            0 <= j < k < ss.len() ==> (#[trigger] ss[j]).token_hash != (
            #[trigger] ss[k]).token_hash {
            assert forall|j: int, k: int| 0 <= j < k < d.len() implies (
            #[trigger] d[j]).token_hash != (#[trigger] d[k]).token_hash by {
                assert(d[j] == ss[j] && d[k] == ss[k]);
            }
            assert forall|j: int, k: int| 0 <= j < k < v.len() implies (
            #[trigger] v[j]).token_hash != (#[trigger] v[k]).token_hash by {
                if k < w.len() {
                    assert(v[j] == w[j] && v[k] == w[k]);
                } else {
                    assert(v[j] == w[j]);
                    let i = choose|i: int| 0 <= i < d.len() && d[i] == w[j];
                    assert(ss[i] == v[j]);
                    assert(ss[ss.len() - 1] == v[k]);
                }
            }
        }
    }
}

/// Ending sessions keeps a store sound.
pub proof fn law_revoking_keeps_sound(s: StoreView, m: SessionMatch)
    requires
        sound(s),
    ensures
        sound(StoreView { sessions: store::kept(s.sessions, m), ..s }),
{
    lemma_kept(s.sessions, m);
    let v = store::kept(s.sessions, m);
    assert forall|k: int| 0 <= k < v.len() implies session_ok(s.tenants, #[trigger] v[k]) && v[k].user.0
        <= s.next_user_id && v[k].tenant.0 <= s.next_tenant_id by {
        let i = choose|i: int| 0 <= i < s.sessions.len() && s.sessions[i] == v[k];
        assert(session_ok(s.tenants, s.sessions[i]));
    }
}

/// An empty store is sound.
pub proof fn law_empty_is_sound()
    ensures
        sound(
            StoreView {
                next_tenant_id: 0,
                next_user_id: 0,
                tenants: Seq::empty(),
                sessions: Seq::empty(),
            },
        ),
{
}

/// Creating a tenant keeps a store sound, draws an id that was never used, and
/// a subtenant holds no more than its parent.
pub proof fn law_create(s: StoreView, spec: TenantSpecView, root_caps: TenantCaps)
    requires
        sound(s),
    ensures
        sound(store::created(s, spec, root_caps).0),
        store::created(s, spec, root_caps).1 matches Ok(t) ==> {
            &&& t.id.0 > s.next_tenant_id
            &&& store::find_tenant(s.tenants, t.id) is None
            &&& spec.parent matches Some(p) ==> {
                let parent = hierarchy::tenant_at(s.tenants, p);
                parent.root_caps.includes(root_caps) && spec.quotas.within(parent.quotas)
            }
        },
{
    let out = store::created(s, spec, root_caps);
    let n = out.0;
    if out.1 is Ok {
        let t = out.1->Ok_0;
        let ts = s.tenants;
        lemma_found(ts, t.id);
        if let Some(j) = store::find_tenant(ts, t.id) {
            assert(ts[j].id.0 <= s.next_tenant_id);
        }
        store::lemma_first_at(store::tenant_names(ts), spec.name, 0);
        assert forall|i: int| 0 <= i < n.tenants.len() implies tenant_ok(
            #[trigger] n.tenants[i],
            n.next_user_id,
        ) && parent_ok(n.tenants, n.tenants[i]) by {
            if i < ts.len() {
                assert(n.tenants[i] == ts[i]);
                assert(parent_ok(ts, ts[i]));
                if let Some(p) = ts[i].parent {
                    lemma_found(ts, p);
                    lemma_push_finds(ts, t, p);
                }
            } else if let Some(p) = spec.parent {
                lemma_found(ts, p);
                lemma_push_finds(ts, t, p);
                let k = store::find_tenant(ts, p)->0;
                assert(ts[k].id.0 <= s.next_tenant_id);
            }
        }
        assert forall|i: int, j: int| 0 <= i < j < n.tenants.len() implies (
        #[trigger] n.tenants[i]).name != (#[trigger] n.tenants[j]).name by {
            if j == ts.len() {
                assert(store::tenant_names(ts)[i] == ts[i].name);
            }
        }
        assert forall|k: int| 0 <= k < n.sessions.len() implies session_ok(
            n.tenants,
            #[trigger] n.sessions[k],
        ) by {
            assert(session_ok(ts, s.sessions[k]));
        }
    } else {
        assert(n.tenants == s.tenants && n.sessions == s.sessions);
    }
}

/// A new tenant hides none of the old ones.
proof fn lemma_push_finds(ts: Seq<TenantView>, t: TenantView, p: TenantId)
    requires
        store::find_tenant(ts, p) is Some,
    ensures
        store::find_tenant(ts.push(t), p) == store::find_tenant(ts, p),
{
    lemma_found(ts, p);
    let i = store::find_tenant(ts, p)->0;
    store::lemma_first_at(store::tenant_ids(ts), p, 0);
    let keys = store::tenant_ids(ts.push(t));
    assert forall|j: int| 0 <= j < i implies keys[j] != p by {
        assert(store::tenant_ids(ts)[j] != p);
    }
    store::lemma_is_first(keys, p, i);
}

/// Changing a tenant without touching its id leaves every tenant where it was.
proof fn lemma_update_finds(ts: Seq<TenantView>, i: int, t: TenantView, p: TenantId)
    requires
        0 <= i < ts.len(),
        t.id == ts[i].id,
    ensures
        store::find_tenant(ts.update(i, t), p) == store::find_tenant(ts, p),
{
    assert(store::tenant_ids(ts.update(i, t)) =~= store::tenant_ids(ts));
}

/// Replacing one tenant by one in order, with the same identity and no wider
/// users, keeps a store sound.
proof fn lemma_update_sound(s: StoreView, i: int, t: TenantView, next_user_id: u64)
    requires
        sound(s),
        0 <= i < s.tenants.len(),
        t.id == s.tenants[i].id,
        t.name == s.tenants[i].name,
        t.parent == s.tenants[i].parent,
        next_user_id >= s.next_user_id,
        tenant_ok(t, next_user_id),
        forall|k: int|
            0 <= k < s.sessions.len() && (#[trigger] s.sessions[k]).tenant == t.id ==> forall|j: int|
                0 <= j < t.users.len() && (#[trigger] t.users[j]).id == s.sessions[k].user
                    ==> t.users[j].caps.includes(s.sessions[k].caps),
    ensures
        sound(StoreView { next_user_id, tenants: s.tenants.update(i, t), ..s }),
{
    let n = StoreView { next_user_id, tenants: s.tenants.update(i, t), ..s };
    assert forall|a: int| 0 <= a < n.tenants.len() implies tenant_ok(
        #[trigger] n.tenants[a],
        n.next_user_id,
    ) && parent_ok(n.tenants, n.tenants[a]) by {
        assert(tenant_ok(s.tenants[a], s.next_user_id));
        assert(parent_ok(s.tenants, s.tenants[a]));
        if let Some(p) = n.tenants[a].parent {
            lemma_update_finds(s.tenants, i, t, p);
        }
    }
    assert forall|a: int, b: int| 0 <= a < b < n.tenants.len() implies (
    #[trigger] n.tenants[a]).name != (#[trigger] n.tenants[b]).name && n.tenants[a].id.0
        < n.tenants[b].id.0 by {
        assert(s.tenants[a].name != s.tenants[b].name);
        assert(s.tenants[a].id.0 < s.tenants[b].id.0);
    }
    assert forall|k: int| 0 <= k < n.sessions.len() implies session_ok(
        n.tenants,
        #[trigger] n.sessions[k],
    ) by {
        let x = s.sessions[k];
        assert(session_ok(s.tenants, x));
        assert forall|a: int, b: int|
            0 <= a < n.tenants.len() && 0 <= b < (#[trigger] n.tenants[a]).users.len()
                && n.tenants[a].id == x.tenant && (#[trigger] n.tenants[a].users[b]).id
                == x.user implies n.tenants[a].users[b].caps.includes(x.caps) by {
            if a != i {
                assert(n.tenants[a] == s.tenants[a]);
                assert(s.tenants[a].users[b].id == x.user);
            }
        }
    }
}

/// Deleting a tenant keeps a store sound, and the tenant is gone.
pub proof fn law_delete(s: StoreView, id: TenantId)
    requires
        sound(s),
    ensures
        sound(store::deleted(s, id).0),
        store::deleted(s, id).1 is Ok ==> store::find_tenant(
            store::deleted(s, id).0.tenants,
            id,
        ) is None,
        store::deleted(s, id).1 is Err ==> store::deleted(s, id).0 == s,
{
    let out = store::deleted(s, id);
    if out.1 is Ok {
        lemma_found(s.tenants, id);
        let i = store::find_tenant(s.tenants, id)->0;
        let n = out.0;
        assert forall|a: int| 0 <= a < n.tenants.len() implies tenant_ok(
            #[trigger] n.tenants[a],
            n.next_user_id,
        ) && n.tenants[a].id != id && parent_ok(n.tenants, n.tenants[a]) by {
            let o = if a < i {
                a
            } else {
                a + 1
            };
            assert(n.tenants[a] == s.tenants[o]);
            assert(tenant_ok(s.tenants[o], s.next_user_id));
            assert(parent_ok(s.tenants, s.tenants[o]));
            if o < i {
                assert(s.tenants[o].id.0 < s.tenants[i].id.0);
            } else {
                assert(s.tenants[i].id.0 < s.tenants[o].id.0);
            }
            if let Some(p) = s.tenants[o].parent {
                assert(p != id);
                lemma_found(s.tenants, p);
                let q = store::find_tenant(s.tenants, p)->0;
                let nq = if q < i {
                    q
                } else {
                    q - 1
                };
                assert(n.tenants[nq] == s.tenants[q]);
                lemma_exists(n.tenants, nq);
            }
        }
        lemma_found(n.tenants, id);
        assert forall|a: int, b: int| 0 <= a < b < n.tenants.len() implies (
        #[trigger] n.tenants[a]).name != (#[trigger] n.tenants[b]).name && n.tenants[a].id.0
            < n.tenants[b].id.0 by {
            let oa = if a < i {
                a
            } else {
                a + 1
            };
            let ob = if b < i {
                b
            } else {
                b + 1
            };
            assert(s.tenants[oa].name != s.tenants[ob].name);
            assert(s.tenants[oa].id.0 < s.tenants[ob].id.0);
        }
        assert forall|a: int| 0 <= a < n.tenants.len() implies (#[trigger] n.tenants[a]).id.0
            <= n.next_tenant_id by {
            let o = if a < i {
                a
            } else {
                a + 1
            };
            assert(n.tenants[a] == s.tenants[o]);
        }
        assert forall|k: int| 0 <= k < n.sessions.len() implies session_ok(
            n.tenants,
            #[trigger] n.sessions[k],
        ) by {
            let x = s.sessions[k];
            assert(session_ok(s.tenants, x));
            assert forall|a: int, b: int|
                0 <= a < n.tenants.len() && 0 <= b < (#[trigger] n.tenants[a]).users.len()
                    && n.tenants[a].id == x.tenant && (#[trigger] n.tenants[a].users[b]).id
                    == x.user implies n.tenants[a].users[b].caps.includes(x.caps) by {
                let o = if a < i {
                    a
                } else {
                    a + 1
                };
                assert(n.tenants[a] == s.tenants[o]);
                assert(s.tenants[o].users[b].id == x.user);
            }
        }
    }
}

/// Adding a user keeps a store sound, and the user holds no more than the
/// tenant's root set.
pub proof fn law_add_user(s: StoreView, tenant: TenantId, name: Seq<char>, requested: TenantCaps)
    requires
        sound(s),
    ensures
        sound(store::user_added(s, tenant, name, requested).0),
        store::user_added(s, tenant, name, requested).1 matches Ok(u) ==> {
            &&& u.id.0 > s.next_user_id
            &&& u.caps == requested
            &&& hierarchy::tenant_at(s.tenants, tenant).root_caps.includes(u.caps)
        },
        store::user_added(s, tenant, name, requested).1 is Err ==> store::user_added(
            s,
            tenant,
            name,
            requested,
        ).0 == s,
{
    let out = store::user_added(s, tenant, name, requested);
    if out.1 is Ok {
        lemma_found(s.tenants, tenant);
        let i = store::find_tenant(s.tenants, tenant)->0;
        let t = s.tenants[i];
        let u = out.1->Ok_0;
        let nt = TenantView { users: t.users.push(u), ..t };
        assert(tenant_ok(t, s.next_user_id));
        store::lemma_first_at(store::user_names(t.users), name, 0);
        assert forall|j: int, k: int| 0 <= j < k < nt.users.len() implies (
        #[trigger] nt.users[j]).name != (#[trigger] nt.users[k]).name && nt.users[j].id.0
            < nt.users[k].id.0 by {
            assert(nt.users[j] == t.users[j]);
            assert(store::user_names(t.users)[j] == t.users[j].name);
            if k < t.users.len() {
                assert(nt.users[k] == t.users[k]);
            }
        }
        assert forall|j: int| 0 <= j < nt.users.len() implies (#[trigger] nt.users[j]).id.0
            <= u.id.0 && nt.root_caps.includes(nt.users[j].caps) by {
            if j < t.users.len() {
                assert(nt.users[j] == t.users[j]);
            }
        }
        assert forall|k: int|
            0 <= k < s.sessions.len() && (#[trigger] s.sessions[k]).tenant == nt.id implies forall|
            j: int,
        |
            0 <= j < nt.users.len() && (#[trigger] nt.users[j]).id == s.sessions[k].user
                ==> nt.users[j].caps.includes(s.sessions[k].caps) by {
            assert(session_ok(s.tenants, s.sessions[k]));
            assert forall|j: int|
                0 <= j < nt.users.len() && (#[trigger] nt.users[j]).id
                    == s.sessions[k].user implies nt.users[j].caps.includes(
                s.sessions[k].caps,
            ) by {
                assert(j < t.users.len());
                assert(s.tenants[i].users[j] == nt.users[j]);
            }
        }
        lemma_update_sound(s, i, nt, u.id.0);
    }
}

/// The users that stay were there before, and the removed one is gone.
pub proof fn lemma_without_user_members(us: Seq<UserView>, id: UserId)
    ensures
        forall|k: int|
            0 <= k < store::without_user(us, id).len() ==> (#[trigger] store::without_user(
                us,
                id,
            )[k]).id != id && us.contains(store::without_user(us, id)[k]),
    decreases us.len(),
{
    if us.len() > 0 {
        let d = us.drop_last();
        let w = store::without_user(d, id);
        let v = store::without_user(us, id);
        lemma_without_user_members(d, id);
        assert forall|k: int| 0 <= k < v.len() implies (#[trigger] v[k]).id != id && us.contains(
            v[k],
        ) by {
            if k < w.len() {
                assert(v[k] == w[k]);
                let i = choose|i: int| 0 <= i < d.len() && d[i] == w[k];
                assert(us[i] == v[k]);
            } else {
                assert(us[us.len() - 1] == v[k]);
            }
        }
    }
}

/// Users that stay keep their order.
proof fn lemma_without_user_pair(us: Seq<UserView>, id: UserId, j: int, k: int)
    requires
        0 <= j < k < store::without_user(us, id).len(),
    ensures
        exists|a: int, b: int|
            #![trigger us[a], us[b]]
            0 <= a < b < us.len() && us[a] == store::without_user(us, id)[j] && us[b]
                == store::without_user(us, id)[k],
    decreases us.len(),
{
    let d = us.drop_last();
    let w = store::without_user(d, id);
    let v = store::without_user(us, id);
    if k < w.len() {
        lemma_without_user_pair(d, id, j, k);
        let (a, b) = choose|a: int, b: int|
            #![trigger d[a], d[b]]
            0 <= a < b < d.len() && d[a] == w[j] && d[b] == w[k];
        assert(us[a] == v[j] && us[b] == v[k]);
    } else {
        lemma_without_user_members(d, id);
        let a = choose|a: int| 0 <= a < d.len() && d[a] == w[j];
        assert(us[a] == v[j] && us[us.len() - 1] == v[k]);
    }
}

/// The users that stay keep increasing ids and different names.
proof fn lemma_without_user(us: Seq<UserView>, id: UserId)
    requires
        forall|j: int, k: int|
            0 <= j < k < us.len() ==> (#[trigger] us[j]).id.0 < (#[trigger] us[k]).id.0
                && us[j].name != us[k].name,
    ensures
        forall|j: int, k: int|
            0 <= j < k < store::without_user(us, id).len() ==> (#[trigger] store::without_user(
                us,
                id,
            )[j]).id.0 < (#[trigger] store::without_user(us, id)[k]).id.0 && store::without_user(
                us,
                id,
            )[j].name != store::without_user(us, id)[k].name,
{
    let v = store::without_user(us, id);
    assert forall|j: int, k: int| 0 <= j < k < v.len() implies (#[trigger] v[j]).id.0 < (
    #[trigger] v[k]).id.0 && v[j].name != v[k].name by {
        lemma_without_user_pair(us, id, j, k);
    }
}

/// Removing a user keeps a store sound, and neither the user nor a session of
/// the user is left.
pub proof fn law_remove_user(s: StoreView, tenant: TenantId, user: UserId)
    requires
        sound(s),
        store::find_tenant(s.tenants, tenant) is Some,
    ensures
        sound(store::user_removed(s, tenant, user).0),
        forall|j: int|
            0 <= j < hierarchy::tenant_at(
                store::user_removed(s, tenant, user).0.tenants,
                tenant,
            ).users.len() ==> (#[trigger] hierarchy::tenant_at(
                store::user_removed(s, tenant, user).0.tenants,
                tenant,
            ).users[j]).id != user,
        forall|k: int|
            0 <= k < store::user_removed(s, tenant, user).0.sessions.len() ==> {
                let x = #[trigger] store::user_removed(s, tenant, user).0.sessions[k];
                !(x.tenant == tenant && x.user == user)
            },
{
    lemma_found(s.tenants, tenant);
    let i = store::find_tenant(s.tenants, tenant)->0;
    let t = s.tenants[i];
    let nt = TenantView { users: store::without_user(t.users, user), ..t };
    assert(tenant_ok(t, s.next_user_id));
    lemma_without_user_members(t.users, user);
    lemma_without_user(t.users, user);
    assert forall|j: int| 0 <= j < nt.users.len() implies (#[trigger] nt.users[j]).id.0
        <= s.next_user_id && nt.root_caps.includes(nt.users[j].caps) by {
        let a = choose|a: int| 0 <= a < t.users.len() && t.users[a] == nt.users[j];
        assert(t.users[a].id.0 <= s.next_user_id);
    }
    assert forall|k: int|
        0 <= k < s.sessions.len() && (#[trigger] s.sessions[k]).tenant == nt.id implies forall|
        j: int,
    |
        0 <= j < nt.users.len() && (#[trigger] nt.users[j]).id == s.sessions[k].user
            ==> nt.users[j].caps.includes(s.sessions[k].caps) by {
        assert(session_ok(s.tenants, s.sessions[k]));
        assert forall|j: int|
            0 <= j < nt.users.len() && (#[trigger] nt.users[j]).id
                == s.sessions[k].user implies nt.users[j].caps.includes(s.sessions[k].caps) by {
            let a = choose|a: int| 0 <= a < t.users.len() && t.users[a] == nt.users[j];
            assert(s.tenants[i].users[a].id == s.sessions[k].user);
        }
    }
    lemma_update_sound(s, i, nt, s.next_user_id);
    let mid = StoreView { tenants: s.tenants.update(i, nt), ..s };
    law_revoking_keeps_sound(mid, SessionMatch::OfUser(tenant, user));
    lemma_kept(s.sessions, SessionMatch::OfUser(tenant, user));
    lemma_update_finds(s.tenants, i, nt, tenant);
}

/// Setting a password keeps a store sound, and none of the user's sessions is
/// left.
pub proof fn law_set_password(s: StoreView, tenant: TenantId, user: UserId, phc: Seq<char>)
    requires
        sound(s),
    ensures
        sound(session::password_stored(s, tenant, user, phc).0),
        session::password_stored(s, tenant, user, phc).1 is Ok ==> forall|k: int|
            0 <= k < session::password_stored(s, tenant, user, phc).0.sessions.len() ==> {
                let x = #[trigger] session::password_stored(s, tenant, user, phc).0.sessions[k];
                !(x.tenant == tenant && x.user == user)
            },
        session::password_stored(s, tenant, user, phc).1 is Err ==> session::password_stored(
            s,
            tenant,
            user,
            phc,
        ).0 == s,
{
    let out = session::password_stored(s, tenant, user, phc);
    if out.1 is Ok {
        lemma_found(s.tenants, tenant);
        let i = store::find_tenant(s.tenants, tenant)->0;
        let t = s.tenants[i];
        store::lemma_first_at(store::user_ids(t.users), user, 0);
        let j0 = store::find_user(t.users, user)->0;
        let nu = UserView { password_hash: Some(phc), ..t.users[j0] };
        let nt = TenantView { users: t.users.update(j0, nu), ..t };
        assert(tenant_ok(t, s.next_user_id));
        lemma_same_users(s, i, nt);
        lemma_update_sound(s, i, nt, s.next_user_id);
        let mid = StoreView { tenants: s.tenants.update(i, nt), ..s };
        law_revoking_keeps_sound(mid, SessionMatch::OfUser(tenant, user));
        lemma_kept(s.sessions, SessionMatch::OfUser(tenant, user));
    }
}

/// Users that keep their ids and lose no less than they had fit every session
/// that fitted before.
proof fn lemma_same_users(s: StoreView, i: int, nt: TenantView)
    requires
        sound(s),
        0 <= i < s.tenants.len(),
        nt.id == s.tenants[i].id,
        nt.users.len() == s.tenants[i].users.len(),
        nt.root_caps == s.tenants[i].root_caps,
        nt.name == s.tenants[i].name,
        nt.namespace == s.tenants[i].namespace,
        quota::under(nt.usage, nt.quotas),
        forall|j: int|
            0 <= j < nt.users.len() ==> (#[trigger] nt.users[j]).id == s.tenants[i].users[j].id
                && nt.users[j].caps == s.tenants[i].users[j].caps && nt.users[j].name
                == s.tenants[i].users[j].name,
    ensures
        tenant_ok(nt, s.next_user_id),
        forall|k: int|
            0 <= k < s.sessions.len() && (#[trigger] s.sessions[k]).tenant == nt.id ==> forall|j: int|
                0 <= j < nt.users.len() && (#[trigger] nt.users[j]).id == s.sessions[k].user
                    ==> nt.users[j].caps.includes(s.sessions[k].caps),
{
    let t = s.tenants[i];
    assert(tenant_ok(t, s.next_user_id));
    assert forall|j: int, k: int| 0 <= j < k < nt.users.len() implies (
    #[trigger] nt.users[j]).name != (#[trigger] nt.users[k]).name && nt.users[j].id.0
        < nt.users[k].id.0 by {
        assert(t.users[j].id.0 < t.users[k].id.0 && t.users[j].name != t.users[k].name);
    }
    assert forall|j: int| 0 <= j < nt.users.len() implies (#[trigger] nt.users[j]).id.0
        <= s.next_user_id && nt.root_caps.includes(nt.users[j].caps) by {
        assert(t.users[j].id.0 <= s.next_user_id);
    }
    assert forall|k: int|
        0 <= k < s.sessions.len() && (#[trigger] s.sessions[k]).tenant == nt.id implies forall|
        j: int,
    |
        0 <= j < nt.users.len() && (#[trigger] nt.users[j]).id == s.sessions[k].user
            ==> nt.users[j].caps.includes(s.sessions[k].caps) by {
        assert(session_ok(s.tenants, s.sessions[k]));
        assert forall|j: int|
            0 <= j < nt.users.len() && (#[trigger] nt.users[j]).id
                == s.sessions[k].user implies nt.users[j].caps.includes(s.sessions[k].caps) by {
            assert(s.tenants[i].users[j].id == s.sessions[k].user);
        }
    }
}

/// Rotating a tenant's root set keeps a store sound, users never gain
/// anything, and no session of the tenant is left.
pub proof fn law_rotate(s: StoreView, tenant: TenantId, new_caps: TenantCaps)
    requires
        sound(s),
    ensures
        sound(session::caps_rotated(s, tenant, new_caps).0),
        session::caps_rotated(s, tenant, new_caps).1 is Ok ==> {
            let before = hierarchy::tenant_at(s.tenants, tenant);
            let after = hierarchy::tenant_at(
                session::caps_rotated(s, tenant, new_caps).0.tenants,
                tenant,
            );
            &&& after.root_caps == new_caps
            &&& after.users.len() == before.users.len()
            &&& forall|j: int|
                0 <= j < after.users.len() ==> before.users[j].caps.includes(
                    (#[trigger] after.users[j]).caps,
                ) && new_caps.includes(after.users[j].caps)
            &&& forall|k: int|
                0 <= k < session::caps_rotated(s, tenant, new_caps).0.sessions.len() ==> (
                #[trigger] session::caps_rotated(s, tenant, new_caps).0.sessions[k]).tenant
                    != tenant
            &&& before.parent matches Some(p) ==> hierarchy::tenant_at(
                s.tenants,
                p,
            ).root_caps.includes(new_caps)
        },
        session::caps_rotated(s, tenant, new_caps).1 is Err ==> session::caps_rotated(
            s,
            tenant,
            new_caps,
        ).0 == s,
{
    let out = session::caps_rotated(s, tenant, new_caps);
    if out.1 is Ok {
        lemma_found(s.tenants, tenant);
        let i = store::find_tenant(s.tenants, tenant)->0;
        let t = s.tenants[i];
        let nt = TenantView {
            root_caps: new_caps,
            users: session::narrowed_users(t.users, new_caps),
            ..t
        };
        assert(tenant_ok(t, s.next_user_id));
        assert forall|j: int| 0 <= j < nt.users.len() implies (#[trigger] nt.users[j]).id.0
            <= s.next_user_id && new_caps.includes(nt.users[j].caps) && t.users[j].caps.includes(
            nt.users[j].caps,
        ) by {
            let (a, b) = (t.users[j].caps.0, new_caps.0);
            assert(b & ((a & b) & 0x1fff) == ((a & b) & 0x1fff) && a & ((a & b) & 0x1fff) == ((a
                & b) & 0x1fff)) by (bit_vector);
            assert(t.users[j].id.0 <= s.next_user_id);
        }
        assert forall|j: int, k: int| 0 <= j < k < nt.users.len() implies (
        #[trigger] nt.users[j]).name != (#[trigger] nt.users[k]).name && nt.users[j].id.0
            < nt.users[k].id.0 by {
            assert(t.users[j].id.0 < t.users[k].id.0 && t.users[j].name != t.users[k].name);
        }
        let m = SessionMatch::OfTenant(tenant);
        law_revoking_keeps_sound(s, m);
        lemma_kept(s.sessions, m);
        let mid = StoreView { sessions: store::kept(s.sessions, m), ..s };
        lemma_update_sound(mid, i, nt, s.next_user_id);
        lemma_update_finds(s.tenants, i, nt, tenant);
    }
}

/// A charge keeps a store sound, and one that is refused changes nothing.
pub proof fn law_charge(s: StoreView, tenant: TenantId, charge: QuotaCharge)
    requires
        sound(s),
    ensures
        sound(hierarchy::store_charged(s, tenant, charge).0),
        hierarchy::store_charged(s, tenant, charge).1 is Err ==> hierarchy::store_charged(
            s,
            tenant,
            charge,
        ).0 == s,
{
    let out = hierarchy::store_charged(s, tenant, charge);
    if out.1 is Ok {
        let chain = hierarchy::chain_of(s.tenants, Some(tenant), 0)->Ok_0;
        let f = |u: QuotaUsage| quota::added(u, charge);
        assert forall|k: int| 0 <= k < chain.len() implies quota::charged(
            s.tenants[#[trigger] chain[k]].usage,
            s.tenants[chain[k]].quotas,
            charge,
        ) is Ok by {
            lemma_no_refusal(s.tenants, chain, charge, 0, k);
        }
        assert forall|i: int| 0 <= i < s.tenants.len() && chain.contains(i) implies quota::under(
            f(s.tenants[i].usage),
            s.tenants[i].quotas,
        ) by {
            let k = choose|k: int| 0 <= k < chain.len() && chain[k] == i;
            quota::law_charge_stays_under(s.tenants[i].usage, s.tenants[i].quotas, charge);
        }
        lemma_usage_sound(s, chain, f);
    }
}

/// Where nothing is refused, every tenant of the chain accepts.
pub proof fn lemma_no_refusal(
    ts: Seq<TenantView>,
    chain: Seq<int>,
    charge: QuotaCharge,
    a: int,
    k: int,
)
    requires
        0 <= a <= k < chain.len(),
        hierarchy::first_refusal(ts, chain, charge, a) is None,
    ensures
        quota::charged(ts[chain[k]].usage, ts[chain[k]].quotas, charge) is Ok,
    decreases k - a,
{
    if a < k {
        lemma_no_refusal(ts, chain, charge, a + 1, k);
    }
}

/// Changing usages, under the ceilings, keeps a store sound.
proof fn lemma_usage_sound(s: StoreView, chain: Seq<int>, f: spec_fn(QuotaUsage) -> QuotaUsage)
    requires
        sound(s),
        forall|i: int|
            0 <= i < s.tenants.len() && #[trigger] chain.contains(i) ==> quota::under(
                f(s.tenants[i].usage),
                s.tenants[i].quotas,
            ),
    ensures
        sound(StoreView { tenants: hierarchy::with_usage(s.tenants, chain, f), ..s }),
{
    let n = StoreView { tenants: hierarchy::with_usage(s.tenants, chain, f), ..s };
    assert(store::tenant_ids(n.tenants) =~= store::tenant_ids(s.tenants));
    assert forall|a: int| 0 <= a < n.tenants.len() implies tenant_ok(
        #[trigger] n.tenants[a],
        n.next_user_id,
    ) && parent_ok(n.tenants, n.tenants[a]) && n.tenants[a].id.0 <= n.next_tenant_id by {
        assert(tenant_ok(s.tenants[a], s.next_user_id));
        assert(parent_ok(s.tenants, s.tenants[a]));
    }
    assert forall|a: int, b: int| 0 <= a < b < n.tenants.len() implies (
    #[trigger] n.tenants[a]).name != (#[trigger] n.tenants[b]).name && n.tenants[a].id.0
        < n.tenants[b].id.0 by {
        assert(s.tenants[a].name != s.tenants[b].name && s.tenants[a].id.0 < s.tenants[b].id.0);
    }
    assert forall|k: int| 0 <= k < n.sessions.len() implies session_ok(
        n.tenants,
        #[trigger] n.sessions[k],
    ) by {
        let x = s.sessions[k];
        assert(session_ok(s.tenants, x));
        assert forall|a: int, b: int|
            0 <= a < n.tenants.len() && 0 <= b < (#[trigger] n.tenants[a]).users.len()
                && n.tenants[a].id == x.tenant && (#[trigger] n.tenants[a].users[b]).id
                == x.user implies n.tenants[a].users[b].caps.includes(x.caps) by {
            assert(s.tenants[a].users[b].id == x.user);
        }
    }
}

/// Giving an allocation back keeps a store sound.
pub proof fn law_release(s: StoreView, tenant: TenantId, charge: QuotaCharge)
    requires
        sound(s),
    ensures
        sound(hierarchy::store_released(s, tenant, charge).0),
{
    let out = hierarchy::store_released(s, tenant, charge);
    if out.1 is Ok {
        let chain = hierarchy::chain_of(s.tenants, Some(tenant), 0)->Ok_0;
        let f = |u: QuotaUsage| quota::removed(u, charge);
        assert forall|i: int| 0 <= i < s.tenants.len() && chain.contains(i) implies quota::under(
            f(s.tenants[i].usage),
            s.tenants[i].quotas,
        ) by {
            assert(tenant_ok(s.tenants[i], s.next_user_id));
            quota::law_release_lowers(s.tenants[i].usage, s.tenants[i].quotas, charge);
        }
        lemma_usage_sound(s, chain, f);
    }
}

/// The chain of a tenant does not depend on usages.
proof fn lemma_chain_same(a: Seq<TenantView>, b: Seq<TenantView>, cur: Option<TenantId>, d: nat)
    requires
        a.len() == b.len(),
        forall|i: int|
            0 <= i < a.len() ==> (#[trigger] a[i]).id == b[i].id && a[i].parent == b[i].parent,
    ensures
        hierarchy::chain_of(a, cur, d) == hierarchy::chain_of(b, cur, d),
    decreases MAX_DEPTH + 1 - d,
{
    if let Some(id) = cur {
        assert(store::tenant_ids(a) =~= store::tenant_ids(b));
        if d <= MAX_DEPTH {
            lemma_found(a, id);
            if let Some(i) = store::find_tenant(a, id) {
                lemma_chain_same(a, b, a[i].parent, d + 1);
            }
        }
    }
}

/// Giving back what was charged restores the store, as long as no counter of
/// the chain reached the end of its type.
pub proof fn law_release_undoes_charge(s: StoreView, tenant: TenantId, charge: QuotaCharge)
    requires
        hierarchy::store_charged(s, tenant, charge).1 is Ok,
        forall|i: int|
            0 <= i < s.tenants.len() && hierarchy::chain_of(
                s.tenants,
                Some(tenant),
                0,
            )->Ok_0.contains(i) ==> quota::no_overflow((#[trigger] s.tenants[i]).usage, charge),
    ensures
        hierarchy::store_released(
            hierarchy::store_charged(s, tenant, charge).0,
            tenant,
            charge,
        ).0 == s,
{
    let n = hierarchy::store_charged(s, tenant, charge).0;
    let chain = hierarchy::chain_of(s.tenants, Some(tenant), 0)->Ok_0;
    lemma_chain_same(s.tenants, n.tenants, Some(tenant), 0);
    let back = hierarchy::store_released(n, tenant, charge).0;
    assert forall|i: int| 0 <= i < s.tenants.len() implies #[trigger] back.tenants[i]
        == s.tenants[i] by {
        if chain.contains(i) {
            assert(quota::no_overflow(s.tenants[i].usage, charge));
            quota::law_release_undoes_charge(s.tenants[i].usage, charge);
        }
    }
    assert(back.tenants =~= s.tenants);
}

/// A charge reaches the tenant and every ancestor, and nobody else.
pub proof fn law_charge_propagates(s: StoreView, tenant: TenantId, charge: QuotaCharge, i: int)
    requires
        hierarchy::store_charged(s, tenant, charge).1 is Ok,
        0 <= i < s.tenants.len(),
    ensures
        hierarchy::store_charged(s, tenant, charge).0.tenants[i].usage == (
        if hierarchy::chain_of(s.tenants, Some(tenant), 0)->Ok_0.contains(i) {
            quota::added(s.tenants[i].usage, charge)
        } else {
            s.tenants[i].usage
        }),
{
}

/// A new session keeps a store sound, holds no more than its user, and its
/// token is good until the session ends.
pub proof fn law_create_session(
    s: StoreView,
    tenant: TenantId,
    user: UserId,
    requested: TenantCaps,
    ttl_secs: Option<u64>,
    hash: TokenHash,
    now: u64,
    later: u64,
)
    requires
        sound(s),
    ensures
        sound(session::session_created(s, tenant, user, requested, ttl_secs, hash, now).0),
        session::session_created(s, tenant, user, requested, ttl_secs, hash, now).1 matches Ok(x)
            ==> {
            let n = session::session_created(s, tenant, user, requested, ttl_secs, hash, now).0;
            &&& session::live_session(n.sessions, hash@, later) == (if later < x.expires_ms {
                Some(x)
            } else {
                None
            })
            &&& requested.includes(x.caps)
        },
{
    let out = session::session_created(s, tenant, user, requested, ttl_secs, hash, now);
    if out.1 is Ok {
        let n = out.0;
        let x = out.1->Ok_0;
        lemma_found(s.tenants, tenant);
        let i0 = store::find_tenant(s.tenants, tenant)->0;
        let t = s.tenants[i0];
        assert(tenant_ok(t, s.next_user_id));
        store::lemma_first_at(store::user_ids(t.users), user, 0);
        let j0 = store::find_user(t.users, user)->0;
        let u = t.users[j0];
        let (a, b) = (u.caps.0, requested.0);
        assert(a & ((a & b) & 0x1fff) == ((a & b) & 0x1fff) && b & ((a & b) & 0x1fff) == ((a & b)
            & 0x1fff)) by (bit_vector);
        let m = SessionMatch::WithHash(hash);
        law_revoking_keeps_sound(s, m);
        lemma_kept(s.sessions, m);
        let old = store::kept(s.sessions, m);
        assert forall|k: int| 0 <= k < n.sessions.len() implies session_ok(
            n.tenants,
            #[trigger] n.sessions[k],
        ) && n.sessions[k].user.0 <= n.next_user_id && n.sessions[k].tenant.0
            <= n.next_tenant_id by {
            if k < old.len() {
                assert(n.sessions[k] == old[k]);
            } else {
                assert forall|p: int, q: int|
                    0 <= p < n.tenants.len() && 0 <= q < (#[trigger] n.tenants[p]).users.len()
                        && n.tenants[p].id == x.tenant && (#[trigger] n.tenants[p].users[q]).id
                        == x.user implies n.tenants[p].users[q].caps.includes(x.caps) by {
                    if p < i0 {
                        assert(s.tenants[p].id.0 < s.tenants[i0].id.0);
                    } else if p > i0 {
                        assert(s.tenants[i0].id.0 < s.tenants[p].id.0);
                    }
                    if q < j0 {
                        assert(t.users[q].id.0 < t.users[j0].id.0);
                    } else if q > j0 {
                        assert(t.users[j0].id.0 < t.users[q].id.0);
                    }
                }
                assert(t.users[j0].id.0 <= s.next_user_id);
                assert(s.tenants[i0].id.0 <= s.next_tenant_id);
            }
        }
        assert forall|j: int, k: int| 0 <= j < k < n.sessions.len() implies (
        #[trigger] n.sessions[j]).token_hash != (#[trigger] n.sessions[k]).token_hash by {
            assert(n.sessions[j] == old[j]);
            if k < old.len() {
                assert(n.sessions[k] == old[k]);
            } else {
                assert(!m.selects(old[j]));
            }
        }
        let keys = session::session_hashes(n.sessions);
        assert forall|j: int| 0 <= j < old.len() implies keys[j] != hash@ by {
            assert(n.sessions[j] == old[j]);
            assert(!m.selects(old[j]));
        }
        store::lemma_is_first(keys, hash@, old.len() as int);
    }
}

/// Once its session was revoked, a token is good at no moment.
pub proof fn law_revoked_token_is_dead(s: StoreView, hash: TokenHash, now: u64)
    ensures
        session::live_session(
            store::kept(s.sessions, SessionMatch::WithHash(hash)),
            hash@,
            now,
        ) is None,
{
    let m = SessionMatch::WithHash(hash);
    let v = store::kept(s.sessions, m);
    lemma_kept(s.sessions, m);
    store::lemma_first_at(session::session_hashes(v), hash@, 0);
    if let Some(i) = store::first_at(session::session_hashes(v), hash@, 0) {
        assert(!m.selects(v[i]));
    }
}

/// Ending sessions a second time ends none.
pub proof fn law_revoking_is_idempotent(ss: Seq<SessionView>, m: SessionMatch)
    ensures
        store::kept(store::kept(ss, m), m) == store::kept(ss, m),
{
    lemma_kept(ss, m);
    lemma_kept(store::kept(ss, m), m);
}

/// Whether a user of some tenant has a stored hash that accepts a password.
pub open spec fn may_log_in(u: UserView, user_name: Seq<char>, password: Seq<char>) -> bool {
    u.name == user_name && (u.password_hash matches Some(phc) && auth::accepts(
        password,
        phc,
    ))
}

/// A login succeeds exactly for a user of that tenant whose stored hash accepts
/// the password, and gives no more than the tenant's root set. So a user who
/// was never given a password cannot log in.
pub proof fn law_authenticate(
    s: StoreView,
    tenant_name: Seq<char>,
    user_name: Seq<char>,
    password: Seq<char>,
)
    requires
        sound(s),
    ensures
        match session::authenticated(s, tenant_name, user_name, password) {
            Some(who) => {
                let t = hierarchy::tenant_at(s.tenants, who.0);
                &&& store::find_tenant(s.tenants, who.0) is Some
                &&& t.name == tenant_name
                &&& t.root_caps.includes(who.2)
                &&& exists|j: int|
                    0 <= j < t.users.len() && may_log_in(
                        #[trigger] t.users[j],
                        user_name,
                        password,
                    ) && t.users[j].id == who.1 && t.users[j].caps == who.2
            },
            None => forall|i: int, j: int|
                0 <= i < s.tenants.len() && (#[trigger] s.tenants[i]).name == tenant_name && 0 <= j
                    < s.tenants[i].users.len() ==> !may_log_in(
                    #[trigger] s.tenants[i].users[j],
                    user_name,
                    password,
                ),
        },
{
    store::lemma_first_at(store::tenant_names(s.tenants), tenant_name, 0);
    match store::find_name(s.tenants, tenant_name) {
        None => {
            assert forall|i: int| 0 <= i < s.tenants.len() implies (#[trigger] s.tenants[i]).name
                != tenant_name by {
                assert(store::tenant_names(s.tenants)[i] == s.tenants[i].name);
            }
        },
        Some(i) => {
            let t = s.tenants[i];
            lemma_find(s.tenants, i);
            assert(tenant_ok(t, s.next_user_id));
            assert(store::tenant_names(s.tenants)[i] == tenant_name);
            store::lemma_first_at(store::user_names(t.users), user_name, 0);
            match store::find_user_name(t.users, user_name) {
                None => {
                    assert forall|j: int| 0 <= j < t.users.len() implies (
                    #[trigger] t.users[j]).name != user_name by {
                        assert(store::user_names(t.users)[j] == t.users[j].name);
                    }
                },
                Some(j) => {
                    assert(store::user_names(t.users)[j] == user_name);
                    assert(t.root_caps.includes(t.users[j].caps));
                    assert forall|k: int|
                        0 <= k < t.users.len() && (#[trigger] t.users[k]).name
                            == user_name implies k == j by {
                        if k < j {
                            assert(t.users[k].name != t.users[j].name);
                        }
                        if j < k {
                            assert(t.users[j].name != t.users[k].name);
                        }
                    }
                },
            }
            assert forall|k: int|
                0 <= k < s.tenants.len() && (#[trigger] s.tenants[k]).name
                    == tenant_name implies k == i by {
                if k < i {
                    assert(s.tenants[k].name != s.tenants[i].name);
                }
                if i < k {
                    assert(s.tenants[i].name != s.tenants[k].name);
                }
            }
        },
    }
}

/// Whoever was given a password logs in with it.
pub proof fn law_password_logs_in(
    s: StoreView,
    tenant: TenantId,
    user: UserId,
    phc: Seq<char>,
    plain: Seq<char>,
)
    requires
        sound(s),
        session::password_stored(s, tenant, user, phc).1 is Ok,
        auth::accepts(plain, phc),
    ensures
        ({
            let t = hierarchy::tenant_at(s.tenants, tenant);
            let u = t.users[store::find_user(t.users, user)->0];
            session::authenticated(
                session::password_stored(s, tenant, user, phc).0,
                t.name,
                u.name,
                plain,
            ) == Some((tenant, user, u.caps))
        }),
{
    lemma_found(s.tenants, tenant);
    let i = store::find_tenant(s.tenants, tenant)->0;
    let t = s.tenants[i];
    assert(tenant_ok(t, s.next_user_id));
    store::lemma_first_at(store::user_ids(t.users), user, 0);
    let j = store::find_user(t.users, user)->0;
    assert(store::user_ids(t.users)[j] == user);
    let n = session::password_stored(s, tenant, user, phc).0;
    let nt = n.tenants[i];
    assert forall|k: int| 0 <= k < i implies store::tenant_names(n.tenants)[k] != t.name by {
        assert(n.tenants[k] == s.tenants[k]);
        assert(s.tenants[k].name != s.tenants[i].name);
    }
    store::lemma_is_first(store::tenant_names(n.tenants), t.name, i);
    assert forall|k: int| 0 <= k < j implies store::user_names(nt.users)[k]
        != t.users[j].name by {
        assert(nt.users[k] == t.users[k]);
        assert(t.users[k].name != t.users[j].name);
    }
    store::lemma_is_first(store::user_names(nt.users), t.users[j].name, j);
}

/// Whether climbing from `x` reaches `root`, by ids that grow smaller.
pub open spec fn below(ts: Seq<TenantView>, x: TenantId, root: TenantId) -> bool
    decreases x.0,
{
    x == root || match store::find_tenant(ts, x) {
        None => false,
        Some(i) => match ts[i].parent {
            None => false,
            Some(p) => p.0 < x.0 && below(ts, p, root),
        },
    }
}

/// Whoever is below a tenant is no older.
proof fn lemma_below_ge(ts: Seq<TenantView>, x: TenantId, root: TenantId)
    requires
        below(ts, x, root),
    ensures
        x.0 >= root.0,
        x != root ==> x.0 > root.0,
    decreases x.0,
{
    if x != root {
        let p = ts[store::find_tenant(ts, x)->0].parent->0;
        lemma_below_ge(ts, p, root);
    }
}

/// Nobody is below two different siblings.
proof fn lemma_siblings_apart(
    ts: Seq<TenantView>,
    x: TenantId,
    a: TenantId,
    b: TenantId,
    root: TenantId,
)
    requires
        below(ts, x, a),
        a != b,
        store::find_tenant(ts, a) is Some,
        store::find_tenant(ts, b) is Some,
        hierarchy::tenant_at(ts, a).parent == Some(root),
        hierarchy::tenant_at(ts, b).parent == Some(root),
        root.0 < a.0,
        root.0 < b.0,
    ensures
        !below(ts, x, b),
    decreases x.0,
{
    if below(ts, x, b) {
        if x == a {
            lemma_below_ge(ts, root, b);
        } else if x == b {
            lemma_below_ge(ts, root, a);
        } else {
            let p = ts[store::find_tenant(ts, x)->0].parent->0;
            lemma_siblings_apart(ts, p, a, b, root);
        }
    }
}

/// Parents are older tenants that exist, and ids increase.
pub open spec fn forest(ts: Seq<TenantView>) -> bool {
    &&& forall|i: int, j: int|
        0 <= i < j < ts.len() ==> (#[trigger] ts[i]).id.0 < (#[trigger] ts[j]).id.0
    &&& forall|i: int| 0 <= i < ts.len() ==> parent_ok(ts, #[trigger] ts[i])
}

/// A list of ids holds exactly those below `root`, each once, each before its
/// parent.
pub open spec fn exact_subtree(ts: Seq<TenantView>, w: Seq<TenantId>, root: TenantId) -> bool {
    &&& forall|k: int| 0 <= k < w.len() ==> below(ts, #[trigger] w[k], root)
    &&& forall|i: int| 0 <= i < ts.len() && below(ts, (#[trigger] ts[i]).id, root) ==> w.contains(ts[i].id)
    &&& w.no_duplicates()
    &&& children_first(ts, w)
}

/// The walk over a subtree lists it exactly.
pub proof fn law_subtree_exact(ts: Seq<TenantView>, root: TenantId, depth: nat)
    requires
        forest(ts),
        store::find_tenant(ts, root) is Some,
        hierarchy::subtree_of(ts, root, depth) is Ok,
    ensures
        exact_subtree(ts, hierarchy::subtree_of(ts, root, depth)->Ok_0, root),
    decreases MAX_DEPTH + 1 - depth, ts.len() + 1,
{
    lemma_subtrees_exact(ts, root, 0, depth);
    let below_root = hierarchy::subtrees_from(ts, root, 0, depth)->Ok_0;
    let w = hierarchy::subtree_of(ts, root, depth)->Ok_0;
    assert(w == below_root.push(root));
    assert forall|k: int| 0 <= k < w.len() implies below(ts, #[trigger] w[k], root) by {
        if k < below_root.len() {
            assert(w[k] == below_root[k]);
            assert(below_child_from(ts, below_root[k], root, 0));
            let i = choose|i: int|
                #![trigger ts[i]]
                0 <= i < ts.len() && ts[i].parent == Some(root) && below(
                    ts,
                    below_root[k],
                    ts[i].id,
                );
            lemma_below_child(ts, w[k], i, root);
        }
    }
    assert forall|i: int| 0 <= i < ts.len() && below(ts, (#[trigger] ts[i]).id, root) implies w.contains(
        ts[i].id,
    ) by {
        if ts[i].id == root {
            assert(w[w.len() - 1] == ts[i].id);
        } else {
            lemma_below_via(ts, ts[i].id, root);
            let c = choose|c: int|
                #![trigger ts[c]]
                0 <= c < ts.len() && ts[c].parent == Some(root) && below(
                    ts,
                    ts[i].id,
                    ts[c].id,
                );
            assert(below_child_from(ts, ts[i].id, root, 0));
            assert(below_root.contains(ts[i].id));
            let k = choose|k: int| 0 <= k < below_root.len() && below_root[k] == ts[i].id;
            assert(w[k] == ts[i].id);
        }
    }
    assert forall|k: int| 0 <= k < below_root.len() implies #[trigger] below_root[k] != root by {
        assert(below_child_from(ts, below_root[k], root, 0));
        let i = choose|i: int|
            #![trigger ts[i]]
            0 <= i < ts.len() && ts[i].parent == Some(root) && below(
                ts,
                below_root[k],
                ts[i].id,
            );
        lemma_below_ge(ts, below_root[k], ts[i].id);
        assert(parent_ok(ts, ts[i]));
    }
    assert(w.no_duplicates());
    assert forall|k: int, l: int|
        0 <= k < w.len() && 0 <= l < w.len() && hierarchy::tenant_at(ts, #[trigger] w[k]).parent
            == Some(#[trigger] w[l]) implies k < l by {
        if k == w.len() - 1 {
            lemma_found(ts, root);
            assert(parent_ok(ts, hierarchy::tenant_at(ts, root)));
            if l < below_root.len() {
                assert(below_child_from(ts, below_root[l], root, 0));
                let i = choose|i: int|
                    #![trigger ts[i]]
                    0 <= i < ts.len() && ts[i].parent == Some(root) && below(
                        ts,
                        below_root[l],
                        ts[i].id,
                    );
                lemma_below_ge(ts, below_root[l], ts[i].id);
                assert(parent_ok(ts, ts[i]));
                assert(w[l] == below_root[l]);
            }
        } else if l < w.len() - 1 {
            assert(w[k] == below_root[k] && w[l] == below_root[l]);
        }
    }
}

/// Whoever is below a child is below the parent.
proof fn lemma_below_child(ts: Seq<TenantView>, x: TenantId, i: int, root: TenantId)
    requires
        forest(ts),
        0 <= i < ts.len(),
        ts[i].parent == Some(root),
        below(ts, x, ts[i].id),
    ensures
        below(ts, x, root),
        x != root,
    decreases x.0,
{
    lemma_find(ts, i);
    assert(parent_ok(ts, ts[i]));
    lemma_below_ge(ts, x, ts[i].id);
    if x == ts[i].id {
        assert(below(ts, root, root));
    } else {
        let p = ts[store::find_tenant(ts, x)->0].parent->0;
        lemma_below_child(ts, p, i, root);
    }
}

/// Whoever is below a tenant, other than the tenant, is below one of its
/// children.
proof fn lemma_below_via(ts: Seq<TenantView>, x: TenantId, root: TenantId)
    requires
        forest(ts),
        below(ts, x, root),
        x != root,
    ensures
        exists|c: int|
            #![trigger ts[c]]
            0 <= c < ts.len() && ts[c].parent == Some(root) && below(ts, x, ts[c].id),
    decreases x.0,
{
    lemma_found(ts, x);
    let i = store::find_tenant(ts, x)->0;
    let p = ts[i].parent->0;
    if p == root {
        assert(below(ts, x, ts[i].id));
    } else {
        lemma_below_via(ts, p, root);
        let c = choose|c: int|
            #![trigger ts[c]]
            0 <= c < ts.len() && ts[c].parent == Some(root) && below(ts, p, ts[c].id);
        assert(below(ts, x, ts[c].id));
    }
}

/// Whether `x` is below a child of `root` that stands at position `i` or later.
pub open spec fn below_child_from(ts: Seq<TenantView>, x: TenantId, root: TenantId, i: int) -> bool {
    exists|c: int|
        #![trigger ts[c]]
        i <= c < ts.len() && ts[c].parent == Some(root) && below(ts, x, ts[c].id)
}

/// Each entry of a list stands before its parent.
pub open spec fn children_first(ts: Seq<TenantView>, w: Seq<TenantId>) -> bool {
    forall|k: int, l: int|
        0 <= k < w.len() && 0 <= l < w.len() && hierarchy::tenant_at(ts, #[trigger] w[k]).parent
            == Some(#[trigger] w[l]) ==> k < l
}

/// A list of ids holds exactly those below the children of `root` from
/// position `i` on, each once, each before its parent.
pub open spec fn exact_subtrees(
    ts: Seq<TenantView>,
    w: Seq<TenantId>,
    root: TenantId,
    i: int,
) -> bool {
    &&& forall|k: int| 0 <= k < w.len() ==> below_child_from(ts, #[trigger] w[k], root, i)
    &&& forall|x: int|
        0 <= x < ts.len() && below_child_from(ts, (#[trigger] ts[x]).id, root, i) ==> w.contains(
            ts[x].id,
        )
    &&& w.no_duplicates()
    &&& children_first(ts, w)
}

/// The part of a walk over the children from position `i` on.
proof fn lemma_subtrees_exact(ts: Seq<TenantView>, root: TenantId, i: int, depth: nat)
    requires
        forest(ts),
        0 <= i,
        depth <= MAX_DEPTH,
        hierarchy::subtrees_from(ts, root, i, depth) is Ok,
    ensures
        exact_subtrees(ts, hierarchy::subtrees_from(ts, root, i, depth)->Ok_0, root, i),
    decreases MAX_DEPTH + 1 - depth, ts.len() - i,
{
    let w = hierarchy::subtrees_from(ts, root, i, depth)->Ok_0;
    if i < ts.len() {
        lemma_subtrees_exact(ts, root, i + 1, depth);
        let rest = hierarchy::subtrees_from(ts, root, i + 1, depth)->Ok_0;
        if ts[i].parent == Some(root) {
            lemma_find(ts, i);
            law_subtree_exact(ts, ts[i].id, depth + 1);
            let first = hierarchy::subtree_of(ts, ts[i].id, depth + 1)->Ok_0;
            assert(w == first + rest);
            lemma_join_members(ts, root, i, first, rest);
            lemma_join_order(ts, root, i, first, rest);
        } else {
            assert(w == rest);
            assert forall|k: int| 0 <= k < w.len() implies below_child_from(
                ts,
                #[trigger] w[k],
                root,
                i,
            ) by {
                assert(below_child_from(ts, rest[k], root, i + 1));
            }
            assert forall|x: int|
                0 <= x < ts.len() && below_child_from(ts, (#[trigger] ts[x]).id, root, i) implies w.contains(
                ts[x].id,
            ) by {
                let c = choose|c: int|
                    #![trigger ts[c]]
                    i <= c < ts.len() && ts[c].parent == Some(root) && below(
                        ts,
                        ts[x].id,
                        ts[c].id,
                    );
                assert(c != i);
                assert(below_child_from(ts, ts[x].id, root, i + 1));
            }
        }
    }
}

/// One more child brings its own subtree, whole.
proof fn lemma_join_members(
    ts: Seq<TenantView>,
    root: TenantId,
    i: int,
    first: Seq<TenantId>,
    rest: Seq<TenantId>,
)
    requires
        0 <= i < ts.len(),
        ts[i].parent == Some(root),
        exact_subtree(ts, first, ts[i].id),
        exact_subtrees(ts, rest, root, i + 1),
    ensures
        forall|k: int|
            0 <= k < (first + rest).len() ==> below_child_from(
                ts,
                #[trigger] (first + rest)[k],
                root,
                i,
            ),
        forall|x: int|
            0 <= x < ts.len() && below_child_from(ts, (#[trigger] ts[x]).id, root, i) ==> (first
                + rest).contains(ts[x].id),
{
    let w = first + rest;
    assert forall|k: int| 0 <= k < w.len() implies below_child_from(
        ts,
        #[trigger] w[k],
        root,
        i,
    ) by {
        if k < first.len() {
            assert(w[k] == first[k]);
            assert(below(ts, w[k], ts[i].id));
        } else {
            assert(w[k] == rest[k - first.len()]);
            assert(below_child_from(ts, rest[k - first.len()], root, i + 1));
        }
    }
    assert forall|x: int|
        0 <= x < ts.len() && below_child_from(ts, (#[trigger] ts[x]).id, root, i) implies w.contains(
        ts[x].id,
    ) by {
        let c = choose|c: int|
            #![trigger ts[c]]
            i <= c < ts.len() && ts[c].parent == Some(root) && below(ts, ts[x].id, ts[c].id);
        if c == i {
            assert(first.contains(ts[x].id));
            let k = choose|k: int| 0 <= k < first.len() && first[k] == ts[x].id;
            assert(w[k] == ts[x].id);
        } else {
            assert(below_child_from(ts, ts[x].id, root, i + 1));
            assert(rest.contains(ts[x].id));
            let k = choose|k: int| 0 <= k < rest.len() && rest[k] == ts[x].id;
            assert(w[k + first.len()] == ts[x].id);
        }
    }
}

/// One more child leaves no id twice and no parent before its child.
proof fn lemma_join_order(
    ts: Seq<TenantView>,
    root: TenantId,
    i: int,
    first: Seq<TenantId>,
    rest: Seq<TenantId>,
)
    requires
        forest(ts),
        0 <= i < ts.len(),
        ts[i].parent == Some(root),
        exact_subtree(ts, first, ts[i].id),
        exact_subtrees(ts, rest, root, i + 1),
    ensures
        (first + rest).no_duplicates(),
        children_first(ts, first + rest),
{
    let w = first + rest;
    let a = ts[i].id;
    lemma_find(ts, i);
    assert(parent_ok(ts, ts[i]));
    assert forall|k: int, l: int| 0 <= k < first.len() && 0 <= l < rest.len() implies (
    #[trigger] first[k]) != #[trigger] rest[l] by {
        assert(below(ts, first[k], a));
        assert(below_child_from(ts, rest[l], root, i + 1));
        lemma_apart(ts, first[k], rest[l], i, root);
    }
    assert(w.no_duplicates());
    assert forall|k: int, l: int|
        0 <= k < w.len() && 0 <= l < w.len() && hierarchy::tenant_at(ts, #[trigger] w[k]).parent
            == Some(#[trigger] w[l]) implies k < l by {
        if k < first.len() && l < first.len() {
            assert(w[k] == first[k] && w[l] == first[l]);
        } else if k >= first.len() && l >= first.len() {
            assert(w[k] == rest[k - first.len()] && w[l] == rest[l - first.len()]);
        } else if k >= first.len() {
            assert(w[k] == rest[k - first.len()] && w[l] == first[l]);
            assert(below_child_from(ts, rest[k - first.len()], root, i + 1));
            assert(below(ts, first[l], a));
            lemma_parent_elsewhere(ts, w[k], w[l], i, root);
        }
    }
}

/// The parent of someone below a later child is below that child too, or is
/// the root; either way it is not below an earlier child.
proof fn lemma_parent_elsewhere(
    ts: Seq<TenantView>,
    x: TenantId,
    p: TenantId,
    i: int,
    root: TenantId,
)
    requires
        forest(ts),
        0 <= i < ts.len(),
        ts[i].parent == Some(root),
        below_child_from(ts, x, root, i + 1),
        hierarchy::tenant_at(ts, x).parent == Some(p),
    ensures
        !below(ts, p, ts[i].id),
{
    let c = choose|c: int|
        #![trigger ts[c]]
        i + 1 <= c < ts.len() && ts[c].parent == Some(root) && below(ts, x, ts[c].id);
    lemma_find(ts, i);
    lemma_find(ts, c);
    assert(parent_ok(ts, ts[i]));
    assert(parent_ok(ts, ts[c]));
    assert(ts[i].id.0 < ts[c].id.0);
    if below(ts, p, ts[i].id) {
        if x == ts[c].id {
            lemma_below_ge(ts, root, ts[i].id);
        } else {
            lemma_siblings_apart(ts, p, ts[i].id, ts[c].id, root);
        }
    }
}

/// Someone below one child is nobody below a later child.
proof fn lemma_apart(ts: Seq<TenantView>, x: TenantId, y: TenantId, i: int, root: TenantId)
    requires
        forest(ts),
        0 <= i < ts.len(),
        ts[i].parent == Some(root),
        below(ts, x, ts[i].id),
        below_child_from(ts, y, root, i + 1),
    ensures
        x != y,
{
    if x == y {
        let c = choose|c: int|
            #![trigger ts[c]]
            i + 1 <= c < ts.len() && ts[c].parent == Some(root) && below(ts, y, ts[c].id);
        lemma_find(ts, i);
        lemma_find(ts, c);
        assert(parent_ok(ts, ts[i]));
        assert(parent_ok(ts, ts[c]));
        assert(ts[i].id.0 < ts[c].id.0);
        lemma_siblings_apart(ts, x, ts[i].id, ts[c].id, root);
    }
}

/// Tenants that stay after a removal, and those that do not.
pub proof fn lemma_without_tenants(ts: Seq<TenantView>, ids: Seq<TenantId>)
    ensures
        forall|k: int|
            0 <= k < hierarchy::without_tenants(ts, ids).len() ==> !ids.contains(
                (#[trigger] hierarchy::without_tenants(ts, ids)[k]).id,
            ) && ts.contains(hierarchy::without_tenants(ts, ids)[k]),
        forall|i: int|
            0 <= i < ts.len() && !ids.contains((#[trigger] ts[i]).id)
                ==> hierarchy::without_tenants(ts, ids).contains(ts[i]),
    decreases ts.len(),
{
    if ts.len() > 0 {
        let d = ts.drop_last();
        let w = hierarchy::without_tenants(d, ids);
        let v = hierarchy::without_tenants(ts, ids);
        lemma_without_tenants(d, ids);
        assert forall|k: int| 0 <= k < v.len() implies !ids.contains((#[trigger] v[k]).id)
            && ts.contains(v[k]) by {
            if k < w.len() {
                assert(v[k] == w[k]);
                let i = choose|i: int| 0 <= i < d.len() && d[i] == w[k];
                assert(ts[i] == v[k]);
            } else {
                assert(ts[ts.len() - 1] == v[k]);
            }
        }
        assert forall|i: int| 0 <= i < ts.len() && !ids.contains((#[trigger] ts[i]).id) implies v.contains(
            ts[i],
        ) by {
            if i < d.len() {
                assert(d[i] == ts[i]);
                let k = choose|k: int| 0 <= k < w.len() && w[k] == d[i];
                assert(v[k] == ts[i]);
            } else {
                assert(v[v.len() - 1] == ts[i]);
            }
        }
    }
}

/// The sessions that stay after those of some tenants ended.
pub proof fn lemma_sessions_without(s: StoreView, ids: Seq<TenantId>, n: int)
    requires
        sound(s),
        0 <= n <= ids.len(),
    ensures
        sound(StoreView { sessions: hierarchy::sessions_without(s.sessions, ids, n), ..s }),
        forall|k: int, j: int|
            0 <= k < hierarchy::sessions_without(s.sessions, ids, n).len() && 0 <= j < n ==> (
            #[trigger] hierarchy::sessions_without(s.sessions, ids, n)[k]).tenant
                != #[trigger] ids[j],
    decreases n,
{
    if n > 0 {
        lemma_sessions_without(s, ids, n - 1);
        let prev = hierarchy::sessions_without(s.sessions, ids, n - 1);
        let m = SessionMatch::OfTenant(ids[n - 1]);
        law_revoking_keeps_sound(StoreView { sessions: prev, ..s }, m);
        lemma_kept(prev, m);
        let v = store::kept(prev, m);
        assert forall|k: int, j: int| 0 <= k < v.len() && 0 <= j < n implies (
        #[trigger] v[k]).tenant != #[trigger] ids[j] by {
            let i = choose|i: int| 0 <= i < prev.len() && prev[i] == v[k];
            if j < n - 1 {
                assert(prev[i].tenant != ids[j]);
            } else {
                assert(!m.selects(v[k]));
            }
        }
    }
}

/// Deleting a subtree keeps a store sound, takes exactly the subtree and its
/// sessions away, and changes nothing where it is refused.
pub proof fn law_delete_recursive(s: StoreView, tenant: TenantId)
    requires
        sound(s),
    ensures
        sound(hierarchy::subtree_deleted(s, tenant).0),
        hierarchy::subtree_deleted(s, tenant).1 is Err ==> hierarchy::subtree_deleted(
            s,
            tenant,
        ).0 == s,
        hierarchy::subtree_deleted(s, tenant).1 matches Ok(report) ==> {
            let n = hierarchy::subtree_deleted(s, tenant).0;
            let ids = hierarchy::subtree_of(s.tenants, tenant, 0)->Ok_0;
            &&& exact_subtree(s.tenants, ids, tenant)
            &&& report.deleted_tenants.len() == ids.len()
            &&& forall|i: int|
                0 <= i < s.tenants.len() ==> (n.tenants.contains(#[trigger] s.tenants[i]) <==> !below(
                    s.tenants,
                    s.tenants[i].id,
                    tenant,
                ))
            &&& forall|k: int|
                0 <= k < n.sessions.len() ==> !ids.contains((#[trigger] n.sessions[k]).tenant)
        },
{
    let out = hierarchy::subtree_deleted(s, tenant);
    if out.1 is Ok {
        let n = out.0;
        let ts = s.tenants;
        let ids = hierarchy::subtree_of(ts, tenant, 0)->Ok_0;
        law_subtree_exact(ts, tenant, 0);
        hierarchy::lemma_without_ordered(ts, ids);
        lemma_without_tenants(ts, ids);
        lemma_sessions_without(s, ids, ids.len() as int);
        let mid = StoreView {
            sessions: hierarchy::sessions_without(s.sessions, ids, ids.len() as int),
            ..s
        };
        assert forall|i: int| 0 <= i < ts.len() implies (n.tenants.contains(#[trigger] ts[i]) <==> !below(
            ts,
            ts[i].id,
            tenant,
        )) by {
            if below(ts, ts[i].id, tenant) {
                assert(ids.contains(ts[i].id));
            } else if ids.contains(ts[i].id) {
                let k = choose|k: int| 0 <= k < ids.len() && ids[k] == ts[i].id;
                assert(below(ts, ids[k], tenant));
            }
        }
        assert forall|a: int| 0 <= a < n.tenants.len() implies tenant_ok(
            #[trigger] n.tenants[a],
            n.next_user_id,
        ) && parent_ok(n.tenants, n.tenants[a]) && n.tenants[a].id.0 <= n.next_tenant_id by {
            let o = choose|o: int| 0 <= o < ts.len() && ts[o] == n.tenants[a];
            assert(tenant_ok(ts[o], s.next_user_id));
            assert(parent_ok(ts, ts[o]));
            if let Some(p) = ts[o].parent {
                lemma_found(ts, p);
                let q = store::find_tenant(ts, p)->0;
                if below(ts, p, tenant) {
                    lemma_find(ts, o);
                    assert(below(ts, ts[o].id, tenant));
                }
                assert(n.tenants.contains(ts[q]));
                let nq = choose|nq: int| 0 <= nq < n.tenants.len() && n.tenants[nq] == ts[q];
                lemma_exists(n.tenants, nq);
            }
        }
        assert forall|a: int, b: int| 0 <= a < b < n.tenants.len() implies (
        #[trigger] n.tenants[a]).name != (#[trigger] n.tenants[b]).name by {
            let oa = choose|o: int| 0 <= o < ts.len() && ts[o] == n.tenants[a];
            let ob = choose|o: int| 0 <= o < ts.len() && ts[o] == n.tenants[b];
            assert(n.tenants[a].id.0 < n.tenants[b].id.0);
            assert(oa != ob);
            if oa < ob {
                assert(ts[oa].name != ts[ob].name);
            } else {
                assert(ts[ob].name != ts[oa].name);
            }
        }
        assert(n.sessions == mid.sessions);
        assert(n.wf());
        assert forall|k: int| 0 <= k < n.sessions.len() implies session_ok(
            n.tenants,
            #[trigger] n.sessions[k],
        ) by {
            let x = mid.sessions[k];
            assert(session_ok(ts, x));
            assert forall|a: int, b: int|
                0 <= a < n.tenants.len() && 0 <= b < (#[trigger] n.tenants[a]).users.len()
                    && n.tenants[a].id == x.tenant && (#[trigger] n.tenants[a].users[b]).id
                    == x.user implies n.tenants[a].users[b].caps.includes(x.caps) by {
                let o = choose|o: int| 0 <= o < ts.len() && ts[o] == n.tenants[a];
                assert(ts[o].users[b].id == x.user);
            }
        }
        assert forall|k: int| 0 <= k < n.sessions.len() implies !ids.contains(
            (#[trigger] n.sessions[k]).tenant,
        ) by {
            if ids.contains(n.sessions[k].tenant) {
                let j = choose|j: int| 0 <= j < ids.len() && ids[j] == n.sessions[k].tenant;
                assert(n.sessions[k].tenant != ids[j]);
            }
        }
    }
}

} // verus!
