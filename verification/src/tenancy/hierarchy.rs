//! Tenants below tenants: chains of ancestors, charges that climb them, and
//! the deletion of whole subtrees.

use vstd::prelude::*;

use crate::error;
use crate::error::{CelError, CelResult, ErrorView};
use crate::tenancy::auth::SessionView;
use crate::tenancy::quota;
use crate::tenancy::quota::{charge_quota, release_quota, QuotaCharge, QuotaUsage};
use crate::tenancy::caps::TenantCaps;
use crate::tenancy::store;
use crate::tenancy::store::{MAX_DEPTH, SessionMatch, StoreState, StoreView};
use crate::tenancy::tenant::{Tenant, TenantId, TenantSpec, TenantSpecView, TenantView};

verus! {

/// Positions of a tenant and of its ancestors, the tenant first.
pub open spec fn chain_of(ts: Seq<TenantView>, cur: Option<TenantId>, depth: nat) -> Result<
    Seq<int>,
    ErrorView,
>
    decreases MAX_DEPTH + 1 - depth,
{
    match cur {
        None => Ok(Seq::empty()),
        Some(id) => if depth > MAX_DEPTH {
            Err(ErrorView::Internal("tenant hierarchy too deep"@))
        } else {
            match store::find_tenant(ts, id) {
                None => Err(ErrorView::Invalid("tenant id unknown"@)),
                Some(i) => match chain_of(ts, ts[i].parent, depth + 1) {
                    Ok(rest) => Ok(seq![i] + rest),
                    Err(e) => Err(e),
                },
            }
        },
    }
}

/// Every position on a chain is one of a tenant.
pub proof fn lemma_chain_bounds(ts: Seq<TenantView>, cur: Option<TenantId>, depth: nat)
    ensures
        chain_of(ts, cur, depth) matches Ok(c) ==> forall|k: int|
            0 <= k < c.len() ==> 0 <= #[trigger] c[k] < ts.len(),
    decreases MAX_DEPTH + 1 - depth,
{
    if let Some(id) = cur {
        if depth <= MAX_DEPTH {
            store::lemma_first_at(store::tenant_ids(ts), id, 0);
            if let Some(i) = store::find_tenant(ts, id) {
                lemma_chain_bounds(ts, ts[i].parent, depth + 1);
            }
        }
    }
}

/// A chain that can be walked from some depth can be walked from any smaller
/// one.
proof fn lemma_chain_shift(ts: Seq<TenantView>, cur: Option<TenantId>, d: nat, e: nat)
    requires
        e <= d,
        chain_of(ts, cur, d) is Ok,
    ensures
        chain_of(ts, cur, e) == chain_of(ts, cur, d),
    decreases MAX_DEPTH + 1 - d,
{
    if let Some(id) = cur {
        if let Some(i) = store::find_tenant(ts, id) {
            lemma_chain_shift(ts, ts[i].parent, d + 1, e + 1);
        }
    }
}

/// The rest of a chain is itself a chain, from the tenant where it starts.
proof fn lemma_chain_suffix(ts: Seq<TenantView>, cur: Option<TenantId>, d: nat, j: int)
    requires
        chain_of(ts, cur, d) is Ok,
        0 <= j < chain_of(ts, cur, d)->Ok_0.len(),
    ensures
        chain_of(ts, Some(ts[chain_of(ts, cur, d)->Ok_0[j]].id), (d + j) as nat) == Ok::<
            Seq<int>,
            ErrorView,
        >(chain_of(ts, cur, d)->Ok_0.skip(j)),
    decreases MAX_DEPTH + 1 - d,
{
    let c = chain_of(ts, cur, d)->Ok_0;
    let id = cur->0;
    store::lemma_first_at(store::tenant_ids(ts), id, 0);
    let i = store::find_tenant(ts, id)->0;
    let rest = chain_of(ts, ts[i].parent, (d + 1) as nat)->Ok_0;
    assert(c == seq![i] + rest);
    if j == 0 {
        assert(c.skip(0) =~= c);
    } else {
        lemma_chain_suffix(ts, ts[i].parent, (d + 1) as nat, j - 1);
        assert(c.skip(j) =~= rest.skip(j - 1));
        assert(c[j] == rest[j - 1]);
    }
}

/// No tenant stands on a chain twice.
pub proof fn lemma_chain_distinct(ts: Seq<TenantView>, cur: Option<TenantId>, d: nat)
    requires
        chain_of(ts, cur, d) is Ok,
    ensures
        chain_of(ts, cur, d)->Ok_0.no_duplicates(),
    decreases MAX_DEPTH + 1 - d,
{
    let c = chain_of(ts, cur, d)->Ok_0;
    if let Some(id) = cur {
        store::lemma_first_at(store::tenant_ids(ts), id, 0);
        let i = store::find_tenant(ts, id)->0;
        let rest = chain_of(ts, ts[i].parent, (d + 1) as nat)->Ok_0;
        lemma_chain_distinct(ts, ts[i].parent, (d + 1) as nat);
        assert forall|j: int| 0 < j < c.len() implies c[j] != i by {
            if c[j] == i {
                lemma_chain_suffix(ts, cur, d, j);
                lemma_chain_shift(ts, Some(ts[i].id), (d + j) as nat, d);
                assert(c.skip(j).len() < c.len());
            }
        }
        assert forall|a: int, b: int| 0 <= a < c.len() && 0 <= b < c.len() && a != b implies c[a]
            != c[b] by {
            if a > 0 && b > 0 {
                assert(c[a] == rest[a - 1]);
                assert(c[b] == rest[b - 1]);
            }
        }
    }
}

/// The first refusal of a charge along a chain, from position `k` on.
pub open spec fn first_refusal(
    ts: Seq<TenantView>,
    chain: Seq<int>,
    charge: QuotaCharge,
    k: int,
) -> Option<ErrorView>
    decreases chain.len() - k,
{
    if k >= chain.len() {
        None
    } else {
        let t = ts[chain[k]];
        match quota::charged(t.usage, t.quotas, charge) {
            Err(e) => Some(e@),
            Ok(_) => first_refusal(ts, chain, charge, k + 1),
        }
    }
}

/// The tenants once the usage of those on a chain was set by `f`.
pub open spec fn with_usage(
    ts: Seq<TenantView>,
    chain: Seq<int>,
    f: spec_fn(QuotaUsage) -> QuotaUsage,
) -> Seq<TenantView> {
    Seq::new(
        ts.len(),
        |i: int|
            if chain.contains(i) {
                TenantView { usage: f(ts[i].usage), ..ts[i] }
            } else {
                ts[i]
            },
    )
}

/// What [`StoreState::charge`] does: all of the chain takes the charge, or
/// none of it does.
pub open spec fn store_charged(s: StoreView, tenant: TenantId, charge: QuotaCharge) -> (
    StoreView,
    Result<QuotaUsage, ErrorView>,
) {
    match chain_of(s.tenants, Some(tenant), 0) {
        Err(e) => (s, Err(e)),
        Ok(chain) => match first_refusal(s.tenants, chain, charge, 0) {
            Some(e) => (s, Err(e)),
            None => (
                StoreView {
                    tenants: with_usage(
                        s.tenants,
                        chain,
                        |u: QuotaUsage| quota::added(u, charge),
                    ),
                    ..s
                },
                Ok(quota::added(s.tenants[chain[0]].usage, charge)),
            ),
        },
    }
}

/// What [`StoreState::release`] does.
pub open spec fn store_released(s: StoreView, tenant: TenantId, charge: QuotaCharge) -> (
    StoreView,
    Result<QuotaUsage, ErrorView>,
) {
    match chain_of(s.tenants, Some(tenant), 0) {
        Err(e) => (s, Err(e)),
        Ok(chain) => (
            StoreView {
                tenants: with_usage(s.tenants, chain, |u: QuotaUsage| quota::removed(u, charge)),
                ..s
            },
            Ok(quota::removed(s.tenants[chain[0]].usage, charge)),
        ),
    }
}

/// The ids of a tenant and of everything below it, children before parents.
pub open spec fn subtree_of(ts: Seq<TenantView>, root: TenantId, depth: nat) -> Result<
    Seq<TenantId>,
    ErrorView,
>
    decreases MAX_DEPTH + 1 - depth, ts.len() + 1,
{
    if depth > MAX_DEPTH {
        Err(ErrorView::Internal("tenant hierarchy too deep"@))
    } else {
        match subtrees_from(ts, root, 0, depth) {
            Ok(below) => Ok(below.push(root)),
            Err(e) => Err(e),
        }
    }
}

/// The subtrees of the children of `root` that stand at position `i` or later.
pub open spec fn subtrees_from(ts: Seq<TenantView>, root: TenantId, i: int, depth: nat) -> Result<
    Seq<TenantId>,
    ErrorView,
>
    decreases MAX_DEPTH + 1 - depth, ts.len() - i,
{
    if i >= ts.len() || i < 0 || depth > MAX_DEPTH {
        Ok(Seq::empty())
    } else if ts[i].parent == Some(root) {
        match subtree_of(ts, ts[i].id, depth + 1) {
            Err(e) => Err(e),
            Ok(first) => match subtrees_from(ts, root, i + 1, depth) {
                Err(e) => Err(e),
                Ok(rest) => Ok(first + rest),
            },
        }
    } else {
        subtrees_from(ts, root, i + 1, depth)
    }
}

impl StoreState {
    /// Positions of a tenant and of its ancestors, the tenant first, where the
    /// tenant itself counts as standing at level `level`. Refuses hierarchies
    /// that are too deep, and so those that run in a circle.
    fn chain_from(&self, start: Option<TenantId>, level: u32) -> (r: CelResult<Vec<usize>>)
        requires
            level <= MAX_DEPTH,
        ensures
            match r {
                Ok(v) => chain_of(self@.tenants, start, level as nat) == Ok::<
                    Seq<int>,
                    ErrorView,
                >(positions(v@)) && forall|k: int|
                    0 <= k < v@.len() ==> #[trigger] v@[k] < self.tenants@.len(),
                Err(e) => chain_of(self@.tenants, start, level as nat) == Err::<
                    Seq<int>,
                    ErrorView,
                >(e@),
            },
    {
        let ghost ts = self@.tenants;
        let mut out: Vec<usize> = Vec::new();
        let mut cur: Option<TenantId> = start;
        let mut depth: u32 = level;
        proof {
            assert(positions(out@) =~= Seq::empty());
            let c = chain_of(ts, start, level as nat);
            if c is Ok {
                assert(Seq::<int>::empty() + c->Ok_0 =~= c->Ok_0);
            }
        }
        while cur.is_some()
            invariant
                ts == self@.tenants,
                depth <= MAX_DEPTH + 1,
                out@.len() + level == depth,
                forall|k: int| 0 <= k < out@.len() ==> #[trigger] out@[k] < self.tenants@.len(),
                match chain_of(ts, cur, depth as nat) {
                    Ok(rest) => chain_of(ts, start, level as nat) == Ok::<Seq<int>, ErrorView>(
                        positions(out@) + rest,
                    ),
                    Err(e) => chain_of(ts, start, level as nat) == Err::<Seq<int>, ErrorView>(e),
                },
            decreases MAX_DEPTH + 2 - depth,
        {
            let tid = cur.unwrap();
            if depth > MAX_DEPTH {
                return Err(CelError::Internal("tenant hierarchy too deep"));
            }
            match self.position(tid) {
                None => {
                    return Err(CelError::Invalid("tenant id unknown"));
                },
                Some(i) => {
                    let ghost before = out@;
                    out.push(i);
                    cur = self.tenants[i].parent;
                    proof {
                        let c = chain_of(ts, ts[i as int].parent, (depth + 1) as nat);
                        if c is Ok {
                            assert(positions(before) + (seq![i as int] + c->Ok_0) =~= positions(
                                out@,
                            ) + c->Ok_0);
                        }
                    }
                    depth = depth + 1;
                },
            }
        }
        proof {
            assert(positions(out@) + Seq::<int>::empty() =~= positions(out@));
        }
        Ok(out)
    }

    /// Charges an allocation against a tenant and every ancestor, and returns
    /// the tenant's new usage. Either all of them take the charge or nothing
    /// changes.
    pub fn charge(&mut self, tenant: TenantId, charge: QuotaCharge) -> (r: CelResult<QuotaUsage>)
        ensures
            final(self)@ == store_charged(old(self)@, tenant, charge).0,
            match r {
                Ok(u) => store_charged(old(self)@, tenant, charge).1 == Ok::<
                    QuotaUsage,
                    ErrorView,
                >(u),
                Err(e) => store_charged(old(self)@, tenant, charge).1 == Err::<
                    QuotaUsage,
                    ErrorView,
                >(e@),
            },
            old(self)@.wf() ==> final(self)@.wf(),
    {
        let ghost ts = self@.tenants;
        let chain = match self.chain_from(Some(tenant), 0) {
            Ok(c) => c,
            Err(e) => {
                return Err(e);
            },
        };
        let ghost cs = positions(chain@);
        let mut k: usize = 0;
        while k < chain.len()
            invariant
                self@ == old(self)@,
                ts == self@.tenants,
                cs == positions(chain@),
                k <= chain@.len(),
                chain_of(ts, Some(tenant), 0) == Ok::<Seq<int>, ErrorView>(cs),
                forall|j: int| 0 <= j < chain@.len() ==> #[trigger] chain@[j]
                    < self.tenants@.len(),
                first_refusal(ts, cs, charge, 0) == first_refusal(ts, cs, charge, k as int),
                forall|j: int|
                    0 <= j < k ==> quota::charged(
                        ts[#[trigger] cs[j]].usage,
                        ts[cs[j]].quotas,
                        charge,
                    ) is Ok,
            decreases chain@.len() - k,
        {
            let i: usize = chain[k];
            assert(cs[k as int] == i);
            match charge_quota(self.tenants[i].usage, self.tenants[i].quotas, charge) {
                Ok(_) => {},
                Err(e) => {
                    return Err(e);
                },
            }
            k = k + 1;
        }
        proof {
            lemma_chain_distinct(ts, Some(tenant), 0);
        }
        let mut new_self = QuotaUsage::default();
        let mut m: usize = 0;
        let ghost f = |u: QuotaUsage| quota::added(u, charge);
        assert(self@.tenants =~= with_usage(ts, cs.take(0), f));
        while m < chain.len()
            invariant
                m <= chain@.len(),
                cs == positions(chain@),
                cs.no_duplicates(),
                f == (|u: QuotaUsage| quota::added(u, charge)),
                ts == old(self)@.tenants,
                self.tenants@.len() == ts.len(),
                self.next_tenant_id == old(self).next_tenant_id,
                self.next_user_id == old(self).next_user_id,
                self.sessions == old(self).sessions,
                forall|j: int| 0 <= j < chain@.len() ==> #[trigger] chain@[j] < ts.len(),
                self@.tenants == with_usage(ts, cs.take(m as int), f),
                m > 0 ==> new_self == quota::added(ts[cs[0]].usage, charge),
                forall|j: int|
                    0 <= j < cs.len() ==> quota::charged(
                        ts[#[trigger] cs[j]].usage,
                        ts[cs[j]].quotas,
                        charge,
                    ) is Ok,
            decreases chain@.len() - m,
        {
            let i: usize = chain[m];
            proof {
                assert(cs[m as int] == i);
                if cs.take(m as int).contains(i as int) {
                    let j = choose|j: int| 0 <= j < m && cs.take(m as int)[j] == i;
                    assert(cs[j] == cs[m as int]);
                }
                assert(self@.tenants[i as int] == ts[i as int]);
            }
            let new = match charge_quota(self.tenants[i].usage, self.tenants[i].quotas, charge) {
                Ok(u) => u,
                Err(e) => {
                    assert(false);
                    return Err(e);
                },
            };
            self.tenants[i].usage = new;
            if m == 0 {
                new_self = new;
            }
            proof {
                lemma_with_usage_step(ts, cs, m as int, f);
                assert(self@.tenants =~= with_usage(ts, cs.take(m as int), f).update(
                    i as int,
                    TenantView { usage: f(ts[i as int].usage), ..ts[i as int] },
                ));
            }
            m = m + 1;
        }
        proof {
            assert(cs.take(m as int) =~= cs);
            assert(cs.len() > 0);
        }
        Ok(new_self)
    }

    /// Gives an allocation back, for a tenant and every ancestor, and returns
    /// the tenant's new usage.
    pub fn release(&mut self, tenant: TenantId, charge: QuotaCharge) -> (r: CelResult<QuotaUsage>)
        ensures
            final(self)@ == store_released(old(self)@, tenant, charge).0,
            match r {
                Ok(u) => store_released(old(self)@, tenant, charge).1 == Ok::<
                    QuotaUsage,
                    ErrorView,
                >(u),
                Err(e) => store_released(old(self)@, tenant, charge).1 == Err::<
                    QuotaUsage,
                    ErrorView,
                >(e@),
            },
            old(self)@.wf() ==> final(self)@.wf(),
    {
        let ghost ts = self@.tenants;
        let chain = match self.chain_from(Some(tenant), 0) {
            Ok(c) => c,
            Err(e) => {
                return Err(e);
            },
        };
        let ghost cs = positions(chain@);
        proof {
            lemma_chain_distinct(ts, Some(tenant), 0);
        }
        let mut new_self = QuotaUsage::default();
        let mut m: usize = 0;
        let ghost f = |u: QuotaUsage| quota::removed(u, charge);
        assert(self@.tenants =~= with_usage(ts, cs.take(0), f));
        while m < chain.len()
            invariant
                m <= chain@.len(),
                cs == positions(chain@),
                cs.no_duplicates(),
                f == (|u: QuotaUsage| quota::removed(u, charge)),
                ts == old(self)@.tenants,
                self.tenants@.len() == ts.len(),
                self.next_tenant_id == old(self).next_tenant_id,
                self.next_user_id == old(self).next_user_id,
                self.sessions == old(self).sessions,
                forall|j: int| 0 <= j < chain@.len() ==> #[trigger] chain@[j] < ts.len(),
                self@.tenants == with_usage(ts, cs.take(m as int), f),
                m > 0 ==> new_self == quota::removed(ts[cs[0]].usage, charge),
            decreases chain@.len() - m,
        {
            let i: usize = chain[m];
            proof {
                assert(cs[m as int] == i);
                if cs.take(m as int).contains(i as int) {
                    let j = choose|j: int| 0 <= j < m && cs.take(m as int)[j] == i;
                    assert(cs[j] == cs[m as int]);
                }
                assert(self@.tenants[i as int] == ts[i as int]);
            }
            let new = release_quota(self.tenants[i].usage, charge);
            self.tenants[i].usage = new;
            if m == 0 {
                new_self = new;
            }
            proof {
                lemma_with_usage_step(ts, cs, m as int, f);
                assert(self@.tenants =~= with_usage(ts, cs.take(m as int), f).update(
                    i as int,
                    TenantView { usage: f(ts[i as int].usage), ..ts[i as int] },
                ));
            }
            m = m + 1;
        }
        proof {
            assert(cs.take(m as int) =~= cs);
            assert(cs.len() > 0);
        }
        Ok(new_self)
    }

    /// Creates a tenant under `parent`.
    pub fn create_subtenant(
        &mut self,
        parent: TenantId,
        spec: TenantSpec,
        root_caps: TenantCaps,
    ) -> (r: CelResult<Tenant>)
        ensures
            final(self)@ == store::created(
                old(self)@,
                (TenantSpecView { parent: Some(parent), ..spec@ }),
                root_caps,
            ).0,
            error::result_view(r) == store::created(
                old(self)@,
                (TenantSpecView { parent: Some(parent), ..spec@ }),
                root_caps,
            ).1,
            old(self)@.wf() ==> final(self)@.wf(),
    {
        self.create(spec.with_parent(parent), root_caps)
    }

    /// Direct subtenants of `parent`, by increasing id.
    pub fn children(&self, parent: TenantId) -> (r: Vec<Tenant>)
        ensures
            store::tenant_views(r@) == children_of(self@.tenants, parent),
    {
        let ghost ts = self@.tenants;
        let mut out: Vec<Tenant> = Vec::new();
        let mut i: usize = 0;
        assert(store::tenant_views(out@) =~= children_of(ts.take(0), parent));
        while i < self.tenants.len()
            invariant
                i <= self.tenants@.len(),
                ts == self@.tenants,
                store::tenant_views(out@) == children_of(ts.take(i as int), parent),
            decreases self.tenants@.len() - i,
        {
            let ghost before = store::tenant_views(out@);
            proof {
                let t = ts.take(i + 1);
                assert(t.drop_last() =~= ts.take(i as int));
                assert(t.last() == ts[i as int]);
            }
            if self.tenants[i].parent == Some(parent) {
                out.push(self.tenants[i].clone());
                assert(store::tenant_views(out@) =~= before.push(ts[i as int]));
            }
            i = i + 1;
        }
        assert(ts.take(i as int) =~= ts);
        out
    }

    /// Ancestors of a tenant, the direct parent first. Refuses a chain of more
    /// than [`MAX_DEPTH`] of them.
    pub fn ancestors(&self, id: TenantId) -> (r: CelResult<Vec<Tenant>>)
        ensures
            match r {
                Ok(v) => ancestors_of(self@.tenants, id) == Ok::<Seq<TenantView>, ErrorView>(
                    store::tenant_views(v@),
                ),
                Err(e) => ancestors_of(self@.tenants, id) == Err::<Seq<TenantView>, ErrorView>(e@),
            },
    {
        let at: usize = match self.position(id) {
            Some(i) => i,
            None => {
                return Err(CelError::Invalid("tenant id unknown"));
            },
        };
        let chain = match self.chain_from(self.tenants[at].parent, 1) {
            Ok(c) => c,
            Err(e) => {
                return Err(e);
            },
        };
        let mut out: Vec<Tenant> = Vec::new();
        let mut k: usize = 0;
        while k < chain.len()
            invariant
                k <= chain@.len(),
                out@.len() == k,
                forall|j: int| 0 <= j < chain@.len() ==> #[trigger] chain@[j]
                    < self.tenants@.len(),
                forall|j: int|
                    0 <= j < k ==> (#[trigger] out@[j])@ == self@.tenants[chain@[j] as int],
            decreases chain@.len() - k,
        {
            out.push(self.tenants[chain[k]].clone());
            k = k + 1;
        }
        proof {
            let cs = positions(chain@);
            assert(store::tenant_views(out@) =~= Seq::new(
                cs.len(),
                |j: int| self@.tenants[cs[j]],
            ));
        }
        Ok(out)
    }
}

/// A list of positions as integers.
pub open spec fn positions(v: Seq<usize>) -> Seq<int> {
    Seq::new(v.len(), |i: int| v[i] as int)
}

/// Direct subtenants of a tenant, in order.
pub open spec fn children_of(ts: Seq<TenantView>, parent: TenantId) -> Seq<TenantView>
    decreases ts.len(),
{
    if ts.len() == 0 {
        ts
    } else if ts.last().parent == Some(parent) {
        children_of(ts.drop_last(), parent).push(ts.last())
    } else {
        children_of(ts.drop_last(), parent)
    }
}

/// Ancestors of a tenant, the direct parent first: the chain of the tenant
/// without the tenant itself, at most [`MAX_DEPTH`] of them.
pub open spec fn ancestors_of(ts: Seq<TenantView>, id: TenantId) -> Result<
    Seq<TenantView>,
    ErrorView,
> {
    match store::find_tenant(ts, id) {
        None => Err(ErrorView::Invalid("tenant id unknown"@)),
        Some(i) => match chain_of(ts, ts[i].parent, 1) {
            Err(e) => Err(e),
            Ok(cs) => Ok(Seq::new(cs.len(), |j: int| ts[cs[j]])),
        },
    }
}

/// One more tenant of a chain gets its new usage.
proof fn lemma_with_usage_step(
    ts: Seq<TenantView>,
    cs: Seq<int>,
    m: int,
    f: spec_fn(QuotaUsage) -> QuotaUsage,
)
    requires
        0 <= m < cs.len(),
        0 <= cs[m] < ts.len(),
    ensures
        with_usage(ts, cs.take(m + 1), f) == with_usage(ts, cs.take(m), f).update(
            cs[m],
            TenantView { usage: f(ts[cs[m]].usage), ..ts[cs[m]] },
        ),
{
    let a = cs.take(m);
    let b = cs.take(m + 1);
    assert(b =~= a.push(cs[m]));
    assert forall|i: int| b.contains(i) == (a.contains(i) || i == cs[m]) by {
        if a.contains(i) {
            let j = choose|j: int| 0 <= j < a.len() && a[j] == i;
            assert(b[j] == i);
        }
        if i == cs[m] {
            assert(b[m] == i);
        }
        if b.contains(i) {
            let j = choose|j: int| 0 <= j < b.len() && b[j] == i;
            if j < m {
                assert(a[j] == i);
            }
        }
    }
    assert(with_usage(ts, b, f) =~= with_usage(ts, a, f).update(
        cs[m],
        TenantView { usage: f(ts[cs[m]].usage), ..ts[cs[m]] },
    ));
}

/// What a recursive deletion did.
#[derive(Debug, Clone, PartialEq, Eq, Default)]
pub struct DeleteReport {
    /// Deleted tenants with their names, children before parents.
    pub deleted_tenants: Vec<(TenantId, String)>,
    /// Number of sessions that ended.
    pub revoked_sessions: usize,
    /// Number of users that went with their tenants.
    pub dropped_users: usize,
}

/// Mathematical value of a [`DeleteReport`].
#[verifier::ext_equal]
pub struct DeleteReportView {
    /// See [`DeleteReport::deleted_tenants`].
    pub deleted_tenants: Seq<(TenantId, Seq<char>)>,
    /// See [`DeleteReport::revoked_sessions`].
    pub revoked_sessions: int,
    /// See [`DeleteReport::dropped_users`].
    pub dropped_users: int,
}

impl View for DeleteReport {
    type V = DeleteReportView;

    open spec fn view(&self) -> DeleteReportView {
        DeleteReportView {
            deleted_tenants: Seq::new(
                self.deleted_tenants@.len(),
                |i: int| (self.deleted_tenants@[i].0, self.deleted_tenants@[i].1@),
            ),
            revoked_sessions: self.revoked_sessions as int,
            dropped_users: self.dropped_users as int,
        }
    }
}

/// The tenant with a given id.
pub open spec fn tenant_at(ts: Seq<TenantView>, id: TenantId) -> TenantView {
    ts[store::find_tenant(ts, id)->0]
}

/// Whether some tenant of a list of ids uses anything.
pub open spec fn any_in_use(ts: Seq<TenantView>, ids: Seq<TenantId>) -> bool {
    exists|k: int|
        0 <= k < ids.len() && tenant_at(ts, #[trigger] ids[k]).usage != quota::no_usage()
}

/// The tenants that are not on a list of ids.
pub open spec fn without_tenants(ts: Seq<TenantView>, ids: Seq<TenantId>) -> Seq<TenantView>
    decreases ts.len(),
{
    if ts.len() == 0 {
        ts
    } else if ids.contains(ts.last().id) {
        without_tenants(ts.drop_last(), ids)
    } else {
        without_tenants(ts.drop_last(), ids).push(ts.last())
    }
}

/// The sessions once those of the first `n` tenants of a list have ended.
pub open spec fn sessions_without(ss: Seq<SessionView>, ids: Seq<TenantId>, n: int) -> Seq<
    SessionView,
>
    decreases n,
{
    if n <= 0 {
        ss
    } else {
        store::kept(sessions_without(ss, ids, n - 1), SessionMatch::OfTenant(ids[n - 1]))
    }
}

/// Number of users of the first `n` tenants of a list.
pub open spec fn users_within(ts: Seq<TenantView>, ids: Seq<TenantId>, n: int) -> int
    decreases n,
{
    if n <= 0 {
        0
    } else {
        users_within(ts, ids, n - 1) + tenant_at(ts, ids[n - 1]).users.len()
    }
}

/// What [`StoreState::delete_tenant_recursive`] does.
pub open spec fn subtree_deleted(s: StoreView, tenant: TenantId) -> (
    StoreView,
    Result<DeleteReportView, ErrorView>,
) {
    if store::find_tenant(s.tenants, tenant) is None {
        (s, Err(ErrorView::Invalid("tenant id unknown"@)))
    } else {
        match subtree_of(s.tenants, tenant, 0) {
            Err(e) => (s, Err(e)),
            Ok(ids) => if any_in_use(s.tenants, ids) {
                (s, Err(ErrorView::Invalid("tenant in use"@)))
            } else {
                let left = sessions_without(s.sessions, ids, ids.len() as int);
                let users = users_within(s.tenants, ids, ids.len() as int);
                (
                    StoreView {
                        tenants: without_tenants(s.tenants, ids),
                        sessions: left,
                        ..s
                    },
                    Ok(
                        DeleteReportView {
                            deleted_tenants: Seq::new(
                                ids.len(),
                                |k: int| (ids[k], tenant_at(s.tenants, ids[k]).name),
                            ),
                            revoked_sessions: s.sessions.len() - left.len(),
                            dropped_users: if users <= usize::MAX {
                                users
                            } else {
                                usize::MAX as int
                            },
                        },
                    ),
                )
            },
        }
    }
}

/// Every id of a subtree is one of a tenant.
pub proof fn lemma_subtree_known(ts: Seq<TenantView>, root: TenantId, depth: nat)
    requires
        store::find_tenant(ts, root) is Some,
    ensures
        subtree_of(ts, root, depth) matches Ok(w) ==> forall|k: int|
            0 <= k < w.len() ==> store::find_tenant(ts, #[trigger] w[k]) is Some,
    decreases MAX_DEPTH + 1 - depth, ts.len() + 1,
{
    if depth <= MAX_DEPTH {
        lemma_subtrees_known(ts, root, 0, depth);
    }
}

proof fn lemma_subtrees_known(ts: Seq<TenantView>, root: TenantId, i: int, depth: nat)
    requires
        0 <= i,
        depth <= MAX_DEPTH,
    ensures
        subtrees_from(ts, root, i, depth) matches Ok(w) ==> forall|k: int|
            0 <= k < w.len() ==> store::find_tenant(ts, #[trigger] w[k]) is Some,
    decreases MAX_DEPTH + 1 - depth, ts.len() - i,
{
    if i < ts.len() {
        lemma_subtrees_known(ts, root, i + 1, depth);
        if ts[i].parent == Some(root) {
            let id = ts[i].id;
            store::lemma_first_at(store::tenant_ids(ts), id, 0);
            assert(store::tenant_ids(ts)[i] == id);
            assert(store::find_tenant(ts, id) is Some);
            lemma_subtree_known(ts, id, depth + 1);
        }
    }
}

/// Whether an id is on a list.
fn has_id(ids: &Vec<TenantId>, id: TenantId) -> (r: bool)
    ensures
        r == ids@.contains(id),
{
    let mut i: usize = 0;
    while i < ids.len()
        invariant
            i <= ids@.len(),
            forall|j: int| 0 <= j < i ==> ids@[j] != id,
        decreases ids@.len() - i,
    {
        if ids[i] == id {
            assert(ids@[i as int] == id);
            return true;
        }
        i = i + 1;
    }
    false
}

impl StoreState {
    /// Appends the ids of a subtree, children before parents.
    fn walk(&self, root: TenantId, out: &mut Vec<TenantId>, depth: u32) -> (r: CelResult<()>)
        requires
            depth <= MAX_DEPTH + 1,
        ensures
            match subtree_of(self@.tenants, root, depth as nat) {
                Ok(w) => r is Ok && final(out)@ == old(out)@ + w,
                Err(e) => r matches Err(x) && x@ == e,
            },
        decreases MAX_DEPTH + 1 - depth,
    {
        if depth > MAX_DEPTH {
            return Err(CelError::Internal("tenant hierarchy too deep"));
        }
        let ghost ts = self@.tenants;
        let ghost start = out@;
        let ghost mut sofar: Seq<TenantId> = Seq::empty();
        proof {
            assert(start + sofar =~= start);
            let all = subtrees_from(ts, root, 0, depth as nat);
            if all is Ok {
                assert(sofar + all->Ok_0 =~= all->Ok_0);
            }
        }
        let mut i: usize = 0;
        while i < self.tenants.len()
            invariant
                i <= self.tenants@.len(),
                depth <= MAX_DEPTH,
                ts == self@.tenants,
                out@ == start + sofar,
                match subtrees_from(ts, root, i as int, depth as nat) {
                    Ok(rest) => subtrees_from(ts, root, 0, depth as nat) == Ok::<
                        Seq<TenantId>,
                        ErrorView,
                    >(sofar + rest),
                    Err(e) => subtrees_from(ts, root, 0, depth as nat) == Err::<
                        Seq<TenantId>,
                        ErrorView,
                    >(e),
                },
            decreases self.tenants@.len() - i,
        {
            if self.tenants[i].parent == Some(root) {
                let kid = self.tenants[i].id;
                assert(ts[i as int].parent == Some(root) && ts[i as int].id == kid);
                match self.walk(kid, out, depth + 1) {
                    Ok(_) => {
                        proof {
                            let w = subtree_of(ts, kid, (depth + 1) as nat)->Ok_0;
                            assert(out@ == (start + sofar) + w);
                            assert((start + sofar) + w =~= start + (sofar + w));
                            let rest = subtrees_from(ts, root, i + 1, depth as nat);
                            if rest is Ok {
                                assert(sofar + (w + rest->Ok_0) =~= (sofar + w) + rest->Ok_0);
                            }
                            sofar = sofar + w;
                        }
                    },
                    Err(e) => {
                        return Err(e);
                    },
                }
            }
            i = i + 1;
        }
        proof {
            assert(sofar + Seq::<TenantId>::empty() =~= sofar);
        }
        out.push(root);
        assert(out@ =~= start + sofar.push(root));
        Ok(())
    }

    /// Deletes a tenant and everything below it, provided that nothing of it
    /// is in use. Sessions and users go with their tenants.
    pub fn delete_tenant_recursive(&mut self, tenant: TenantId) -> (r: CelResult<DeleteReport>)
        ensures
            final(self)@ == subtree_deleted(old(self)@, tenant).0,
            error::result_view(r) == subtree_deleted(old(self)@, tenant).1,
            old(self)@.wf() ==> final(self)@.wf(),
    {
        let ghost ts = self@.tenants;
        if self.position(tenant).is_none() {
            return Err(CelError::Invalid("tenant id unknown"));
        }
        let mut subtree: Vec<TenantId> = Vec::new();
        if let Err(e) = self.walk(tenant, &mut subtree, 0) {
            return Err(e);
        }
        let ghost ids = subtree@;
        proof {
            assert(ids =~= subtree_of(ts, tenant, 0)->Ok_0);
            lemma_subtree_known(ts, tenant, 0);
        }
        let mut report = DeleteReport {
            deleted_tenants: Vec::new(),
            revoked_sessions: 0,
            dropped_users: 0,
        };
        let mut k: usize = 0;
        while k < subtree.len()
            invariant
                k <= subtree@.len(),
                ids == subtree@,
                *self == *old(self),
                ts == self@.tenants,
                store::find_tenant(ts, tenant) is Some,
                subtree_of(ts, tenant, 0) == Ok::<Seq<TenantId>, ErrorView>(ids),
                forall|j: int|
                    0 <= j < ids.len() ==> store::find_tenant(ts, #[trigger] ids[j]) is Some,
                forall|j: int|
                    0 <= j < k ==> tenant_at(ts, #[trigger] ids[j]).usage == quota::no_usage(),
                report.revoked_sessions == 0,
                report.dropped_users == (if users_within(ts, ids, k as int) <= usize::MAX {
                    users_within(ts, ids, k as int)
                } else {
                    usize::MAX as int
                }),
                users_within(ts, ids, k as int) >= 0,
                report@.deleted_tenants == Seq::new(
                    k as nat,
                    |j: int| (ids[j], tenant_at(ts, ids[j]).name),
                ),
            decreases subtree@.len() - k,
        {
            let tid = subtree[k];
            assert(ids[k as int] == tid);
            match self.position(tid) {
                Some(i) => {
                    assert(tenant_at(ts, tid) == self.tenants@[i as int]@);
                    if self.tenants[i].usage != QuotaUsage::default() {
                        return Err(CelError::Invalid("tenant in use"));
                    }
                    let ghost before = report@.deleted_tenants;
                    report.deleted_tenants.push((tid, self.tenants[i].name.clone()));
                    report.dropped_users =
                    report.dropped_users.saturating_add(self.tenants[i].users.len());
                    proof {
                        assert(report@.deleted_tenants =~= before.push(
                            (tid, tenant_at(ts, tid).name),
                        ));
                        assert(report@.deleted_tenants =~= Seq::new(
                            (k + 1) as nat,
                            |j: int| (ids[j], tenant_at(ts, ids[j]).name),
                        ));
                    }
                },
                None => {
                    assert(false);
                    return Err(CelError::Internal("subtree node vanished"));
                },
            }
            k = k + 1;
        }
        assert(!any_in_use(ts, ids));
        let before: usize = self.sessions.len();
        let ghost all = self@.sessions;
        let mut m: usize = 0;
        while m < subtree.len()
            invariant
                m <= subtree@.len(),
                ids == subtree@,
                self.tenants == old(self).tenants,
                self.next_tenant_id == old(self).next_tenant_id,
                self.next_user_id == old(self).next_user_id,
                self@.sessions == sessions_without(all, ids, m as int),
                self@.sessions.len() <= all.len(),
            decreases subtree@.len() - m,
        {
            proof {
                store::lemma_kept_len(self@.sessions, SessionMatch::OfTenant(ids[m as int]));
            }
            let _n: usize = self.drop_sessions(&SessionMatch::OfTenant(subtree[m]));
            m = m + 1;
        }
        report.revoked_sessions = before - self.sessions.len();
        self.remove_tenants(&subtree);
        proof {
            lemma_without_ordered(ts, ids);
        }
        Ok(report)
    }

    /// Removes the tenants on a list of ids.
    fn remove_tenants(&mut self, ids: &Vec<TenantId>)
        ensures
            final(self)@ == (StoreView {
                tenants: without_tenants(old(self)@.tenants, ids@),
                ..old(self)@
            }),
    {
        let ghost all = self@.tenants;
        let n: usize = self.tenants.len();
        let mut seen: usize = 0;
        let mut i: usize = 0;
        proof {
            assert(all.take(0) =~= Seq::empty());
            assert(Seq::<TenantView>::empty() + all.skip(0) =~= all);
        }
        while seen < n
            invariant
                n == all.len(),
                i <= seen <= n,
                i == without_tenants(all.take(seen as int), ids@).len(),
                self@.tenants == without_tenants(all.take(seen as int), ids@) + all.skip(
                    seen as int,
                ),
                self.next_tenant_id == old(self).next_tenant_id,
                self.next_user_id == old(self).next_user_id,
                self.sessions == old(self).sessions,
            decreases n - seen,
        {
            let ghost done = without_tenants(all.take(seen as int), ids@);
            let ghost now = self@.tenants;
            proof {
                assert(now.len() == done.len() + (n - seen));
                assert(now[i as int] == all[seen as int]);
                let t = all.take(seen + 1);
                assert(t.drop_last() =~= all.take(seen as int));
                assert(t.last() == all[seen as int]);
            }
            if has_id(ids, self.tenants[i].id) {
                self.tenants.remove(i);
                proof {
                    assert(self@.tenants =~= now.remove(i as int));
                    assert(now.remove(i as int) =~= done + all.skip(seen + 1));
                }
            } else {
                i = i + 1;
                assert(self@.tenants =~= done.push(all[seen as int]) + all.skip(seen + 1));
            }
            seen = seen + 1;
        }
        proof {
            assert(all.take(seen as int) =~= all);
            assert(all.skip(seen as int) =~= Seq::empty());
            assert(self@.tenants =~= without_tenants(all, ids@));
        }
    }
}

/// Removing tenants keeps the order of those that stay, and each that stays
/// was there before.
pub proof fn lemma_without_ordered(ts: Seq<TenantView>, ids: Seq<TenantId>)
    ensures
        forall|k: int|
            0 <= k < without_tenants(ts, ids).len() ==> exists|i: int|
                #![trigger ts[i]]
                k <= i < ts.len() && ts[i] == #[trigger] without_tenants(ts, ids)[k],
        (forall|i: int, j: int|
            0 <= i < j < ts.len() ==> (#[trigger] ts[i]).id.0 < (#[trigger] ts[j]).id.0) ==> (
        forall|i: int, j: int|
            0 <= i < j < without_tenants(ts, ids).len() ==> (#[trigger] without_tenants(
                ts,
                ids,
            )[i]).id.0 < (#[trigger] without_tenants(ts, ids)[j]).id.0),
    decreases ts.len(),
{
    if ts.len() > 0 {
        let d = ts.drop_last();
        lemma_without_ordered(d, ids);
        let w = without_tenants(d, ids);
        let v = without_tenants(ts, ids);
        lemma_without_len(d, ids);
        assert forall|k: int| 0 <= k < v.len() implies exists|i: int|
            #![trigger ts[i]]
            k <= i < ts.len() && ts[i] == #[trigger] v[k] by {
            if k == w.len() {
                assert(ts[ts.len() - 1] == v[k]);
            } else {
                assert(v[k] == w[k]);
                let i = choose|i: int| #![trigger d[i]] k <= i < d.len() && d[i] == w[k];
                assert(ts[i] == v[k]);
            }
        }
    }
}

proof fn lemma_without_len(ts: Seq<TenantView>, ids: Seq<TenantId>)
    ensures
        without_tenants(ts, ids).len() <= ts.len(),
    decreases ts.len(),
{
    if ts.len() > 0 {
        lemma_without_len(ts.drop_last(), ids);
    }
}

} // verus!
