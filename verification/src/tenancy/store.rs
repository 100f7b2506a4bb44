//! The tenant store: every operation on tenants, users, quotas and sessions.

use vstd::prelude::*;
use vstd::string::*;

use crate::error::{CelError, CelResult};
use crate::error;
use crate::error::ErrorView;
use crate::tenancy::auth::{Session, SessionView, TokenHash};
use crate::tenancy::caps;
use crate::tenancy::caps::TenantCaps;
use crate::tenancy::namespace;
use crate::tenancy::namespace::{TenantNamespace, validate_segment};
use crate::tenancy::quota;
use crate::tenancy::quota::QuotaUsage;
use crate::tenancy::tenant;
use crate::tenancy::tenant::{Tenant, TenantId, TenantSpec, TenantSpecView, TenantView};
use crate::tenancy::user::{User, UserId, UserView};
use crate::text::{concat, str_eq};

verus! {

/// Deepest hierarchy that a walk follows.
pub const MAX_DEPTH: u32 = 64;

/// Everything that a tenant store holds.
#[derive(Debug)]
pub struct StoreState {
    /// Id of the newest tenant ever made.
    pub next_tenant_id: u64,
    /// Id of the newest user ever made.
    pub next_user_id: u64,
    /// Tenants, by increasing id.
    pub tenants: Vec<Tenant>,
    /// Live sessions, oldest first.
    pub sessions: Vec<Session>,
}

/// The store that keeps everything in memory.
pub type MemTenantStore = StoreState;

/// Mathematical value of a [`StoreState`].
#[verifier::ext_equal]
pub struct StoreView {
    /// See [`StoreState::next_tenant_id`].
    pub next_tenant_id: u64,
    /// See [`StoreState::next_user_id`].
    pub next_user_id: u64,
    /// See [`StoreState::tenants`].
    pub tenants: Seq<TenantView>,
    /// See [`StoreState::sessions`].
    pub sessions: Seq<SessionView>,
}

/// Mathematical value of a list of tenants.
pub open spec fn tenant_views(ts: Seq<Tenant>) -> Seq<TenantView> {
    Seq::new(ts.len(), |i: int| ts[i]@)
}

/// Mathematical value of a list of sessions.
pub open spec fn session_views(ss: Seq<Session>) -> Seq<SessionView> {
    Seq::new(ss.len(), |i: int| ss[i]@)
}

impl View for StoreState {
    type V = StoreView;

    open spec fn view(&self) -> StoreView {
        StoreView {
            next_tenant_id: self.next_tenant_id,
            next_user_id: self.next_user_id,
            tenants: tenant_views(self.tenants@),
            sessions: session_views(self.sessions@),
        }
    }
}

impl StoreView {
    /// Tenants stand in order of their ids, and no id lies above the counter.
    pub open spec fn wf(self) -> bool {
        &&& forall|i: int, j: int|
            0 <= i < j < self.tenants.len() ==> (#[trigger] self.tenants[i]).id.0 < (
            #[trigger] self.tenants[j]).id.0
        &&& forall|i: int|
            0 <= i < self.tenants.len() ==> (#[trigger] self.tenants[i]).id.0
                <= self.next_tenant_id
    }
}

/// The first position, from `i` on, where `keys` holds `k`.
pub open spec fn first_at<K>(keys: Seq<K>, k: K, i: int) -> Option<int>
    decreases keys.len() - i,
{
    if i >= keys.len() {
        None
    } else if keys[i] == k {
        Some(i)
    } else {
        first_at(keys, k, i + 1)
    }
}

/// What a first position means.
pub proof fn lemma_first_at<K>(keys: Seq<K>, k: K, i: int)
    requires
        0 <= i,
    ensures
        match first_at(keys, k, i) {
            Some(p) => i <= p < keys.len() && keys[p] == k && forall|j: int|
                i <= j < p ==> keys[j] != k,
            None => forall|j: int| i <= j < keys.len() ==> keys[j] != k,
        },
    decreases keys.len() - i,
{
    if i < keys.len() && keys[i] != k {
        lemma_first_at(keys, k, i + 1);
    }
}

/// A position is the first one if nothing before it fits.
pub proof fn lemma_is_first<K>(keys: Seq<K>, k: K, p: int)
    requires
        0 <= p <= keys.len(),
        p < keys.len() ==> keys[p] == k,
        forall|j: int| 0 <= j < p ==> keys[j] != k,
    ensures
        first_at(keys, k, 0) == (if p < keys.len() {
            Some(p)
        } else {
            None
        }),
{
    lemma_first_at(keys, k, 0);
}

/// Ids of the tenants, in order.
pub open spec fn tenant_ids(ts: Seq<TenantView>) -> Seq<TenantId> {
    Seq::new(ts.len(), |i: int| ts[i].id)
}

/// Names of the tenants, in order.
pub open spec fn tenant_names(ts: Seq<TenantView>) -> Seq<Seq<char>> {
    Seq::new(ts.len(), |i: int| ts[i].name)
}

/// Ids of the users, in order.
pub open spec fn user_ids(us: Seq<UserView>) -> Seq<UserId> {
    Seq::new(us.len(), |i: int| us[i].id)
}

/// Names of the users, in order.
pub open spec fn user_names(us: Seq<UserView>) -> Seq<Seq<char>> {
    Seq::new(us.len(), |i: int| us[i].name)
}

/// Position of a tenant, by id.
pub open spec fn find_tenant(ts: Seq<TenantView>, id: TenantId) -> Option<int> {
    first_at(tenant_ids(ts), id, 0)
}

/// Position of a tenant, by name.
pub open spec fn find_name(ts: Seq<TenantView>, name: Seq<char>) -> Option<int> {
    first_at(tenant_names(ts), name, 0)
}

/// Position of a user, by id.
pub open spec fn find_user(us: Seq<UserView>, id: UserId) -> Option<int> {
    first_at(user_ids(us), id, 0)
}

/// Position of a user, by name.
pub open spec fn find_user_name(us: Seq<UserView>, name: Seq<char>) -> Option<int> {
    first_at(user_names(us), name, 0)
}

/// Which sessions an operation ends.
pub enum SessionMatch {
    /// Those of one user of one tenant.
    OfUser(TenantId, UserId),
    /// Those of one tenant.
    OfTenant(TenantId),
    /// Those with one fingerprint.
    WithHash(TokenHash),
    /// Those that are over at a moment.
    ExpiredAt(u64),
}

impl SessionMatch {
    /// Whether a session is one of them.
    pub open spec fn selects(self, s: SessionView) -> bool {
        match self {
            SessionMatch::OfUser(t, u) => s.tenant == t && s.user == u,
            SessionMatch::OfTenant(t) => s.tenant == t,
            SessionMatch::WithHash(h) => s.token_hash == h@,
            SessionMatch::ExpiredAt(now) => now >= s.expires_ms,
        }
    }

    fn hits(&self, s: &Session) -> (r: bool)
        ensures
            r == self.selects(s@),
    {
        match self {
            SessionMatch::OfUser(t, u) => s.tenant == *t && s.user == *u,
            SessionMatch::OfTenant(t) => s.tenant == *t,
            SessionMatch::WithHash(h) => s.token_hash.same(h),
            SessionMatch::ExpiredAt(now) => s.is_expired_at(*now),
        }
    }
}

/// The sessions that stay once those that `m` selects have ended.
pub open spec fn kept(ss: Seq<SessionView>, m: SessionMatch) -> Seq<SessionView>
    decreases ss.len(),
{
    if ss.len() == 0 {
        ss
    } else if m.selects(ss.last()) {
        kept(ss.drop_last(), m)
    } else {
        kept(ss.drop_last(), m).push(ss.last())
    }
}

/// The users that stay once one of them was removed.
pub open spec fn without_user(us: Seq<UserView>, id: UserId) -> Seq<UserView>
    decreases us.len(),
{
    if us.len() == 0 {
        us
    } else if us.last().id == id {
        without_user(us.drop_last(), id)
    } else {
        without_user(us.drop_last(), id).push(us.last())
    }
}

/// Ending sessions never adds any.
pub proof fn lemma_kept_len(ss: Seq<SessionView>, m: SessionMatch)
    ensures
        kept(ss, m).len() <= ss.len(),
    decreases ss.len(),
{
    if ss.len() > 0 {
        lemma_kept_len(ss.drop_last(), m);
    }
}

/// What [`StoreState::create`] does.
pub open spec fn created(s: StoreView, spec: TenantSpecView, root_caps: TenantCaps) -> (
    StoreView,
    Result<TenantView, ErrorView>,
) {
    let refusal = creation_refused(s, spec, root_caps);
    if refusal is Some {
        (s, Err(refusal->0))
    } else if s.next_tenant_id == u64::MAX {
        (s, Err(ErrorView::Internal("tenant id overflow"@)))
    } else {
        let id = (s.next_tenant_id + 1) as u64;
        let bumped = StoreView { next_tenant_id: id, ..s };
        match namespace::validated(spec.name) {
            Err(e) => (bumped, Err(e@)),
            Ok(_) => {
                let t = TenantView {
                    id: TenantId(id),
                    name: spec.name,
                    namespace: namespace::root_path(spec.name),
                    root_caps,
                    users: Seq::empty(),
                    quotas: spec.quotas,
                    usage: quota::no_usage(),
                    parent: spec.parent,
                };
                (StoreView { tenants: s.tenants.push(t), ..bumped }, Ok(t))
            },
        }
    }
}

/// Why a creation is refused before an id is drawn: the name is taken, the
/// parent is unknown, or the parent does not hold what is asked for.
pub open spec fn creation_refused(
    s: StoreView,
    spec: TenantSpecView,
    root_caps: TenantCaps,
) -> Option<ErrorView> {
    if find_name(s.tenants, spec.name) is Some {
        Some(ErrorView::Storage("tenant already exists: "@ + spec.name))
    } else {
        match spec.parent {
            None => None,
            Some(p) => match find_tenant(s.tenants, p) {
                None => Some(ErrorView::Invalid("parent tenant id unknown"@)),
                Some(i) => if !s.tenants[i].root_caps.includes(root_caps) {
                    Some(ErrorView::CapabilityDenied("subtenant caps exceed parent"@))
                } else if !spec.quotas.within(s.tenants[i].quotas) {
                    Some(ErrorView::Invalid("subtenant quotas exceed parent quotas"@))
                } else {
                    None
                },
            },
        }
    }
}

/// Whether a tenant has a direct subtenant.
pub open spec fn has_child(ts: Seq<TenantView>, id: TenantId) -> bool {
    exists|i: int| 0 <= i < ts.len() && (#[trigger] ts[i]).parent == Some(id)
}

/// What [`StoreState::delete`] does.
pub open spec fn deleted(s: StoreView, id: TenantId) -> (StoreView, Result<(), ErrorView>) {
    match find_tenant(s.tenants, id) {
        None => (s, Err(ErrorView::Invalid("tenant id unknown"@))),
        Some(i) => if has_child(s.tenants, id) {
            (s, Err(ErrorView::Invalid("tenant has subtenants"@)))
        } else if s.tenants[i].usage != quota::no_usage() {
            (s, Err(ErrorView::Invalid("tenant in use"@)))
        } else {
            (StoreView { tenants: s.tenants.remove(i), ..s }, Ok(()))
        },
    }
}

/// What [`StoreState::add_user`] does.
pub open spec fn user_added(
    s: StoreView,
    tenant: TenantId,
    name: Seq<char>,
    requested: TenantCaps,
) -> (StoreView, Result<UserView, ErrorView>) {
    match namespace::validated(name) {
        Err(e) => (s, Err(e@)),
        Ok(_) => match find_tenant(s.tenants, tenant) {
            None => (s, Err(ErrorView::Invalid("tenant id unknown"@))),
            Some(i) => {
                let t = s.tenants[i];
                if find_user_name(t.users, name) is Some {
                    (s, Err(ErrorView::Storage("user already exists: "@ + name)))
                } else {
                    match caps::attenuated(t.root_caps, requested) {
                        Err(e) => (s, Err(e@)),
                        Ok(c) => if s.next_user_id == u64::MAX {
                            (s, Err(ErrorView::Internal("user id overflow"@)))
                        } else {
                            let id = (s.next_user_id + 1) as u64;
                            let u = UserView {
                                id: UserId(id),
                                name,
                                caps: c,
                                password_hash: None,
                            };
                            (
                                StoreView {
                                    next_user_id: id,
                                    tenants: s.tenants.update(
                                        i,
                                        TenantView { users: t.users.push(u), ..t },
                                    ),
                                    ..s
                                },
                                Ok(u),
                            )
                        },
                    }
                }
            },
        },
    }
}

/// What [`StoreState::remove_user`] does.
pub open spec fn user_removed(s: StoreView, tenant: TenantId, user: UserId) -> (
    StoreView,
    Result<(), ErrorView>,
) {
    match find_tenant(s.tenants, tenant) {
        None => (s, Err(ErrorView::Invalid("tenant id unknown"@))),
        Some(i) => {
            let t = s.tenants[i];
            (
                StoreView {
                    tenants: s.tenants.update(
                        i,
                        TenantView { users: without_user(t.users, user), ..t },
                    ),
                    sessions: kept(s.sessions, SessionMatch::OfUser(tenant, user)),
                    ..s
                },
                Ok(()),
            )
        },
    }
}

impl StoreState {
    /// An empty store.
    pub fn new() -> (r: StoreState)
        ensures
            r@ == (StoreView {
                next_tenant_id: 0,
                next_user_id: 0,
                tenants: Seq::empty(),
                sessions: Seq::empty(),
            }),
            r@.wf(),
    {
        let r = StoreState {
            next_tenant_id: 0,
            next_user_id: 0,
            tenants: Vec::new(),
            sessions: Vec::new(),
        };
        assert(r@.tenants =~= Seq::empty());
        assert(r@.sessions =~= Seq::empty());
        r
    }

    /// Position of a tenant, by id.
    pub fn position(&self, id: TenantId) -> (r: Option<usize>)
        ensures
            match r {
                Some(i) => find_tenant(self@.tenants, id) == Some(i as int) && i
                    < self.tenants@.len() && self.tenants@[i as int].id == id,
                None => find_tenant(self@.tenants, id) is None,
            },
    {
        let ghost keys = tenant_ids(self@.tenants);
        let mut i: usize = 0;
        while i < self.tenants.len()
            invariant
                i <= self.tenants@.len(),
                keys == tenant_ids(self@.tenants),
                forall|j: int| 0 <= j < i ==> keys[j] != id,
            decreases self.tenants@.len() - i,
        {
            if self.tenants[i].id == id {
                proof {
                    lemma_is_first(keys, id, i as int);
                }
                return Some(i);
            }
            i = i + 1;
        }
        proof {
            lemma_is_first(keys, id, i as int);
        }
        None
    }

    /// Position of a tenant, by name.
    pub fn position_by_name(&self, name: &str) -> (r: Option<usize>)
        ensures
            match r {
                Some(i) => find_name(self@.tenants, name@) == Some(i as int) && i
                    < self.tenants@.len(),
                None => find_name(self@.tenants, name@) is None,
            },
    {
        let ghost keys = tenant_names(self@.tenants);
        let mut i: usize = 0;
        while i < self.tenants.len()
            invariant
                i <= self.tenants@.len(),
                keys == tenant_names(self@.tenants),
                forall|j: int| 0 <= j < i ==> keys[j] != name@,
            decreases self.tenants@.len() - i,
        {
            if str_eq(self.tenants[i].name.as_str(), name) {
                proof {
                    lemma_is_first(keys, name@, i as int);
                }
                return Some(i);
            }
            i = i + 1;
        }
        proof {
            lemma_is_first(keys, name@, i as int);
        }
        None
    }

    /// Ends the sessions that `m` selects and counts them.
    pub(crate) fn drop_sessions(&mut self, m: &SessionMatch) -> (r: usize)
        ensures
            final(self)@ == (StoreView { sessions: kept(old(self)@.sessions, *m), ..old(self)@ }),
            final(self).tenants == old(self).tenants,
            r == old(self)@.sessions.len() - kept(old(self)@.sessions, *m).len(),
    {
        let ghost all = self@.sessions;
        let n: usize = self.sessions.len();
        let mut seen: usize = 0;
        let mut i: usize = 0;
        proof {
            assert(all.take(0) =~= Seq::empty());
            assert(Seq::<SessionView>::empty() + all.skip(0) =~= all);
        }
        while seen < n
            invariant
                n == all.len(),
                seen <= n,
                i == kept(all.take(seen as int), *m).len(),
                self@.sessions == kept(all.take(seen as int), *m) + all.skip(seen as int),
                self.next_tenant_id == old(self).next_tenant_id,
                self.next_user_id == old(self).next_user_id,
                self.tenants == old(self).tenants,
                i <= seen,
            decreases n - seen,
        {
            let ghost done = kept(all.take(seen as int), *m);
            let ghost now = self@.sessions;
            proof {
                assert(now.len() == done.len() + (n - seen));
                assert(now[i as int] == all[seen as int]);
                let t = all.take(seen + 1);
                assert(t.drop_last() =~= all.take(seen as int));
                assert(t.last() == all[seen as int]);
            }
            if m.hits(&self.sessions[i]) {
                self.sessions.remove(i);
                proof {
                    assert(self@.sessions =~= now.remove(i as int));
                    assert(now.remove(i as int) =~= done + all.skip(seen + 1));
                }
            } else {
                i = i + 1;
                assert(self@.sessions =~= done.push(all[seen as int]) + all.skip(seen + 1));
            }
            seen = seen + 1;
        }
        proof {
            assert(all.take(seen as int) =~= all);
            assert(all.skip(seen as int) =~= Seq::empty());
            assert(self@.sessions =~= kept(all, *m));
            lemma_kept_len(all, *m);
        }
        n - self.sessions.len()
    }

    /// Creates a tenant. A subtenant holds no more capabilities and no higher
    /// ceilings than its parent.
    pub fn create(&mut self, spec: TenantSpec, root_caps: TenantCaps) -> (r: CelResult<Tenant>)
        ensures
            final(self)@ == created(old(self)@, spec@, root_caps).0,
            error::result_view(r) == created(old(self)@, spec@, root_caps).1,
            old(self)@.wf() ==> final(self)@.wf(),
    {
        if self.position_by_name(spec.name.as_str()).is_some() {
            return Err(
                CelError::Storage(concat("tenant already exists: ", spec.name.as_str())),
            );
        }
        if let Some(parent_id) = spec.parent {
            match self.position(parent_id) {
                None => {
                    return Err(CelError::Invalid("parent tenant id unknown"));
                },
                Some(i) => {
                    if !self.tenants[i].root_caps.contains(root_caps) {
                        return Err(CelError::CapabilityDenied("subtenant caps exceed parent"));
                    }
                    if !spec.quotas.fits_in(&self.tenants[i].quotas) {
                        return Err(CelError::Invalid("subtenant quotas exceed parent quotas"));
                    }
                },
            }
        }
        if self.next_tenant_id == u64::MAX {
            return Err(CelError::Internal("tenant id overflow"));
        }
        let id_raw: u64 = self.next_tenant_id + 1;
        self.next_tenant_id = id_raw;
        let ns = match TenantNamespace::new(spec.name.as_str()) {
            Ok(ns) => ns,
            Err(e) => {
                return Err(e);
            },
        };
        let tenant = Tenant {
            id: TenantId(id_raw),
            name: spec.name,
            namespace: ns.root().to_owned(),
            root_caps,
            users: Vec::new(),
            quotas: spec.quotas,
            usage: QuotaUsage::default(),
            parent: spec.parent,
        };
        let copy = tenant.clone();
        assert(tenant@.users =~= Seq::empty());
        self.tenants.push(tenant);
        assert(self@.tenants =~= old(self)@.tenants.push(copy@));
        Ok(copy)
    }

    /// Looks a tenant up by id.
    pub fn get(&self, id: TenantId) -> (r: CelResult<Tenant>)
        ensures
            match find_tenant(self@.tenants, id) {
                Some(i) => r matches Ok(t) && t@ == self@.tenants[i],
                None => r == Err::<Tenant, CelError>(CelError::Invalid("tenant id unknown")),
            },
    {
        match self.position(id) {
            Some(i) => Ok(self.tenants[i].clone()),
            None => Err(CelError::Invalid("tenant id unknown")),
        }
    }

    /// Looks a tenant up by name.
    pub fn get_by_name(&self, name: &str) -> (r: CelResult<Tenant>)
        ensures
            match find_name(self@.tenants, name@) {
                Some(i) => r matches Ok(t) && t@ == self@.tenants[i],
                None => r == Err::<Tenant, CelError>(CelError::Invalid("tenant name unknown")),
            },
    {
        match self.position_by_name(name) {
            Some(i) => Ok(self.tenants[i].clone()),
            None => Err(CelError::Invalid("tenant name unknown")),
        }
    }

    /// Every tenant, by increasing id.
    pub fn list(&self) -> (r: Vec<Tenant>)
        ensures
            tenant_views(r@) == self@.tenants,
    {
        let mut out: Vec<Tenant> = Vec::new();
        let mut i: usize = 0;
        while i < self.tenants.len()
            invariant
                i <= self.tenants@.len(),
                out@.len() == i,
                forall|j: int| 0 <= j < i ==> (#[trigger] out@[j])@ == self.tenants@[j]@,
            decreases self.tenants@.len() - i,
        {
            out.push(self.tenants[i].clone());
            i = i + 1;
        }
        assert(tenant_views(out@) =~= self@.tenants);
        out
    }

    /// Deletes a tenant that has no subtenants and uses nothing.
    pub fn delete(&mut self, id: TenantId) -> (r: CelResult<()>)
        ensures
            final(self)@ == deleted(old(self)@, id).0,
            error::result_view(r) == deleted(old(self)@, id).1,
            old(self)@.wf() ==> final(self)@.wf(),
    {
        let at: usize = match self.position(id) {
            Some(i) => i,
            None => {
                return Err(CelError::Invalid("tenant id unknown"));
            },
        };
        let mut i: usize = 0;
        while i < self.tenants.len()
            invariant
                i <= self.tenants@.len(),
                at < self.tenants@.len(),
                self@ == old(self)@,
                self.tenants == old(self).tenants,
                find_tenant(self@.tenants, id) == Some(at as int),
                forall|j: int| 0 <= j < i ==> (#[trigger] self@.tenants[j]).parent != Some(id),
            decreases self.tenants@.len() - i,
        {
            if let Some(p) = self.tenants[i].parent {
                if p == id {
                    assert(self@.tenants[i as int].parent == Some(id));
                    return Err(CelError::Invalid("tenant has subtenants"));
                }
            }
            i = i + 1;
        }
        if self.tenants[at].usage != QuotaUsage::default() {
            return Err(CelError::Invalid("tenant in use"));
        }
        self.tenants.remove(at);
        assert(self@.tenants =~= old(self)@.tenants.remove(at as int));
        Ok(())
    }

    /// Adds a user to a tenant. The user holds what was asked for, provided
    /// that the tenant's root set holds it.
    pub fn add_user(
        &mut self,
        tenant: TenantId,
        user_name: String,
        requested_caps: TenantCaps,
    ) -> (r: CelResult<User>)
        ensures
            final(self)@ == user_added(old(self)@, tenant, user_name@, requested_caps).0,
            error::result_view(r) == user_added(
                old(self)@,
                tenant,
                user_name@,
                requested_caps,
            ).1,
            old(self)@.wf() ==> final(self)@.wf(),
    {
        if let Err(e) = validate_segment(user_name.as_str()) {
            return Err(e);
        }
        let at: usize = match self.position(tenant) {
            Some(i) => i,
            None => {
                return Err(CelError::Invalid("tenant id unknown"));
            },
        };
        if position_of_user_name(&self.tenants[at].users, user_name.as_str()).is_some() {
            return Err(CelError::Storage(concat("user already exists: ", user_name.as_str())));
        }
        let caps = match caps::attenuate(self.tenants[at].root_caps, requested_caps) {
            Ok(c) => c,
            Err(e) => {
                return Err(e);
            },
        };
        if self.next_user_id == u64::MAX {
            return Err(CelError::Internal("user id overflow"));
        }
        let id_raw: u64 = self.next_user_id + 1;
        self.next_user_id = id_raw;
        let user = User { id: UserId(id_raw), name: user_name, caps, password_hash: None };
        let copy = user.clone();
        self.tenants[at].users.push(user);
        proof {
            let t = old(self)@.tenants[at as int];
            assert(self@.tenants[at as int].users =~= t.users.push(copy@));
            assert(self@.tenants =~= old(self)@.tenants.update(
                at as int,
                TenantView { users: t.users.push(copy@), ..t },
            ));
        }
        Ok(copy)
    }

    /// Removes a user, with the user's sessions. A user that does not exist is
    /// no error.
    pub fn remove_user(&mut self, tenant: TenantId, user: UserId) -> (r: CelResult<()>)
        ensures
            final(self)@ == user_removed(old(self)@, tenant, user).0,
            error::result_view(r) == user_removed(old(self)@, tenant, user).1,
            old(self)@.wf() ==> final(self)@.wf(),
    {
        let at: usize = match self.position(tenant) {
            Some(i) => i,
            None => {
                return Err(CelError::Invalid("tenant id unknown"));
            },
        };
        drop_user(&mut self.tenants[at].users, user);
        proof {
            let t = old(self)@.tenants[at as int];
            assert(self@.tenants =~= old(self)@.tenants.update(
                at as int,
                TenantView { users: without_user(t.users, user), ..t },
            ));
        }
        let _n: usize = self.drop_sessions(&SessionMatch::OfUser(tenant, user));
        Ok(())
    }
}

/// Position of a user, by id.
pub(crate) fn position_of_user(users: &Vec<User>, id: UserId) -> (r: Option<usize>)
    ensures
        match r {
            Some(i) => find_user(tenant::user_views(users@), id) == Some(i as int) && i
                < users@.len(),
            None => find_user(tenant::user_views(users@), id) is None,
        },
{
    let ghost keys = user_ids(tenant::user_views(users@));
    let mut i: usize = 0;
    while i < users.len()
        invariant
            i <= users@.len(),
            keys == user_ids(tenant::user_views(users@)),
            forall|j: int| 0 <= j < i ==> keys[j] != id,
        decreases users@.len() - i,
    {
        if users[i].id == id {
            proof {
                lemma_is_first(keys, id, i as int);
            }
            return Some(i);
        }
        i = i + 1;
    }
    proof {
        lemma_is_first(keys, id, i as int);
    }
    None
}

/// Position of a user, by name.
pub(crate) fn position_of_user_name(users: &Vec<User>, name: &str) -> (r: Option<usize>)
    ensures
        match r {
            Some(i) => find_user_name(tenant::user_views(users@), name@) == Some(i as int) && i
                < users@.len(),
            None => find_user_name(tenant::user_views(users@), name@) is None,
        },
{
    let ghost keys = user_names(tenant::user_views(users@));
    let mut i: usize = 0;
    while i < users.len()
        invariant
            i <= users@.len(),
            keys == user_names(tenant::user_views(users@)),
            forall|j: int| 0 <= j < i ==> keys[j] != name@,
        decreases users@.len() - i,
    {
        if str_eq(users[i].name.as_str(), name) {
            proof {
                lemma_is_first(keys, name@, i as int);
            }
            return Some(i);
        }
        i = i + 1;
    }
    proof {
        lemma_is_first(keys, name@, i as int);
    }
    None
}

/// Removes the users with a given id.
fn drop_user(users: &mut Vec<User>, id: UserId)
    ensures
        tenant::user_views(final(users)@) == without_user(tenant::user_views(old(users)@), id),
{
    let ghost all = tenant::user_views(users@);
    let n: usize = users.len();
    let mut seen: usize = 0;
    let mut i: usize = 0;
    proof {
        assert(all.take(0) =~= Seq::empty());
        assert(Seq::<UserView>::empty() + all.skip(0) =~= all);
    }
    while seen < n
        invariant
            n == all.len(),
            i <= seen <= n,
            i == without_user(all.take(seen as int), id).len(),
            tenant::user_views(users@) == without_user(all.take(seen as int), id) + all.skip(
                seen as int,
            ),
        decreases n - seen,
    {
        let ghost done = without_user(all.take(seen as int), id);
        let ghost now = tenant::user_views(users@);
        proof {
            assert(now.len() == done.len() + (n - seen));
            assert(now[i as int] == all[seen as int]);
            let t = all.take(seen + 1);
            assert(t.drop_last() =~= all.take(seen as int));
            assert(t.last() == all[seen as int]);
        }
        if users[i].id == id {
            users.remove(i);
            proof {
                assert(tenant::user_views(users@) =~= now.remove(i as int));
                assert(now.remove(i as int) =~= done + all.skip(seen + 1));
            }
        } else {
            i = i + 1;
            assert(tenant::user_views(users@) =~= done.push(all[seen as int]) + all.skip(seen + 1));
        }
        seen = seen + 1;
    }
    proof {
        assert(all.take(seen as int) =~= all);
        assert(all.skip(seen as int) =~= Seq::empty());
        assert(tenant::user_views(users@) =~= without_user(all, id));
    }
}

} // verus!
