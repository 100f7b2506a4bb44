//! What holds of a tenant store over any run of its operations.

use vstd::prelude::*;

use crate::tenancy::auth::TokenHash;
use crate::tenancy::caps::TenantCaps;
use crate::tenancy::hierarchy;
use crate::tenancy::namespace;
use crate::tenancy::quota;
use crate::tenancy::quota::QuotaCharge;
use crate::tenancy::session;
use crate::tenancy::store;
use crate::tenancy::store::{SessionMatch, StoreView};
use crate::tenancy::store_laws;
use crate::tenancy::tenant::{TenantId, TenantSpecView};
use crate::tenancy::user::UserId;

verus! {

/// An operation that changes a tenant store, with all that decides about its
/// outcome.
pub enum StoreOp {
    /// `create` and `create_subtenant`.
    Create(TenantSpecView, TenantCaps),
    /// `delete`.
    Delete(TenantId),
    /// `delete_tenant_recursive`.
    DeleteRecursive(TenantId),
    /// `add_user`.
    AddUser(TenantId, Seq<char>, TenantCaps),
    /// `remove_user`.
    RemoveUser(TenantId, UserId),
    /// `store_password`, and `set_password` once the password is hashed.
    StorePassword(TenantId, UserId, Seq<char>),
    /// `create_session` and `create_session_with`.
    CreateSession(TenantId, UserId, TenantCaps, Option<u64>, TokenHash, u64),
    /// `revoke_token`, `purge_expired_sessions` and `purge_expired_at`.
    EndSessions(SessionMatch),
    /// `revoke_user_sessions` and `revoke_tenant_sessions`.
    RevokeSessions(TenantId, SessionMatch),
    /// `rotate_root_caps`.
    RotateCaps(TenantId, TenantCaps),
    /// `charge`.
    Charge(TenantId, QuotaCharge),
    /// `release`.
    Release(TenantId, QuotaCharge),
}

/// A store after one operation.
pub open spec fn after(s: StoreView, op: StoreOp) -> StoreView {
    match op {
        StoreOp::Create(spec, caps) => store::created(s, spec, caps).0,
        StoreOp::Delete(id) => store::deleted(s, id).0,
        StoreOp::DeleteRecursive(id) => hierarchy::subtree_deleted(s, id).0,
        StoreOp::AddUser(tenant, name, caps) => store::user_added(s, tenant, name, caps).0,
        StoreOp::RemoveUser(tenant, user) => store::user_removed(s, tenant, user).0,
        StoreOp::StorePassword(tenant, user, phc) => session::password_stored(
            s,
            tenant,
            user,
            phc,
        ).0,
        StoreOp::CreateSession(tenant, user, caps, ttl, hash, now) => session::session_created(
            s,
            tenant,
            user,
            caps,
            ttl,
            hash,
            now,
        ).0,
        StoreOp::EndSessions(m) => StoreView { sessions: store::kept(s.sessions, m), ..s },
        StoreOp::RevokeSessions(tenant, m) => session::sessions_revoked(s, tenant, m).0,
        StoreOp::RotateCaps(tenant, caps) => session::caps_rotated(s, tenant, caps).0,
        StoreOp::Charge(tenant, c) => hierarchy::store_charged(s, tenant, c).0,
        StoreOp::Release(tenant, c) => hierarchy::store_released(s, tenant, c).0,
    }
}

/// A store after a run of operations.
pub open spec fn ran(s: StoreView, ops: Seq<StoreOp>) -> StoreView
    decreases ops.len(),
{
    if ops.len() == 0 {
        s
    } else {
        after(ran(s, ops.drop_last()), ops.last())
    }
}

/// Whatever is done to a sound store, it stays sound.
pub proof fn law_every_run_keeps_sound(s: StoreView, ops: Seq<StoreOp>)
    requires
        store_laws::sound(s),
    ensures
        store_laws::sound(ran(s, ops)),
    decreases ops.len(),
{
    if ops.len() > 0 {
        law_every_run_keeps_sound(s, ops.drop_last());
        let p = ran(s, ops.drop_last());
        match ops.last() {
            StoreOp::Create(spec, caps) => store_laws::law_create(p, spec, caps),
            StoreOp::Delete(id) => store_laws::law_delete(p, id),
            StoreOp::DeleteRecursive(id) => store_laws::law_delete_recursive(p, id),
            StoreOp::AddUser(tenant, name, caps) => store_laws::law_add_user(
                p,
                tenant,
                name,
                caps,
            ),
            StoreOp::RemoveUser(tenant, user) => {
                if store::find_tenant(p.tenants, tenant) is Some {
                    store_laws::law_remove_user(p, tenant, user);
                }
            },
            StoreOp::StorePassword(tenant, user, phc) => store_laws::law_set_password(
                p,
                tenant,
                user,
                phc,
            ),
            StoreOp::CreateSession(tenant, user, caps, ttl, hash, now) => {
                store_laws::law_create_session(p, tenant, user, caps, ttl, hash, now, now);
            },
            StoreOp::EndSessions(m) => store_laws::law_revoking_keeps_sound(p, m),
            StoreOp::RevokeSessions(_, m) => store_laws::law_revoking_keeps_sound(p, m),
            StoreOp::RotateCaps(tenant, caps) => store_laws::law_rotate(p, tenant, caps),
            StoreOp::Charge(tenant, c) => store_laws::law_charge(p, tenant, c),
            StoreOp::Release(tenant, c) => store_laws::law_release(p, tenant, c),
        }
    }
}

/// The counters that ids are drawn from never fall, whatever is done.
pub proof fn law_counters_never_fall(s: StoreView, ops: Seq<StoreOp>)
    ensures
        s.next_tenant_id <= ran(s, ops).next_tenant_id,
        s.next_user_id <= ran(s, ops).next_user_id,
    decreases ops.len(),
{
    if ops.len() > 0 {
        law_counters_never_fall(s, ops.drop_last());
    }
}

/// Tenants that are created one after the other, with anything done between,
/// get growing ids: an id never comes back, not even once its tenant is gone.
/// The later one starts in its own namespace, without users and without usage.
pub proof fn law_tenant_ids_grow(
    s: StoreView,
    first: TenantSpecView,
    first_caps: TenantCaps,
    ops: Seq<StoreOp>,
    second: TenantSpecView,
    second_caps: TenantCaps,
)
    requires
        store::created(s, first, first_caps).1 is Ok,
        store::created(
            ran(store::created(s, first, first_caps).0, ops),
            second,
            second_caps,
        ).1 is Ok,
    ensures
        ({
            let one = store::created(s, first, first_caps);
            let two = store::created(ran(one.0, ops), second, second_caps).1->Ok_0;
            &&& two.id.0 > one.1->Ok_0.id.0
            &&& two.name == second.name
            &&& two.namespace == namespace::root_path(second.name)
            &&& two.users.len() == 0
            &&& two.usage == quota::no_usage()
        }),
{
    law_counters_never_fall(store::created(s, first, first_caps).0, ops);
}

/// Users that are added one after the other, to whatever tenants and with
/// anything done between, get growing ids.
pub proof fn law_user_ids_grow(
    s: StoreView,
    first: (TenantId, Seq<char>, TenantCaps),
    ops: Seq<StoreOp>,
    second: (TenantId, Seq<char>, TenantCaps),
)
    requires
        store::user_added(s, first.0, first.1, first.2).1 is Ok,
        store::user_added(
            ran(store::user_added(s, first.0, first.1, first.2).0, ops),
            second.0,
            second.1,
            second.2,
        ).1 is Ok,
    ensures
        ({
            let one = store::user_added(s, first.0, first.1, first.2);
            let two = store::user_added(ran(one.0, ops), second.0, second.1, second.2).1->Ok_0;
            two.id.0 > one.1->Ok_0.id.0
        }),
{
    law_counters_never_fall(store::user_added(s, first.0, first.1, first.2).0, ops);
}

} // verus!
