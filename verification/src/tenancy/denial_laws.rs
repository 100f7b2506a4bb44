//! What holds of what is denied and of what ends: why a request is refused and in
//! which words, which sessions end when, and which tokens and logs are read.

use vstd::prelude::*;
use vstd::string::*;
use vstd::utf8::*;

use crate::error::{CelError, CelResult, ErrorView};
use crate::tenancy::audit;
use crate::tenancy::auth;
use crate::tenancy::auth::{Session, SessionToken, TokenHash};
use crate::tenancy::caps;
use crate::tenancy::caps::TenantCaps;
use crate::tenancy::entitlements;
use crate::tenancy::family_laws;
use crate::tenancy::hierarchy;
use crate::tenancy::namespace;
use crate::tenancy::quota;
use crate::tenancy::quota::{QuotaCharge, QuotaUsage, TenantQuotas};
use crate::tenancy::session;
use crate::tenancy::store;
use crate::tenancy::store::StoreView;
use crate::tenancy::store_laws;
use crate::tenancy::tenant::{TenantId, TenantSpecView, TenantView};
use crate::tenancy::user::UserId;
use crate::text;

verus! {

/// Why a name is refused: it is empty, longer than 64 bytes, or holds something
/// else than letters, digits, dashes and underscores.
pub proof fn law_refused_names(name: Seq<char>)
    ensures
        name.len() == 0 ==> namespace::validated(name) == Err::<(), CelError>(
            CelError::Invalid("tenancy: name empty"),
        ),
        name.len() > 0 && encode_utf8(name).len() > 64 ==> namespace::validated(name) == Err::<
            (),
            CelError,
        >(CelError::Invalid("tenancy: name longer than 64 bytes")),
        name.len() > 0 && encode_utf8(name).len() <= 64 && !entitlements::is_name(encode_utf8(name))
            ==> namespace::validated(name) == Err::<(), CelError>(
            CelError::Invalid("tenancy: name must match [A-Za-z0-9_-]+"),
        ),
{
    entitlements::law_names(name);
}

/// Why a charge is refused: the first of vCPUs, memory, storage, network and
/// operations that it would take past its ceiling.
pub proof fn law_refused_charges(u: QuotaUsage, q: TenantQuotas, c: QuotaCharge)
    ensures
        ({
            let r = quota::charged(u, q, c);
            let a = entitlements::sum_to(u.vcpus as int, c.vcpus as int, 0xFFFF_FFFF)
                > q.max_vcpus;
            let b = entitlements::sum_to(
                u.memory_mib as int,
                c.memory_mib as int,
                0xFFFF_FFFF_FFFF_FFFF,
            ) > q.max_memory_mib;
            let d = entitlements::sum_to(
                u.storage_bytes as int,
                c.storage_bytes as int,
                0xFFFF_FFFF_FFFF_FFFF,
            ) > q.max_storage_bytes;
            let e = entitlements::sum_to(
                u.network_mbps as int,
                c.network_mbps as int,
                0xFFFF_FFFF,
            ) > q.max_network_mbps;
            let f = entitlements::sum_to(u.iops as int, c.iops as int, 0xFFFF_FFFF) > q.max_iops;
            &&& a ==> r == Err::<QuotaUsage, CelError>(CelError::Exhausted("quota.vcpus"))
            &&& !a && b ==> r == Err::<QuotaUsage, CelError>(CelError::Exhausted("quota.memory"))
            &&& !a && !b && d ==> r == Err::<QuotaUsage, CelError>(
                CelError::Exhausted("quota.storage"),
            )
            &&& !a && !b && !d && e ==> r == Err::<QuotaUsage, CelError>(
                CelError::Exhausted("quota.network"),
            )
            &&& !a && !b && !d && !e && f ==> r == Err::<QuotaUsage, CelError>(
                CelError::Exhausted("quota.iops"),
            )
            &&& !a && !b && !d && !e && !f ==> r is Ok
        }),
{
}

proof fn lemma_named_at(ts: Seq<TenantView>, name: Seq<char>)
    ensures
        store::find_name(ts, name) is Some <==> exists|i: int|
            0 <= i < ts.len() && (#[trigger] ts[i]).name == name,
{
    let names = store::tenant_names(ts);
    store::lemma_first_at(names, name, 0);
    if let Some(k) = store::find_name(ts, name) {
        assert(names[k] == ts[k].name);
    }
    if exists|i: int| 0 <= i < ts.len() && (#[trigger] ts[i]).name == name {
        let i = choose|i: int| 0 <= i < ts.len() && (#[trigger] ts[i]).name == name;
        assert(names[i] == name);
    }
}

/// Why a tenant is not created: its name is taken, its parent is unknown, or its
/// parent does not hold the capabilities or the ceilings that it asks for.
pub proof fn law_refused_tenants(s: StoreView, spec: TenantSpecView, root_caps: TenantCaps)
    ensures
        ({
            let r = store::created(s, spec, root_caps).1;
            let taken = exists|i: int|
                0 <= i < s.tenants.len() && (#[trigger] s.tenants[i]).name == spec.name;
            &&& taken ==> r == Err::<TenantView, ErrorView>(
                ErrorView::Storage("tenant already exists: "@ + spec.name),
            )
            &&& !taken ==> (spec.parent matches Some(p) ==> {
                &&& (forall|i: int| 0 <= i < s.tenants.len() ==> (#[trigger] s.tenants[i]).id != p)
                    ==> r == Err::<TenantView, ErrorView>(
                    ErrorView::Invalid("parent tenant id unknown"@),
                )
                &&& forall|i: int|
                    0 <= i < s.tenants.len() && (#[trigger] s.tenants[i]).id == p && s.wf() ==> (
                    !s.tenants[i].root_caps.includes(root_caps) ==> r == Err::<
                        TenantView,
                        ErrorView,
                    >(ErrorView::CapabilityDenied("subtenant caps exceed parent"@))) && (
                    s.tenants[i].root_caps.includes(root_caps) && (spec.quotas.max_vcpus
                        > s.tenants[i].quotas.max_vcpus || spec.quotas.max_memory_mib
                        > s.tenants[i].quotas.max_memory_mib || spec.quotas.max_storage_bytes
                        > s.tenants[i].quotas.max_storage_bytes || spec.quotas.max_network_mbps
                        > s.tenants[i].quotas.max_network_mbps || spec.quotas.max_iops
                        > s.tenants[i].quotas.max_iops) ==> r == Err::<TenantView, ErrorView>(
                        ErrorView::Invalid("subtenant quotas exceed parent quotas"@),
                    ))
            })
            &&& !taken && spec.parent is None && s.next_tenant_id == u64::MAX ==> r == Err::<
                TenantView,
                ErrorView,
            >(ErrorView::Internal("tenant id overflow"@))
        }),
{
    lemma_named_at(s.tenants, spec.name);
    if let Some(p) = spec.parent {
        store_laws::lemma_found(s.tenants, p);
        assert forall|i: int|
            0 <= i < s.tenants.len() && (#[trigger] s.tenants[i]).id == p
                && s.wf() implies store::find_tenant(s.tenants, p) == Some(i) by {
            store_laws::lemma_find(s.tenants, i);
        }
    }
}

/// Why a tenant is not deleted: it is unknown, it has subtenants, or it uses
/// something.
pub proof fn law_refused_deletions(s: StoreView, i: int)
    requires
        store_laws::sound(s),
        0 <= i < s.tenants.len(),
    ensures
        ({
            let t = s.tenants[i];
            let r = store::deleted(s, t.id).1;
            let parent = exists|j: int|
                0 <= j < s.tenants.len() && (#[trigger] s.tenants[j]).parent == Some(t.id);
            &&& parent ==> r == Err::<(), ErrorView>(ErrorView::Invalid("tenant has subtenants"@))
            &&& !parent && family_laws::in_use(t) ==> r == Err::<(), ErrorView>(
                ErrorView::Invalid("tenant in use"@),
            )
            &&& !parent && !family_laws::in_use(t) ==> r is Ok
        }),
{
    store_laws::lemma_find(s.tenants, i);
    let t = s.tenants[i];
    if !family_laws::in_use(t) {
        assert(t.usage == quota::no_usage());
    }
}

/// Who is unknown is told so, whatever is asked: a tenant by its number, and then
/// a user by theirs. Nothing changes.
pub proof fn law_unknown(
    s: StoreView,
    tenant: TenantId,
    user: UserId,
    requested: TenantCaps,
    ttl: Option<u64>,
    hash: TokenHash,
    now: u64,
    phc: Seq<char>,
)
    requires
        forall|i: int| 0 <= i < s.tenants.len() ==> (#[trigger] s.tenants[i]).id != tenant,
    ensures
        store::deleted(s, tenant) == (s, unknown_tenant::<()>()),
        store::user_removed(s, tenant, user) == (s, unknown_tenant::<()>()),
        session::password_stored(s, tenant, user, phc) == (s, unknown_tenant::<()>()),
        session::session_created(s, tenant, user, requested, ttl, hash, now) == (
            s,
            unknown_tenant::<auth::SessionView>(),
        ),
        session::user_revoked(s, tenant, user) == (s, unknown_tenant::<int>()),
        session::tenant_revoked(s, tenant) == (s, unknown_tenant::<int>()),
        session::caps_rotated(s, tenant, requested) == (
            s,
            unknown_tenant::<session::RotateReportView>(),
        ),
        hierarchy::subtree_deleted(s, tenant) == (
            s,
            unknown_tenant::<hierarchy::DeleteReportView>(),
        ),
        hierarchy::ancestors_of(s.tenants, tenant) == unknown_tenant::<Seq<TenantView>>(),
        hierarchy::chain_of(s.tenants, Some(tenant), 0) == unknown_tenant::<Seq<int>>(),
{
    store_laws::lemma_found(s.tenants, tenant);
}

/// What is said of a tenant that is unknown.
pub open spec fn unknown_tenant<T>() -> Result<T, ErrorView> {
    Err(ErrorView::Invalid("tenant id unknown"@))
}

/// A user that the tenant does not have gets no password and no session.
pub proof fn law_unknown_user(
    s: StoreView,
    i: int,
    user: UserId,
    requested: TenantCaps,
    ttl: Option<u64>,
    hash: TokenHash,
    now: u64,
    phc: Seq<char>,
)
    requires
        store_laws::sound(s),
        0 <= i < s.tenants.len(),
        forall|j: int|
            0 <= j < s.tenants[i].users.len() ==> (#[trigger] s.tenants[i].users[j]).id != user,
    ensures
        session::password_stored(s, s.tenants[i].id, user, phc) == (
            s,
            Err::<(), ErrorView>(ErrorView::Invalid("user id unknown"@)),
        ),
        session::session_created(s, s.tenants[i].id, user, requested, ttl, hash, now) == (
            s,
            Err::<auth::SessionView, ErrorView>(ErrorView::Invalid("user id unknown"@)),
        ),
{
    store_laws::lemma_find(s.tenants, i);
    let us = s.tenants[i].users;
    let ids = store::user_ids(us);
    store::lemma_first_at(ids, user, 0);
    if let Some(k) = store::find_user(us, user) {
        assert(ids[k] == us[k].id);
    }
}

/// Why a user is not added: the name is no name or is taken, or the tenant does
/// not hold every capability that is asked for.
pub proof fn law_refused_users(s: StoreView, i: int, name: Seq<char>, requested: TenantCaps)
    requires
        store_laws::sound(s),
        0 <= i < s.tenants.len(),
        entitlements::is_name(encode_utf8(name)),
    ensures
        ({
            let t = s.tenants[i];
            let r = store::user_added(s, t.id, name, requested).1;
            let taken = exists|j: int|
                0 <= j < t.users.len() && (#[trigger] t.users[j]).name == name;
            &&& taken ==> r == Err::<crate::tenancy::user::UserView, ErrorView>(
                ErrorView::Storage("user already exists: "@ + name),
            )
            &&& !taken && !t.root_caps.includes(requested) ==> r == Err::<
                crate::tenancy::user::UserView,
                ErrorView,
            >(ErrorView::CapabilityDenied("tenant.user.attenuate"@))
            &&& !taken && t.root_caps.includes(requested) && s.next_user_id == u64::MAX ==> r
                == Err::<crate::tenancy::user::UserView, ErrorView>(
                ErrorView::Internal("user id overflow"@),
            )
        }),
{
    entitlements::law_names(name);
    let t = s.tenants[i];
    store_laws::lemma_find(s.tenants, i);
    let names = store::user_names(t.users);
    store::lemma_first_at(names, name, 0);
    if let Some(k) = store::find_user_name(t.users, name) {
        assert(names[k] == t.users[k].name);
    }
    if exists|j: int| 0 <= j < t.users.len() && (#[trigger] t.users[j]).name == name {
        let j = choose|j: int| 0 <= j < t.users.len() && (#[trigger] t.users[j]).name == name;
        assert(names[j] == name);
    }
}

/// A subtenant is never given a capability that its parent does not hold; one that
/// holds it all is given what is asked for.
pub proof fn law_refused_rotations(s: StoreView, i: int, k: int, new_caps: TenantCaps)
    requires
        store_laws::sound(s),
        0 <= i < s.tenants.len(),
        0 <= k < s.tenants.len(),
        s.tenants[i].parent == Some(s.tenants[k].id),
    ensures
        ({
            let (n, r) = session::caps_rotated(s, s.tenants[i].id, new_caps);
            &&& !s.tenants[k].root_caps.includes(new_caps) ==> n == s && r == Err::<
                session::RotateReportView,
                ErrorView,
            >(ErrorView::CapabilityDenied("rotated caps exceed parent"@))
            &&& s.tenants[k].root_caps.includes(new_caps) ==> (r matches Ok(q) && q.tenant
                == s.tenants[i].id && q.tenant_name == s.tenants[i].name && q.old_caps
                == s.tenants[i].root_caps && q.new_caps == new_caps && q.revoked_sessions
                == s.sessions.len() - n.sessions.len())
        }),
{
    store_laws::lemma_find(s.tenants, i);
    store_laws::lemma_find(s.tenants, k);
}

/// Text that stands for no capability is refused as a whole.
pub proof fn law_refused_tags(s: Seq<char>)
    ensures
        caps::parsed_tags(s) is Err ==> caps::parsed_tags(s) == Err::<TenantCaps, CelError>(
            CelError::Invalid("tenant cap tag"),
        ),
{
}

/// Which sessions end. Those of a user, of a tenant, of a token, and those that
/// are over, and no others; how many, the caller is told. No tenant changes.
pub proof fn law_which_sessions_end(
    s: StoreView,
    i: int,
    user: UserId,
    h: TokenHash,
    now: u64,
    k: int,
)
    requires
        store_laws::sound(s),
        0 <= i < s.tenants.len(),
        0 <= k < s.sessions.len(),
    ensures
        ({
            let t = s.tenants[i].id;
            let x = s.sessions[k];
            let (a, ra) = session::user_revoked(s, t, user);
            let (b, rb) = session::tenant_revoked(s, t);
            let c = session::token_dropped(s, h);
            let d = session::purged(s, now);
            &&& a.sessions.contains(x) <==> !(x.tenant == t && x.user == user)
            &&& b.sessions.contains(x) <==> x.tenant != t
            &&& c.sessions.contains(x) <==> x.token_hash != h@
            &&& d.sessions.contains(x) <==> now < x.expires_ms
            &&& ra == Ok::<int, ErrorView>(s.sessions.len() - a.sessions.len())
            &&& rb == Ok::<int, ErrorView>(s.sessions.len() - b.sessions.len())
            &&& a.tenants == s.tenants && b.tenants == s.tenants && c.tenants == s.tenants
                && d.tenants == s.tenants
        }),
{
    store_laws::lemma_find(s.tenants, i);
    assert(s.sessions.contains(s.sessions[k]));
    entitlements::law_sessions_end(s.sessions, s.sessions[k], now, s.tenants[i].id, user, h);
}

/// A token is good for its own session until that is over; any other is refused,
/// always in the same words.
pub proof fn law_tokens(s: StoreView, token: Seq<char>, now: u64, r: CelResult<Session>)
    requires
        store_laws::sound(s),
        session::checked(s, token, now, r),
    ensures
        r is Ok <==> exists|k: int|
            0 <= k < s.sessions.len() && (#[trigger] s.sessions[k]).token_hash
                == auth::sha256_digest(encode_utf8(token)) && now < s.sessions[k].expires_ms,
        r matches Ok(x) ==> s.sessions.contains(x@) && x@.token_hash == auth::sha256_digest(
            encode_utf8(token),
        ) && now < x@.expires_ms,
        r is Err ==> r == Err::<Session, CelError>(CelError::CapabilityDenied("auth.session")),
{
    entitlements::law_token_is_good_until_the_end(s, auth::token_fingerprint(token), now);
    if r is Ok {
        let x = r->Ok_0@;
        let k = choose|k: int| 0 <= k < s.sessions.len() && s.sessions[k] == x;
        assert(s.sessions[k].token_hash == auth::token_fingerprint(token));
    }
}

/// The number that a hexadecimal digit stands for, in either case.
pub open spec fn digit_of(b: int) -> int {
    if '0' as int <= b <= '9' as int {
        b - '0' as int
    } else if 'a' as int <= b <= 'f' as int {
        b - 'a' as int + 10
    } else if 'A' as int <= b <= 'F' as int {
        b - 'A' as int + 10
    } else {
        -1
    }
}

/// A token is read from 64 hexadecimal digits of either case, and from nothing
/// else. It keeps the value of each digit, in lower case.
pub proof fn law_tokens_are_read(bytes: Seq<u8>, r: CelResult<SessionToken>)
    requires
        auth::token_read(bytes, r),
    ensures
        r is Ok <==> bytes.len() == 64 && forall|i: int|
            0 <= i < bytes.len() ==> digit_of(#[trigger] bytes[i] as int) >= 0,
        r matches Ok(t) ==> t@.len() == 64 && forall|i: int|
            0 <= i < 64 ==> digit_of(#[trigger] t@[i] as int) == digit_of(bytes[i] as int)
                && !('A' <= t@[i] <= 'F'),
        r is Err ==> r == Err::<SessionToken, CelError>(CelError::Invalid("token format")),
{
    if r is Ok {
        assert forall|i: int| 0 <= i < bytes.len() implies digit_of(#[trigger] bytes[i] as int)
            >= 0 by {
            assert(auth::hex_value(bytes[i]) is Some);
        }
    }
    if bytes.len() == 64 && forall|i: int|
        0 <= i < bytes.len() ==> digit_of(#[trigger] bytes[i] as int) >= 0 {
        assert(auth::all_hex(bytes)) by {
            assert forall|i: int| 0 <= i < bytes.len() implies auth::hex_value(
                #[trigger] bytes[i],
            ) is Some by {
                assert(digit_of(bytes[i] as int) >= 0);
            }
        }
    }
}

/// A password hash whose degree of parallelism has nine digits or more is never
/// accepted; where none has, the password decides.
pub proof fn law_wide_hashes(plain: Seq<char>, head: Seq<char>, digits: Seq<char>, rest: Seq<char>)
    requires
        digits.len() >= 9,
        forall|i: int| 0 <= i < digits.len() ==> '0' <= #[trigger] digits[i] <= '9',
    ensures
        auth::verified(plain, head + seq!['p', '='] + digits + rest) == Err::<(), CelError>(
            CelError::CapabilityDenied("auth.credentials"),
        ),
        !head.contains('p') ==> (auth::verified(plain, head) is Ok <==> auth::argon2_accepts(
            plain,
            head,
        )),
{
    let phc = head + seq!['p', '='] + digits + rest;
    let at = head.len() as int;
    assert(auth::wide_at(phc, at)) by {
        assert forall|k: int| at + 2 <= k < at + 11 implies '0' <= #[trigger] phc[k] <= '9' by {
            assert(phc[k] == digits[k - at - 2]);
        }
    }
    if !head.contains('p') {
        assert forall|a: int| !#[trigger] auth::wide_at(head, a) by {
            if auth::wide_at(head, a) {
                assert(head.contains(head[a]));
            }
        }
    }
}

proof fn lemma_log_lines(ps: Seq<Seq<char>>, qs: Seq<Seq<char>>)
    ensures
        audit::log_lines(ps + qs) == audit::log_lines(ps) + audit::log_lines(qs),
    decreases qs.len(),
{
    if qs.len() == 0 {
        assert(ps + qs =~= ps);
        assert(audit::log_lines(ps) + audit::log_lines(qs) =~= audit::log_lines(ps));
    } else {
        lemma_log_lines(ps, qs.drop_last());
        assert((ps + qs).drop_last() =~= ps + qs.drop_last());
        assert((ps + qs).last() == qs.last());
        assert(audit::log_lines(ps + qs) =~= audit::log_lines(ps) + audit::log_lines(qs));
    }
}

/// A line that is written at the end of a log is the last that is read from it,
/// without the white space round it; a blank line is not read. The lines before
/// it stay as they were.
pub proof fn law_log_lines(log: Seq<char>, line: Seq<char>)
    requires
        !line.contains('\n'),
    ensures
        ({
            let before = audit::log_lines(text::split_on(log, '\n'));
            let after = audit::log_lines(text::split_on(log.push('\n') + line, '\n'));
            let bare = text::trimmed(line);
            &&& bare.len() > 0 ==> after == before.push(bare)
            &&& bare.len() == 0 ==> after == before
        }),
{
    text::law_split_at(log, line, '\n');
    text::lemma_split_nonempty(line, '\n');
    text::law_pieces(line, '\n', 0);
    let one = seq![line];
    lemma_log_lines(text::split_on(log, '\n'), one);
    assert(one.drop_last() =~= Seq::<Seq<char>>::empty());
    assert(audit::log_lines(one.drop_last()) =~= Seq::<Seq<char>>::empty());
    let before = audit::log_lines(text::split_on(log, '\n'));
    let bare = text::trimmed(line);
    if bare.len() > 0 {
        assert(audit::log_lines(one) =~= seq![bare]);
        assert(before + seq![bare] =~= before.push(bare));
    } else {
        assert(audit::log_lines(one) =~= Seq::<Seq<char>>::empty());
        assert(before + Seq::<Seq<char>>::empty() =~= before);
    }
}

} // verus!
