//! Passwords, logins, sessions and the rotation of a tenant's capabilities.

use vstd::prelude::*;

use crate::error;
use crate::error::{CelError, CelResult, ErrorView};
use crate::tenancy::auth;
use crate::tenancy::auth::{
    hash_password, hash_token, mint_token, now_ms, verify_password, PasswordHashStr, Session,
    SessionToken, SessionView, TokenHash, DEFAULT_SESSION_TTL_SECS, TOKEN_BYTES, TOKEN_HEX_LEN,
};
use crate::tenancy::caps::TenantCaps;
use crate::tenancy::store;
use crate::tenancy::store::{
    position_of_user, position_of_user_name, SessionMatch, StoreState, StoreView,
};
use crate::tenancy::tenant;
use crate::tenancy::tenant::{TenantId, TenantView};
use crate::tenancy::user::{User, UserId, UserView};
use crate::text;

verus! {

/// What [`StoreState::store_password`] does: the user gets the hash and loses
/// every session.
pub open spec fn password_stored(s: StoreView, tenant: TenantId, user: UserId, phc: Seq<char>) -> (
    StoreView,
    Result<(), ErrorView>,
) {
    match store::find_tenant(s.tenants, tenant) {
        None => (s, Err(ErrorView::Invalid("tenant id unknown"@))),
        Some(i) => {
            let t = s.tenants[i];
            match store::find_user(t.users, user) {
                None => (s, Err(ErrorView::Invalid("user id unknown"@))),
                Some(j) => {
                    let u = UserView { password_hash: Some(phc), ..t.users[j] };
                    (
                        StoreView {
                            tenants: s.tenants.update(
                                i,
                                TenantView { users: t.users.update(j, u), ..t },
                            ),
                            sessions: store::kept(s.sessions, SessionMatch::OfUser(tenant, user)),
                            ..s
                        },
                        Ok(()),
                    )
                },
            }
        },
    }
}

/// What [`StoreState::authenticate`] answers. Every failure looks the same.
pub open spec fn authenticated(
    s: StoreView,
    tenant_name: Seq<char>,
    user_name: Seq<char>,
    password: Seq<char>,
) -> Option<(TenantId, UserId, TenantCaps)> {
    match store::find_name(s.tenants, tenant_name) {
        None => None,
        Some(i) => {
            let t = s.tenants[i];
            match store::find_user_name(t.users, user_name) {
                None => None,
                Some(j) => match t.users[j].password_hash {
                    Some(phc) => if auth::accepts(password, phc) {
                        Some((t.id, t.users[j].id, t.users[j].caps))
                    } else {
                        None
                    },
                    None => None,
                },
            }
        },
    }
}

/// When a session that starts at `now` ends.
pub open spec fn expiry(now: u64, ttl_secs: Option<u64>) -> u64 {
    let secs = match ttl_secs {
        Some(t) => t as int,
        None => DEFAULT_SESSION_TTL_SECS as int,
    };
    let ms = if secs * 1000 <= u64::MAX {
        secs * 1000
    } else {
        u64::MAX as int
    };
    if now + ms <= u64::MAX {
        (now + ms) as u64
    } else {
        u64::MAX
    }
}

/// What [`StoreState::create_session_with`] does: a session with the
/// capabilities that were asked for and that the user holds.
pub open spec fn session_created(
    s: StoreView,
    tenant: TenantId,
    user: UserId,
    requested: TenantCaps,
    ttl_secs: Option<u64>,
    token_hash: TokenHash,
    now: u64,
) -> (StoreView, Result<SessionView, ErrorView>) {
    match store::find_tenant(s.tenants, tenant) {
        None => (s, Err(ErrorView::Invalid("tenant id unknown"@))),
        Some(i) => {
            let t = s.tenants[i];
            match store::find_user(t.users, user) {
                None => (s, Err(ErrorView::Invalid("user id unknown"@))),
                Some(j) => {
                    let u = t.users[j];
                    let session = SessionView {
                        token_hash: token_hash@,
                        tenant,
                        user,
                        user_name: u.name,
                        caps: TenantCaps((u.caps.0 & requested.0) & 0x1fff),
                        created_ms: now,
                        expires_ms: expiry(now, ttl_secs),
                    };
                    (
                        StoreView {
                            sessions: store::kept(
                                s.sessions,
                                SessionMatch::WithHash(token_hash),
                            ).push(session),
                            ..s
                        },
                        Ok(session),
                    )
                },
            }
        },
    }
}

/// Fingerprints of the sessions, in order.
pub open spec fn session_hashes(ss: Seq<SessionView>) -> Seq<Seq<u8>> {
    Seq::new(ss.len(), |i: int| ss[i].token_hash)
}

/// The live session of a fingerprint at a moment.
pub open spec fn live_session(ss: Seq<SessionView>, hash: Seq<u8>, now: u64) -> Option<
    SessionView,
> {
    match store::first_at(session_hashes(ss), hash, 0) {
        None => None,
        Some(i) => if now >= ss[i].expires_ms {
            None
        } else {
            Some(ss[i])
        },
    }
}

/// A user's capabilities once the tenant's root set was rotated.
pub open spec fn narrowed(u: UserView, new_caps: TenantCaps) -> UserView {
    UserView { caps: TenantCaps((u.caps.0 & new_caps.0) & 0x1fff), ..u }
}

/// The users once the tenant's root set was rotated.
pub open spec fn narrowed_users(us: Seq<UserView>, new_caps: TenantCaps) -> Seq<UserView> {
    Seq::new(us.len(), |i: int| narrowed(us[i], new_caps))
}

/// How many of the first `n` users lose something in a rotation.
pub open spec fn narrowed_count(us: Seq<UserView>, new_caps: TenantCaps, n: int) -> int
    decreases n,
{
    if n <= 0 {
        0
    } else {
        narrowed_count(us, new_caps, n - 1) + if narrowed(us[n - 1], new_caps).caps != us[n
            - 1].caps {
            1int
        } else {
            0int
        }
    }
}

/// What a rotation did.
#[derive(Debug, Clone, PartialEq, Eq)]
pub struct RotateReport {
    /// Tenant whose root set was rotated.
    pub tenant: TenantId,
    /// Name of the tenant.
    pub tenant_name: String,
    /// Root set before.
    pub old_caps: TenantCaps,
    /// Root set after.
    pub new_caps: TenantCaps,
    /// Number of users that lost something.
    pub attenuated_users: usize,
    /// Number of sessions that ended.
    pub revoked_sessions: usize,
}

/// Mathematical value of a [`RotateReport`].
#[verifier::ext_equal]
pub struct RotateReportView {
    /// See [`RotateReport::tenant`].
    pub tenant: TenantId,
    /// See [`RotateReport::tenant_name`].
    pub tenant_name: Seq<char>,
    /// See [`RotateReport::old_caps`].
    pub old_caps: TenantCaps,
    /// See [`RotateReport::new_caps`].
    pub new_caps: TenantCaps,
    /// See [`RotateReport::attenuated_users`].
    pub attenuated_users: int,
    /// See [`RotateReport::revoked_sessions`].
    pub revoked_sessions: int,
}

impl View for RotateReport {
    type V = RotateReportView;

    open spec fn view(&self) -> RotateReportView {
        RotateReportView {
            tenant: self.tenant,
            tenant_name: self.tenant_name@,
            old_caps: self.old_caps,
            new_caps: self.new_caps,
            attenuated_users: self.attenuated_users as int,
            revoked_sessions: self.revoked_sessions as int,
        }
    }
}

/// What [`StoreState::rotate_root_caps`] does.
pub open spec fn caps_rotated(s: StoreView, tenant: TenantId, new_caps: TenantCaps) -> (
    StoreView,
    Result<RotateReportView, ErrorView>,
) {
    match store::find_tenant(s.tenants, tenant) {
        None => (s, Err(ErrorView::Invalid("tenant id unknown"@))),
        Some(i) => {
            let t = s.tenants[i];
            match rotation_refused(s, t, new_caps) {
                Some(e) => (s, Err(e)),
                None => {
                    let left = store::kept(s.sessions, SessionMatch::OfTenant(tenant));
                    (
                        StoreView {
                            tenants: s.tenants.update(
                                i,
                                TenantView {
                                    root_caps: new_caps,
                                    users: narrowed_users(t.users, new_caps),
                                    ..t
                                },
                            ),
                            sessions: left,
                            ..s
                        },
                        Ok(
                            RotateReportView {
                                tenant,
                                tenant_name: t.name,
                                old_caps: t.root_caps,
                                new_caps,
                                attenuated_users: narrowed_count(
                                    t.users,
                                    new_caps,
                                    t.users.len() as int,
                                ),
                                revoked_sessions: s.sessions.len() - left.len(),
                            },
                        ),
                    )
                },
            }
        },
    }
}

/// Why a rotation is refused: a subtenant never exceeds its parent.
pub open spec fn rotation_refused(s: StoreView, t: TenantView, new_caps: TenantCaps) -> Option<
    ErrorView,
> {
    match t.parent {
        None => None,
        Some(p) => match store::find_tenant(s.tenants, p) {
            None => Some(ErrorView::Internal("parent tenant disappeared"@)),
            Some(k) => if s.tenants[k].root_caps.includes(new_caps) {
                None
            } else {
                Some(ErrorView::CapabilityDenied("rotated caps exceed parent"@))
            },
        },
    }
}

/// What ending a group of a tenant's sessions does.
pub open spec fn sessions_revoked(s: StoreView, tenant: TenantId, m: SessionMatch) -> (
    StoreView,
    Result<int, ErrorView>,
) {
    if store::find_tenant(s.tenants, tenant) is None {
        (s, Err(ErrorView::Invalid("tenant id unknown"@)))
    } else {
        let left = store::kept(s.sessions, m);
        (StoreView { sessions: left, ..s }, Ok(s.sessions.len() - left.len()))
    }
}

/// What ending the sessions of a user does.
pub open spec fn user_revoked(s: StoreView, tenant: TenantId, user: UserId) -> (
    StoreView,
    Result<int, ErrorView>,
) {
    sessions_revoked(s, tenant, SessionMatch::OfUser(tenant, user))
}

/// What ending the sessions of a tenant does.
pub open spec fn tenant_revoked(s: StoreView, tenant: TenantId) -> (
    StoreView,
    Result<int, ErrorView>,
) {
    sessions_revoked(s, tenant, SessionMatch::OfTenant(tenant))
}

/// The store once the session of a fingerprint has ended.
pub open spec fn token_dropped(s: StoreView, h: TokenHash) -> StoreView {
    StoreView { sessions: store::kept(s.sessions, SessionMatch::WithHash(h)), ..s }
}

/// The store without the sessions that are over at a moment.
pub open spec fn purged(s: StoreView, now: u64) -> StoreView {
    StoreView { sessions: store::kept(s.sessions, SessionMatch::ExpiredAt(now)), ..s }
}

/// What [`StoreState::validate_token_at`] answers.
pub open spec fn checked(s: StoreView, token: Seq<char>, now: u64, r: CelResult<Session>) -> bool {
    match live_session(s.sessions, auth::token_fingerprint(token), now) {
        Some(x) => r matches Ok(y) && y@ == x,
        None => r == Err::<Session, CelError>(CelError::CapabilityDenied("auth.session")),
    }
}

impl StoreState {
    /// Stores a password hash for a user and ends the user's sessions.
    pub fn store_password(&mut self, tenant: TenantId, user: UserId, hash: PasswordHashStr) -> (r:
        CelResult<()>)
        ensures
            final(self)@ == password_stored(old(self)@, tenant, user, hash@).0,
            error::result_view(r) == password_stored(old(self)@, tenant, user, hash@).1,
            old(self)@.wf() ==> final(self)@.wf(),
    {
        let at: usize = match self.position(tenant) {
            Some(i) => i,
            None => {
                return Err(CelError::Invalid("tenant id unknown"));
            },
        };
        let j: usize = match position_of_user(&self.tenants[at].users, user) {
            Some(j) => j,
            None => {
                return Err(CelError::Invalid("user id unknown"));
            },
        };
        let ghost t = self@.tenants[at as int];
        let ghost u = UserView { password_hash: Some(hash@), ..t.users[j as int] };
        self.tenants[at].users[j].password_hash = Some(hash);
        proof {
            assert(self@.tenants[at as int].users =~= t.users.update(j as int, u));
            assert(self@.tenants =~= old(self)@.tenants.update(
                at as int,
                TenantView { users: t.users.update(j as int, u), ..t },
            ));
        }
        let _n: usize = self.drop_sessions(&SessionMatch::OfUser(tenant, user));
        Ok(())
    }

    /// Sets a user's password and ends the user's sessions.
    pub fn set_password(&mut self, tenant: TenantId, user: UserId, plain: &str) -> (r: CelResult<
        (),
    >)
        ensures
            plain@.len() == 0 ==> final(self)@ == old(self)@ && r == Err::<(), CelError>(
                CelError::Invalid("password must not be empty"),
            ),
            plain@.len() > 0 && !auth::hashable(plain@) ==> final(self)@ == old(self)@ && r == Err::<
                (),
                CelError,
            >(CelError::Internal("argon2 hash_password failed")),
            auth::hashable(plain@) ==> exists|phc: Seq<char>|
                {
                    &&& #[trigger] auth::accepts(plain@, phc)
                    &&& exists|salt: Seq<char>|
                        auth::salt_shape(salt) && #[trigger] auth::argon2id_phc(plain@, salt)
                            == Some(phc)
                    &&& final(self)@ == password_stored(old(self)@, tenant, user, phc).0
                    &&& error::result_view(r) == password_stored(
                        old(self)@,
                        tenant,
                        user,
                        phc,
                    ).1
                },
            old(self)@.wf() ==> final(self)@.wf(),
    {
        match hash_password(plain) {
            Ok(hash) => {
                let ghost phc = hash@;
                let r = self.store_password(tenant, user, hash);
                assert(auth::accepts(plain@, phc));
                r
            },
            Err(e) => Err(e),
        }
    }

    /// Checks a tenant name, a user name and a password.
    pub fn authenticate(&self, tenant_name: &str, user_name: &str, password: &str) -> (r: CelResult<
        (TenantId, UserId, TenantCaps),
    >)
        ensures
            match authenticated(self@, tenant_name@, user_name@, password@) {
                Some(who) => r == Ok::<(TenantId, UserId, TenantCaps), CelError>(who),
                None => r == Err::<(TenantId, UserId, TenantCaps), CelError>(
                    CelError::CapabilityDenied("auth.credentials"),
                ),
            },
    {
        let at: usize = match self.position_by_name(tenant_name) {
            Some(i) => i,
            None => {
                return Err(CelError::CapabilityDenied("auth.credentials"));
            },
        };
        let t = &self.tenants[at];
        let j: usize = match position_of_user_name(&t.users, user_name) {
            Some(j) => j,
            None => {
                return Err(CelError::CapabilityDenied("auth.credentials"));
            },
        };
        let u = &t.users[j];
        match &u.password_hash {
            None => Err(CelError::CapabilityDenied("auth.credentials")),
            Some(hash) => match verify_password(password, hash) {
                Ok(_) => Ok((t.id, u.id, u.caps)),
                Err(_) => Err(CelError::CapabilityDenied("auth.credentials")),
            },
        }
    }

    /// Starts a session for a given fingerprint at a given moment.
    pub fn create_session_with(
        &mut self,
        tenant: TenantId,
        user: UserId,
        requested_caps: TenantCaps,
        ttl_secs: Option<u64>,
        token_hash: TokenHash,
        now: u64,
    ) -> (r: CelResult<Session>)
        ensures
            final(self)@ == session_created(
                old(self)@,
                tenant,
                user,
                requested_caps,
                ttl_secs,
                token_hash,
                now,
            ).0,
            error::result_view(r) == session_created(
                old(self)@,
                tenant,
                user,
                requested_caps,
                ttl_secs,
                token_hash,
                now,
            ).1,
            old(self)@.wf() ==> final(self)@.wf(),
    {
        let at: usize = match self.position(tenant) {
            Some(i) => i,
            None => {
                return Err(CelError::Invalid("tenant id unknown"));
            },
        };
        let j: usize = match position_of_user(&self.tenants[at].users, user) {
            Some(j) => j,
            None => {
                return Err(CelError::Invalid("user id unknown"));
            },
        };
        let u = &self.tenants[at].users[j];
        let caps = TenantCaps::from_bits_truncate(u.caps.bits() & requested_caps.bits());
        let user_name = u.name.clone();
        let secs: u64 = match ttl_secs {
            Some(t) => t,
            None => DEFAULT_SESSION_TTL_SECS,
        };
        let ttl_ms: u64 = match secs.checked_mul(1000) {
            Some(ms) => ms,
            None => u64::MAX,
        };
        let expires_ms: u64 = now.saturating_add(ttl_ms);
        let session = Session {
            token_hash,
            tenant,
            user,
            user_name,
            caps,
            created_ms: now,
            expires_ms,
        };
        let _n: usize = self.drop_sessions(&SessionMatch::WithHash(token_hash));
        let copy = session.clone();
        let ghost before = self@.sessions;
        self.sessions.push(session);
        assert(self@.sessions =~= before.push(copy@));
        Ok(copy)
    }

    /// Starts a session and hands its token out. The store keeps only the
    /// token's fingerprint.
    pub fn create_session(
        &mut self,
        tenant: TenantId,
        user: UserId,
        requested_caps: TenantCaps,
        ttl_secs: Option<u64>,
    ) -> (r: CelResult<(SessionToken, Session)>)
        ensures
            exists|hash: TokenHash, now: u64|
                {
                    let out = #[trigger] session_created(
                        old(self)@,
                        tenant,
                        user,
                        requested_caps,
                        ttl_secs,
                        hash,
                        now,
                    );
                    &&& final(self)@ == out.0
                    &&& match r {
                        Ok(p) => out.1 == Ok::<SessionView, ErrorView>(p.1@) && hash@
                            == auth::token_fingerprint(p.0@),
                        Err(e) => out.1 == Err::<SessionView, ErrorView>(e@),
                    }
                },
            r matches Ok(p) ==> p.0@.len() == TOKEN_HEX_LEN && exists|raw: Seq<u8>|
                raw.len() == TOKEN_BYTES && p.0@ == #[trigger] text::hex_of(raw),
            old(self)@.wf() ==> final(self)@.wf(),
    {
        let (token, token_hash) = mint_token();
        let now: u64 = now_ms();
        match self.create_session_with(tenant, user, requested_caps, ttl_secs, token_hash, now) {
            Ok(session) => Ok((token, session)),
            Err(e) => Err(e),
        }
    }

    /// The live session of a token at a given moment.
    pub fn validate_token_at(&self, token: &SessionToken, now: u64) -> (r: CelResult<Session>)
        ensures
            checked(self@, token@, now, r),
    {
        let needle = hash_token(token);
        let ghost keys = session_hashes(self@.sessions);
        let mut i: usize = 0;
        while i < self.sessions.len()
            invariant
                i <= self.sessions@.len(),
                keys == session_hashes(self@.sessions),
                needle@ == auth::token_fingerprint(token@),
                forall|j: int| 0 <= j < i ==> keys[j] != needle@,
            decreases self.sessions@.len() - i,
        {
            if self.sessions[i].token_hash.same(&needle) {
                proof {
                    store::lemma_is_first(keys, needle@, i as int);
                }
                if self.sessions[i].is_expired_at(now) {
                    return Err(CelError::CapabilityDenied("auth.session"));
                }
                return Ok(self.sessions[i].clone());
            }
            i = i + 1;
        }
        proof {
            store::lemma_is_first(keys, needle@, i as int);
        }
        Err(CelError::CapabilityDenied("auth.session"))
    }

    /// The live session of a token now.
    pub fn validate_token(&self, token: &SessionToken) -> (r: CelResult<Session>)
        ensures
            exists|now: u64| #[trigger] checked(self@, token@, now, r),
    {
        let now: u64 = now_ms();
        self.validate_token_at(token, now)
    }

    /// Ends the session of a token. A token without one is no error.
    pub fn revoke_token(&mut self, token: &SessionToken) -> (r: CelResult<()>)
        ensures
            r is Ok,
            exists|h: TokenHash|
                h@ == auth::token_fingerprint(token@) && final(self)@
                    == #[trigger] token_dropped(old(self)@, h),
            old(self)@.wf() ==> final(self)@.wf(),
    {
        let needle = hash_token(token);
        let _n: usize = self.drop_sessions(&SessionMatch::WithHash(needle));
        assert(self@ == token_dropped(old(self)@, needle));
        Ok(())
    }

    /// Drops the sessions that are over at a given moment and counts them.
    pub fn purge_expired_at(&mut self, now: u64) -> (r: usize)
        ensures
            final(self)@ == purged(old(self)@, now),
            r == old(self)@.sessions.len() - final(self)@.sessions.len(),
            old(self)@.wf() ==> final(self)@.wf(),
    {
        self.drop_sessions(&SessionMatch::ExpiredAt(now))
    }

    /// Drops the sessions that are over now and counts them.
    pub fn purge_expired_sessions(&mut self) -> (r: usize)
        ensures
            exists|now: u64| final(self)@ == #[trigger] purged(old(self)@, now),
            r == old(self)@.sessions.len() - final(self)@.sessions.len(),
            old(self)@.wf() ==> final(self)@.wf(),
    {
        let now: u64 = now_ms();
        self.purge_expired_at(now)
    }

    /// Ends every session of a user and counts them.
    pub fn revoke_user_sessions(&mut self, tenant: TenantId, user: UserId) -> (r: CelResult<usize>)
        ensures
            final(self)@ == user_revoked(old(self)@, tenant, user).0,
            match r {
                Ok(n) => user_revoked(old(self)@, tenant, user).1 == Ok::<int, ErrorView>(n as int),
                Err(e) => user_revoked(old(self)@, tenant, user).1 == Err::<int, ErrorView>(e@),
            },
            old(self)@.wf() ==> final(self)@.wf(),
    {
        if self.position(tenant).is_none() {
            return Err(CelError::Invalid("tenant id unknown"));
        }
        Ok(self.drop_sessions(&SessionMatch::OfUser(tenant, user)))
    }

    /// Ends every session of a tenant and counts them.
    pub fn revoke_tenant_sessions(&mut self, tenant: TenantId) -> (r: CelResult<usize>)
        ensures
            final(self)@ == tenant_revoked(old(self)@, tenant).0,
            match r {
                Ok(n) => tenant_revoked(old(self)@, tenant).1 == Ok::<int, ErrorView>(n as int),
                Err(e) => tenant_revoked(old(self)@, tenant).1 == Err::<int, ErrorView>(e@),
            },
            old(self)@.wf() ==> final(self)@.wf(),
    {
        if self.position(tenant).is_none() {
            return Err(CelError::Invalid("tenant id unknown"));
        }
        Ok(self.drop_sessions(&SessionMatch::OfTenant(tenant)))
    }

    /// Replaces a tenant's root set. Users keep only what the new set holds,
    /// and every session of the tenant ends.
    pub fn rotate_root_caps(&mut self, tenant: TenantId, new_caps: TenantCaps) -> (r: CelResult<
        RotateReport,
    >)
        ensures
            final(self)@ == caps_rotated(old(self)@, tenant, new_caps).0,
            error::result_view(r) == caps_rotated(old(self)@, tenant, new_caps).1,
            old(self)@.wf() ==> final(self)@.wf(),
    {
        let at: usize = match self.position(tenant) {
            Some(i) => i,
            None => {
                return Err(CelError::Invalid("tenant id unknown"));
            },
        };
        let old_caps = self.tenants[at].root_caps;
        let tenant_name = self.tenants[at].name.clone();
        if let Some(parent_id) = self.tenants[at].parent {
            match self.position(parent_id) {
                None => {
                    return Err(CelError::Internal("parent tenant disappeared"));
                },
                Some(k) => {
                    if !self.tenants[k].root_caps.contains(new_caps) {
                        return Err(CelError::CapabilityDenied("rotated caps exceed parent"));
                    }
                },
            }
        }
        let ghost t = self@.tenants[at as int];
        self.tenants[at].root_caps = new_caps;
        let attenuated_users: usize = narrow_users(&mut self.tenants[at].users, new_caps);
        proof {
            assert(self@.tenants =~= old(self)@.tenants.update(
                at as int,
                TenantView {
                    root_caps: new_caps,
                    users: narrowed_users(t.users, new_caps),
                    ..t
                },
            ));
        }
        let revoked_sessions: usize = self.drop_sessions(&SessionMatch::OfTenant(tenant));
        Ok(
            RotateReport {
                tenant,
                tenant_name,
                old_caps,
                new_caps,
                attenuated_users,
                revoked_sessions,
            },
        )
    }
}

/// Takes from each user what a new root set does not hold, and counts those
/// that lose something.
fn narrow_users(users: &mut Vec<User>, new_caps: TenantCaps) -> (r: usize)
    ensures
        tenant::user_views(final(users)@) == narrowed_users(
            tenant::user_views(old(users)@),
            new_caps,
        ),
        r == narrowed_count(
            tenant::user_views(old(users)@),
            new_caps,
            old(users)@.len() as int,
        ),
{
    let ghost all = tenant::user_views(users@);
    let mut count: usize = 0;
    let mut i: usize = 0;
    while i < users.len()
        invariant
            i <= users@.len(),
            users@.len() == all.len(),
            count <= i,
            count == narrowed_count(all, new_caps, i as int),
            forall|j: int|
                0 <= j < i ==> (#[trigger] tenant::user_views(users@)[j]) == narrowed(
                    all[j],
                    new_caps,
                ),
            forall|j: int|
                i <= j < users@.len() ==> (#[trigger] tenant::user_views(users@)[j]) == all[j],
        decreases users@.len() - i,
    {
        let ghost before = tenant::user_views(users@);
        assert(before[i as int] == all[i as int]);
        let narrow = TenantCaps::from_bits_truncate(users[i].caps.bits() & new_caps.bits());
        if narrow != users[i].caps {
            users[i].caps = narrow;
            count = count + 1;
        }
        proof {
            let after = tenant::user_views(users@);
            assert(after =~= before.update(i as int, narrowed(all[i as int], new_caps)));
        }
        i = i + 1;
    }
    assert(tenant::user_views(users@) =~= narrowed_users(all, new_caps));
    count
}

} // verus!
