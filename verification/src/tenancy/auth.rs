//! Passwords, session tokens and session records.

use argon2::password_hash::{
    rand_core::OsRng as SaltRng, PasswordHash, PasswordHasher, PasswordVerifier, SaltString,
};
use argon2::Argon2;
use rand::RngCore;
use sha2::Digest;
use vstd::prelude::*;
use vstd::string::*;
use vstd::utf8::*;

use crate::error::{CelError, CelResult};
use crate::tenancy::caps::TenantCaps;
use crate::tenancy::tenant::TenantId;
use crate::tenancy::user::UserId;
use crate::text;

verus! {

/// Token length in bytes.
pub const TOKEN_BYTES: usize = 32;

/// Token length in hexadecimal digits.
pub const TOKEN_HEX_LEN: usize = 64;

/// Session lifetime, in seconds, where none is given: twelve hours.
pub const DEFAULT_SESSION_TTL_SECS: u64 = 43200;

/// The PHC string that Argon2id yields for a password and an encoded salt.
pub uninterp spec fn argon2id_phc(plain: Seq<char>, salt: Seq<char>) -> Option<Seq<char>>;

/// Whether Argon2 accepts a password for a PHC string.
pub uninterp spec fn argon2_accepts(plain: Seq<char>, phc: Seq<char>) -> bool;

/// Whether `p=` and nine digits stand at `at`.
pub open spec fn wide_at(phc: Seq<char>, at: int) -> bool {
    &&& 0 <= at && at + 11 <= phc.len()
    &&& phc[at] == 'p' && phc[at + 1] == '='
    &&& forall|k: int| at + 2 <= k < at + 11 ==> '0' <= #[trigger] phc[k] <= '9'
}

/// Whether no parameter `p`, the degree of parallelism, has nine or more
/// digits. Argon2 itself goes no further than 16777215.
pub open spec fn narrow(phc: Seq<char>) -> bool {
    forall|at: int| !#[trigger] wide_at(phc, at)
}

/// Whether a password is accepted for a PHC string.
pub open spec fn accepts(plain: Seq<char>, phc: Seq<char>) -> bool {
    narrow(phc) && argon2_accepts(plain, phc)
}

/// Whether a character is one of the 64 of unpadded Base64.
pub open spec fn base64_char(c: char) -> bool {
    'A' <= c <= 'Z' || 'a' <= c <= 'z' || '0' <= c <= '9' || c == '+' || c == '/'
}

/// The form of a fresh salt: sixteen bytes in unpadded Base64, that is 22
/// characters, the last of which carries two bits.
pub open spec fn salt_shape(s: Seq<char>) -> bool {
    &&& s.len() == 22
    &&& forall|i: int| 0 <= i < 22 ==> base64_char(#[trigger] s[i])
    &&& s[21] == 'A' || s[21] == 'Q' || s[21] == 'g' || s[21] == 'w'
}

/// Longest password that Argon2 takes, in bytes.
pub const MAX_PASSWORD_BYTES: u64 = 0xFFFF_FFFF;

/// Whether a password can be hashed with a fresh salt.
pub open spec fn hashable(plain: Seq<char>) -> bool {
    plain.len() > 0 && encode_utf8(plain).len() <= MAX_PASSWORD_BYTES
}

/// The SHA-256 digest of some bytes.
pub uninterp spec fn sha256_digest(data: Seq<u8>) -> Seq<u8>;

/// Calls `SaltString::generate` with the operating system's random generator:
/// sixteen bytes in unpadded Base64. Which ones is left to chance, so nothing
/// more is claimed.
#[verifier::external_body]
fn fresh_salt() -> (r: String)
    ensures
        salt_shape(r@),
{
    SaltString::generate(&mut SaltRng).as_str().to_owned()
}

/// Calls `Argon2::hash_password` with the crate's default parameters. The
/// outcome depends on the password and the salt alone, and a string that comes
/// out is accepted for that password by `verify_password`. It names its one
/// lane as `p=1`, and no other part of it can hold an equals sign after a `p`.
/// A password of more than 0xFFFFFFFF bytes is always refused, and with a salt of
/// sixteen bytes no other is.
#[verifier::external_body]
fn argon2_hash(plain: &str, salt: &str) -> (r: Option<String>)
    ensures
        match r {
            Some(p) => argon2id_phc(plain@, salt@) == Some(p@),
            None => argon2id_phc(plain@, salt@) is None,
        },
        r matches Some(p) ==> narrow(p@) && argon2_accepts(plain@, p@),
        encode_utf8(plain@).len() > MAX_PASSWORD_BYTES ==> r is None,
        salt_shape(salt@) && encode_utf8(plain@).len() <= MAX_PASSWORD_BYTES ==> r is Some,
{
    let salt = SaltString::from_b64(salt).ok()?;
    let hash = Argon2::default().hash_password(plain.as_bytes(), &salt).ok()?;
    Some(hash.to_string())
}

/// Calls `Argon2::verify_password` on a parsed PHC string; a string that does
/// not parse is not accepted. `Params::new` multiplies the parameter `p` by
/// eight in 32 bits before it checks its range, which overflows from nine
/// digits on, so such strings are left out. The memory and the time that the
/// call takes are those that the string asks for.
#[verifier::external_body]
fn argon2_verify(plain: &str, phc: &str) -> (r: bool)
    requires
        narrow(phc@),
    ensures
        r == argon2_accepts(plain@, phc@),
{
    match PasswordHash::new(phc) {
        Ok(parsed) => Argon2::default().verify_password(plain.as_bytes(), &parsed).is_ok(),
        Err(_) => false,
    }
}

/// Calls `Sha256::digest`, which depends on its input alone.
#[verifier::external_body]
fn sha256(data: &[u8]) -> (r: [u8; 32])
    ensures
        r@ == sha256_digest(data@),
{
    sha2::Sha256::digest(data).into()
}

/// Calls `OsRng::fill_bytes`. The bytes are left to chance, so nothing is
/// claimed of them.
#[verifier::external_body]
fn random_bytes() -> (r: [u8; 32]) {
    let mut raw = [0u8; 32];
    rand::rngs::OsRng.fill_bytes(&mut raw);
    raw
}

/// Calls `SystemTime::elapsed` on the Unix epoch and gives the milliseconds that
/// have passed; nothing if the clock stands before it. The reading is the
/// machine's, so nothing is claimed of it.
#[verifier::external_body]
fn unix_time() -> (r: Option<u128>) {
    std::time::UNIX_EPOCH.elapsed().ok().map(|d| d.as_millis())
}

/// PHC-encoded password hash.
#[derive(Debug)]
pub struct PasswordHashStr(String);

impl View for PasswordHashStr {
    type V = Seq<char>;

    closed spec fn view(&self) -> Seq<char> {
        self.0@
    }
}

impl Clone for PasswordHashStr {
    fn clone(&self) -> (r: PasswordHashStr)
        ensures
            r == *self,
    {
        PasswordHashStr(self.0.clone())
    }
}

impl PasswordHashStr {
    /// The PHC string.
    pub fn as_str(&self) -> (r: &str)
        ensures
            r@ == self@,
    {
        self.0.as_str()
    }

    /// Takes a PHC string over as it was stored.
    pub fn from_stored(phc: String) -> (r: PasswordHashStr)
        ensures
            r@ == phc@,
    {
        PasswordHashStr(phc)
    }
}

/// Hashes a password with a given salt.
pub fn hash_password_with_salt(plain: &str, salt: &str) -> (r: CelResult<PasswordHashStr>)
    ensures
        plain@.len() == 0 ==> r == Err::<PasswordHashStr, CelError>(
            CelError::Invalid("password must not be empty"),
        ),
        plain@.len() > 0 ==> match argon2id_phc(plain@, salt@) {
            Some(p) => r matches Ok(h) && h@ == p && accepts(plain@, h@),
            None => r == Err::<PasswordHashStr, CelError>(
                CelError::Internal("argon2 hash_password failed"),
            ),
        },
        hashable(plain@) && salt_shape(salt@) ==> r is Ok,
        !hashable(plain@) ==> r is Err,
{
    if plain.is_empty() {
        return Err(CelError::Invalid("password must not be empty"));
    }
    match argon2_hash(plain, salt) {
        Some(phc) => Ok(PasswordHashStr(phc)),
        None => Err(CelError::Internal("argon2 hash_password failed")),
    }
}

/// Hashes a password with a fresh salt.
pub fn hash_password(plain: &str) -> (r: CelResult<PasswordHashStr>)
    ensures
        plain@.len() == 0 ==> r == Err::<PasswordHashStr, CelError>(
            CelError::Invalid("password must not be empty"),
        ),
        plain@.len() > 0 && !hashable(plain@) ==> r == Err::<PasswordHashStr, CelError>(
            CelError::Internal("argon2 hash_password failed"),
        ),
        hashable(plain@) ==> (r matches Ok(h) && accepts(plain@, h@) && exists|salt: Seq<char>|
            salt_shape(salt) && #[trigger] argon2id_phc(plain@, salt) == Some(h@)),
{
    let salt = fresh_salt();
    hash_password_with_salt(plain, salt.as_str())
}

/// The verdict on a password.
pub open spec fn verified(plain: Seq<char>, stored: Seq<char>) -> CelResult<()> {
    if accepts(plain, stored) {
        Ok(())
    } else {
        Err(CelError::CapabilityDenied("auth.credentials"))
    }
}

/// Whether no parameter `p` of a PHC string has nine or more digits.
fn is_narrow(phc: &str) -> (r: bool)
    ensures
        r == narrow(phc@),
{
    let cs = text::chars_of(phc);
    let mut at: usize = 0;
    while at < cs.len()
        invariant
            at <= cs@.len(),
            cs@ == phc@,
            forall|i: int| 0 <= i < at ==> !#[trigger] wide_at(phc@, i),
        decreases cs@.len() - at,
    {
        if cs.len() - at >= 11 && cs[at] == 'p' && cs[at + 1] == '=' {
            let end: usize = at + 11;
            let mut k: usize = at + 2;
            while k < end && '0' <= cs[k] && cs[k] <= '9'
                invariant
                    end == at + 11,
                    end <= cs@.len(),
                    at + 2 <= k <= end,
                    cs@ == phc@,
                    forall|i: int| at + 2 <= i < k ==> '0' <= #[trigger] phc@[i] <= '9',
                decreases end - k,
            {
                k = k + 1;
            }
            if k == end {
                assert(wide_at(phc@, at as int));
                return false;
            }
            assert(!wide_at(phc@, at as int));
        }
        at = at + 1;
    }
    true
}

/// Checks a password against a stored hash. Every failure looks the same.
pub fn verify_password(plain: &str, stored: &PasswordHashStr) -> (r: CelResult<()>)
    ensures
        r == verified(plain@, stored@),
{
    if is_narrow(stored.0.as_str()) && argon2_verify(plain, stored.0.as_str()) {
        Ok(())
    } else {
        Err(CelError::CapabilityDenied("auth.credentials"))
    }
}

/// Opaque session token: 64 lower-case hexadecimal digits.
#[derive(Debug, PartialEq, Eq)]
pub struct SessionToken(String);

impl View for SessionToken {
    type V = Seq<char>;

    closed spec fn view(&self) -> Seq<char> {
        self.0@
    }
}

impl Clone for SessionToken {
    fn clone(&self) -> (r: SessionToken)
        ensures
            r == *self,
    {
        SessionToken(self.0.clone())
    }
}

/// The value of a hexadecimal digit, in either case.
pub open spec fn hex_value(b: u8) -> Option<u8> {
    if 0x30 <= b <= 0x39 {
        Some((b - 0x30) as u8)
    } else if 0x41 <= b <= 0x46 {
        Some((b - 0x41 + 10) as u8)
    } else if 0x61 <= b <= 0x66 {
        Some((b - 0x61 + 10) as u8)
    } else {
        None
    }
}

/// Whether every byte is a hexadecimal digit.
pub open spec fn all_hex(bytes: Seq<u8>) -> bool {
    forall|i: int| 0 <= i < bytes.len() ==> hex_value(#[trigger] bytes[i]) is Some
}

/// Hexadecimal digits in lower case.
pub open spec fn lower_hex(bytes: Seq<u8>) -> Seq<char> {
    Seq::new(bytes.len(), |i: int| text::hex_char(hex_value(bytes[i])->0 as int))
}

/// What [`SessionToken::from_hex`] makes of some bytes.
pub open spec fn token_read(bytes: Seq<u8>, r: CelResult<SessionToken>) -> bool {
    if bytes.len() == TOKEN_HEX_LEN && all_hex(bytes) {
        r matches Ok(t) && t@ == lower_hex(bytes)
    } else {
        r == Err::<SessionToken, CelError>(CelError::Invalid("token format"))
    }
}

fn hex_digit_value(b: u8) -> (r: Option<u8>)
    ensures
        r == hex_value(b),
        r matches Some(v) ==> v < 16,
{
    if 0x30 <= b && b <= 0x39 {
        Some(b - 0x30)
    } else if 0x41 <= b && b <= 0x46 {
        Some(b - 0x41 + 10)
    } else if 0x61 <= b && b <= 0x66 {
        Some(b - 0x61 + 10)
    } else {
        None
    }
}

impl SessionToken {
    /// The digits, for transmission.
    pub fn as_str(&self) -> (r: &str)
        ensures
            r@ == self@,
    {
        self.0.as_str()
    }

    /// Rebuilds a token from its digits, in either case.
    pub fn from_hex(s: &str) -> (r: CelResult<SessionToken>)
        ensures
            token_read(encode_utf8(s@), r),
    {
        let bytes = s.as_bytes();
        if bytes.len() != TOKEN_HEX_LEN {
            return Err(CelError::Invalid("token format"));
        }
        let mut out = String::new();
        let mut i: usize = 0;
        while i < bytes.len()
            invariant
                i <= bytes@.len(),
                bytes@ == encode_utf8(s@),
                bytes@.len() == TOKEN_HEX_LEN,
                forall|j: int| 0 <= j < i ==> hex_value(#[trigger] bytes@[j]) is Some,
                out@ == lower_hex(bytes@.take(i as int)),
            decreases bytes@.len() - i,
        {
            match hex_digit_value(bytes[i]) {
                Some(v) => {
                    out.append(text::hex_digit(v));
                    assert(out@ =~= lower_hex(bytes@.take(i + 1)));
                },
                None => {
                    assert(!all_hex(bytes@));
                    return Err(CelError::Invalid("token format"));
                },
            }
            i = i + 1;
        }
        assert(bytes@.take(i as int) =~= bytes@);
        Ok(SessionToken(out))
    }
}

/// Fingerprint of a [`SessionToken`]; the only form in which one is stored.
#[derive(Debug, Clone, Copy, PartialEq, Eq, Hash)]
pub struct TokenHash(pub [u8; 32]);

impl View for TokenHash {
    type V = Seq<u8>;

    open spec fn view(&self) -> Seq<u8> {
        self.0@
    }
}

impl TokenHash {
    /// Whether two fingerprints are the same.
    pub fn same(&self, other: &TokenHash) -> (r: bool)
        ensures
            r == (self@ == other@),
    {
        let mut i: usize = 0;
        while i < 32
            invariant
                i <= 32,
                forall|j: int| 0 <= j < i ==> self@[j] == other@[j],
            decreases 32 - i,
        {
            if self.0[i] != other.0[i] {
                return false;
            }
            i = i + 1;
        }
        assert(self@ =~= other@);
        true
    }
}

/// The fingerprint of a token: the digest of its digits.
pub open spec fn token_fingerprint(token: Seq<char>) -> Seq<u8> {
    sha256_digest(encode_utf8(token))
}

/// Fingerprints a token.
pub fn hash_token(token: &SessionToken) -> (r: TokenHash)
    ensures
        r@ == token_fingerprint(token@),
{
    TokenHash(sha256(token.0.as_str().as_bytes()))
}

/// Builds the token for some raw bytes, with its fingerprint.
pub fn token_from_bytes(raw: &[u8]) -> (r: (SessionToken, TokenHash))
    ensures
        r.0@ == text::hex_of(raw@),
        r.1@ == token_fingerprint(r.0@),
{
    let token = SessionToken(text::hex_encode(raw));
    let hash = hash_token(&token);
    (token, hash)
}

/// Mints a fresh token, with its fingerprint.
pub fn mint_token() -> (r: (SessionToken, TokenHash))
    ensures
        exists|raw: Seq<u8>| raw.len() == TOKEN_BYTES && r.0@ == #[trigger] text::hex_of(raw),
        r.0@.len() == TOKEN_HEX_LEN,
        r.1@ == token_fingerprint(r.0@),
{
    let raw = random_bytes();
    proof {
        text::lemma_hex_len(raw@);
    }
    token_from_bytes(raw.as_slice())
}

/// A live session.
#[derive(Debug, PartialEq, Eq)]
pub struct Session {
    /// Fingerprint of the token.
    pub token_hash: TokenHash,
    /// Tenant of the session.
    pub tenant: TenantId,
    /// User of the session.
    pub user: UserId,
    /// Name of the user when the session was made.
    pub user_name: String,
    /// Capabilities of the session.
    pub caps: TenantCaps,
    /// When the session was made, in Unix milliseconds.
    pub created_ms: u64,
    /// When the session ends, in Unix milliseconds.
    pub expires_ms: u64,
}

/// Mathematical value of a [`Session`].
#[verifier::ext_equal]
pub struct SessionView {
    /// See [`Session::token_hash`].
    pub token_hash: Seq<u8>,
    /// See [`Session::tenant`].
    pub tenant: TenantId,
    /// See [`Session::user`].
    pub user: UserId,
    /// See [`Session::user_name`].
    pub user_name: Seq<char>,
    /// See [`Session::caps`].
    pub caps: TenantCaps,
    /// See [`Session::created_ms`].
    pub created_ms: u64,
    /// See [`Session::expires_ms`].
    pub expires_ms: u64,
}

impl View for Session {
    type V = SessionView;

    open spec fn view(&self) -> SessionView {
        SessionView {
            token_hash: self.token_hash@,
            tenant: self.tenant,
            user: self.user,
            user_name: self.user_name@,
            caps: self.caps,
            created_ms: self.created_ms,
            expires_ms: self.expires_ms,
        }
    }
}

impl Clone for Session {
    fn clone(&self) -> (r: Session)
        ensures
            r == *self,
    {
        Session {
            token_hash: self.token_hash,
            tenant: self.tenant,
            user: self.user,
            user_name: self.user_name.clone(),
            caps: self.caps,
            created_ms: self.created_ms,
            expires_ms: self.expires_ms,
        }
    }
}

impl Session {
    /// Whether the session is over at `now_ms`.
    pub fn is_expired_at(&self, now_ms: u64) -> (r: bool)
        ensures
            r == (now_ms >= self.expires_ms),
    {
        now_ms >= self.expires_ms
    }
}

/// A clock reading as 64-bit milliseconds: zero before the epoch, the largest
/// value once it no longer fits.
pub fn clamp_millis(elapsed: Option<u128>) -> (r: u64)
    ensures
        match elapsed {
            None => r == 0,
            Some(ms) => r == (if ms <= u64::MAX {
                ms as int
            } else {
                u64::MAX as int
            }),
        },
{
    match elapsed {
        None => 0,
        Some(ms) => if ms <= u64::MAX as u128 {
            ms as u64
        } else {
            u64::MAX
        },
    }
}

/// Current time in Unix milliseconds.
pub fn now_ms() -> u64 {
    clamp_millis(unix_time())
}

/// A password can be hashed if it is not empty and its bytes can be counted with
/// 32 bits.
pub proof fn law_hashable(plain: Seq<char>)
    ensures
        hashable(plain) <==> plain.len() > 0 && encode_utf8(plain).len() < 0x1_0000_0000,
{
}

} // verus!
