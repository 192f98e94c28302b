//! The token lifecycle manager: issues, verifies, rotates and revokes token
//! pairs against the revocation store.
use vstd::prelude::*;
use crate::claims::{
    access_claims_in, access_payload, access_text, lemma_access_claims_in,
    lemma_refresh_claims_in, parse_access, parse_refresh, refresh_claims_in, refresh_payload,
    refresh_text, AccessClaims, AccessView, RefreshClaims, RefreshView, TokenPair,
};
use crate::codec::{jwt_of, jwt_open, jwt_payload, jwt_sign, opened, CodecError};
use crate::store::{RedisStore, StoreView};
use crate::laws::lemma_fresh_issue_succeeds;
use crate::text::{is_id, is_id_str};
use vstd::string::StrSliceExecFns;
use vstd::utf8::encode_utf8;

verus! {

/// Why a token was refused or could not be made.
#[derive(Clone, Copy, Debug, PartialEq, Eq, Structural)]
pub enum TokenError {
    /// Bad signature, malformed, wrong type, blacklisted or not allow-listed.
    InvalidToken,
    /// Well formed and signed, but past its expiry.
    Expired,
    /// No pair could be made: the claims cannot be written (an identifier
    /// with other characters, an expiry past the range of `i64`), or the
    /// identifier is not new (it is the one presented, or its pair was
    /// revoked before). Unreachable with fresh random identifiers.
    EncodingError,
}

/// Default lifetime of an access token, in seconds.
pub const ACCESS_LIFETIME: i64 = 900;

/// Default lifetime of a refresh token, in seconds.
pub const REFRESH_LIFETIME: i64 = 604800;

/// The lifecycle manager: a signing secret, the two token lifetimes and the
/// revocation store.
pub struct JwtService {
    redis_store: RedisStore,
    secret: Vec<u8>,
    access_lifetime: i64,
    refresh_lifetime: i64,
}

/// What the manager holds.
pub struct ServiceView {
    pub store: StoreView,
    pub secret: Seq<u8>,
    pub access_lifetime: int,
    pub refresh_lifetime: int,
}

impl ServiceView {
    pub open spec fn wf(self) -> bool {
        0 <= self.access_lifetime <= i64::MAX && 0 <= self.refresh_lifetime <= i64::MAX
    }

    /// The same configuration over another store.
    pub open spec fn with_store(self, store: StoreView) -> ServiceView {
        ServiceView {
            store,
            secret: self.secret,
            access_lifetime: self.access_lifetime,
            refresh_lifetime: self.refresh_lifetime,
        }
    }
}

/// A pair can be issued at `now` under `jti`: both expiries fit in an `i64`
/// and `jti` can be written into a payload.
pub open spec fn can_issue(v: ServiceView, now: int, jti: Seq<char>) -> bool {
    now + v.access_lifetime <= i64::MAX && now + v.refresh_lifetime <= i64::MAX && is_id(jti)
}

pub open spec fn issued_access(v: ServiceView, user: int, now: int, jti: Seq<char>) -> AccessView {
    AccessView { sub: user, exp: now + v.access_lifetime, iat: now, jti }
}

pub open spec fn issued_refresh(v: ServiceView, user: int, now: int, jti: Seq<char>) -> RefreshView {
    RefreshView { sub: user, exp: now + v.refresh_lifetime, iat: now, jti }
}

/// The access token issued to `user` at `now` under `jti`.
pub open spec fn issued_access_token(v: ServiceView, user: int, now: int, jti: Seq<char>) -> Seq<char> {
    jwt_of(access_text(issued_access(v, user, now, jti)), v.secret)
}

/// The refresh token issued to `user` at `now` under `jti`.
pub open spec fn issued_refresh_token(v: ServiceView, user: int, now: int, jti: Seq<char>) -> Seq<
    char,
> {
    jwt_of(refresh_text(issued_refresh(v, user, now, jti)), v.secret)
}

/// Issue: the signed pair for `user` at `now` under `jti`, and the store with
/// `jti` allow-listed until the refresh token expires. A pair one of whose
/// tokens is already blacklisted (its identifier was handed out and revoked
/// before) is not handed out again.
pub open spec fn issue_outcome(v: ServiceView, user: int, now: int, jti: Seq<char>) -> (
    Result<(Seq<char>, Seq<char>), TokenError>,
    StoreView,
) {
    if can_issue(v, now, jti) && !v.store.blacklisted(issued_access_token(v, user, now, jti), now)
        && !v.store.blacklisted(issued_refresh_token(v, user, now, jti), now) {
        (
            Ok(
                (
                    issued_access_token(v, user, now, jti),
                    issued_refresh_token(v, user, now, jti),
                ),
            ),
            StoreView {
                allow: v.store.allow.insert(jti, (user, now + v.refresh_lifetime)),
                black: v.store.black,
            },
        )
    } else {
        (Err(TokenError::EncodingError), v.store)
    }
}

/// The tokens of an issued pair open, under the secret, to the claims issued.
pub open spec fn pair_opens(
    v: ServiceView,
    user: int,
    now: int,
    jti: Seq<char>,
    r: Result<(Seq<char>, Seq<char>), TokenError>,
) -> bool {
    r matches Ok((a, f)) ==> {
        &&& jwt_payload(a, v.secret) == Some(access_text(issued_access(v, user, now, jti)))
        &&& jwt_payload(f, v.secret) == Some(refresh_text(issued_refresh(v, user, now, jti)))
    }
}

/// The state after a call keeps the configuration and holds `store`.
pub open spec fn same_config(v: ServiceView, v1: ServiceView, store: StoreView) -> bool {
    v1 == v.with_store(store)
}

/// What `issue_at` promises.
pub open spec fn issue_post(
    v: ServiceView,
    v1: ServiceView,
    user: int,
    now: int,
    jti: Seq<char>,
    r: Result<(Seq<char>, Seq<char>), TokenError>,
) -> bool {
    &&& r == issue_outcome(v, user, now, jti).0
    &&& same_config(v, v1, issue_outcome(v, user, now, jti).1)
    &&& (can_issue(v, now, jti) ==> tokens_open(v, user, now, jti))
}

/// The tokens issued to `user` at `now` under `jti` open, under the secret,
/// to the claims issued.
pub open spec fn tokens_open(v: ServiceView, user: int, now: int, jti: Seq<char>) -> bool {
    &&& jwt_payload(issued_access_token(v, user, now, jti), v.secret) == Some(
        access_text(issued_access(v, user, now, jti)),
    )
    &&& jwt_payload(issued_refresh_token(v, user, now, jti), v.secret) == Some(
        refresh_text(issued_refresh(v, user, now, jti)),
    )
}

/// Checks an access payload at `now`.
pub open spec fn access_check(p: Seq<char>, now: int) -> Result<AccessView, TokenError> {
    match access_claims_in(p) {
        None => Err(TokenError::InvalidToken),
        Some(c) => if now > c.exp {
            Err(TokenError::Expired)
        } else {
            Ok(c)
        },
    }
}

/// Checks a refresh payload at `now`.
pub open spec fn refresh_check(p: Seq<char>, now: int) -> Result<RefreshView, TokenError> {
    match refresh_claims_in(p) {
        None => Err(TokenError::InvalidToken),
        Some(c) => if now > c.exp {
            Err(TokenError::Expired)
        } else {
            Ok(c)
        },
    }
}

/// VerifyAccess: a blacklisted token is refused; otherwise the token must open
/// under the secret to access claims that have not expired.
pub open spec fn access_outcome(v: ServiceView, token: Seq<char>, now: int) -> Result<
    AccessView,
    TokenError,
> {
    if v.store.blacklisted(token, now) {
        Err(TokenError::InvalidToken)
    } else {
        match jwt_payload(token, v.secret) {
            None => Err(TokenError::InvalidToken),
            Some(p) => access_check(p, now),
        }
    }
}

/// The store after a refresh token is taken out of use: blacklisted until it
/// expires, and its identifier off the allow-list.
pub open spec fn revoked(s: StoreView, token: Seq<char>, c: RefreshView) -> StoreView {
    StoreView { allow: s.allow.remove(c.jti), black: s.black.insert(token, (1, c.exp)) }
}

/// Refresh: the token must not be blacklisted, must open to refresh claims
/// that have not expired, and its identifier must be allow-listed; it is then
/// revoked and a new pair is issued for its subject.
pub open spec fn refresh_outcome(v: ServiceView, token: Seq<char>, now: int, jti: Seq<char>) -> (
    Result<(Seq<char>, Seq<char>), TokenError>,
    StoreView,
) {
    if v.store.blacklisted(token, now) {
        (Err(TokenError::InvalidToken), v.store)
    } else {
        match jwt_payload(token, v.secret) {
            None => (Err(TokenError::InvalidToken), v.store),
            Some(p) => match refresh_check(p, now) {
                Err(_) => (Err(TokenError::InvalidToken), v.store),
                Ok(c) => if !v.store.allowed(c.jti, now) {
                    (Err(TokenError::InvalidToken), v.store)
                } else if !can_issue(v, now, jti) || jti == c.jti {
                    (Err(TokenError::EncodingError), v.store)
                } else {
                    issue_outcome(v.with_store(revoked(v.store, token, c)), c.sub, now, jti)
                },
            },
        }
    }
}

/// Once a refresh has passed its checks and comes to issue the new pair, the
/// tokens of that pair open, under the secret, to the claims issued for the
/// subject of the refresh token presented.
pub open spec fn refresh_opens(v: ServiceView, token: Seq<char>, now: int, jti: Seq<char>) -> bool {
    match jwt_payload(token, v.secret) {
        Some(p) => match refresh_claims_in(p) {
            Some(c) => (!v.store.blacklisted(token, now) && now <= c.exp && v.store.allowed(
                c.jti,
                now,
            ) && can_issue(v, now, jti) && jti != c.jti) ==> tokens_open(v, c.sub, now, jti),
            None => true,
        },
        None => true,
    }
}

/// What `refresh_at` promises.
pub open spec fn refresh_post(
    v: ServiceView,
    v1: ServiceView,
    token: Seq<char>,
    now: int,
    jti: Seq<char>,
    r: Result<(Seq<char>, Seq<char>), TokenError>,
) -> bool {
    &&& r == refresh_outcome(v, token, now, jti).0
    &&& same_config(v, v1, refresh_outcome(v, token, now, jti).1)
    &&& refresh_opens(v, token, now, jti)
}

/// `t` opens, under `secret`, to access or refresh claims of the pair `jti`.
pub open spec fn opens_to_pair(secret: Seq<u8>, t: Seq<char>, jti: Seq<char>) -> bool {
    match jwt_payload(t, secret) {
        Some(p) => (access_claims_in(p) matches Some(c) && c.jti == jti) || (refresh_claims_in(
            p,
        ) matches Some(c) && c.jti == jti),
        None => false,
    }
}

/// No token on the blacklist belongs to the pair `jti`: the identifier has
/// not been handed out and revoked before.
pub open spec fn fresh_id(v: ServiceView, jti: Seq<char>) -> bool {
    forall|t: Seq<char>| #[trigger] v.store.black.contains_key(t) ==> !opens_to_pair(v.secret, t, jti)
}

/// Revoke: a token that opens to refresh claims, expired or not, is
/// blacklisted while it could still be used and its identifier leaves the
/// allow-list; anything else is refused and changes nothing.
pub open spec fn revoke_outcome(v: ServiceView, token: Seq<char>, now: int) -> (
    Result<(), TokenError>,
    StoreView,
) {
    match jwt_payload(token, v.secret) {
        None => (Err(TokenError::InvalidToken), v.store),
        Some(p) => match refresh_claims_in(p) {
            None => (Err(TokenError::InvalidToken), v.store),
            Some(c) => (
                Ok(()),
                if now <= c.exp {
                    revoked(v.store, token, c)
                } else {
                    StoreView { allow: v.store.allow.remove(c.jti), black: v.store.black }
                },
            ),
        },
    }
}

/// What `revoke_at` promises.
pub open spec fn revoke_post(
    v: ServiceView,
    v1: ServiceView,
    token: Seq<char>,
    now: int,
    r: Result<(), TokenError>,
) -> bool {
    &&& r == revoke_outcome(v, token, now).0
    &&& same_config(v, v1, revoke_outcome(v, token, now).1)
}

/// Revoking an access token: one that opens to access claims that have not
/// expired is blacklisted until it expires; an expired one needs nothing;
/// anything else is refused and changes nothing.
pub open spec fn revoke_access_outcome(v: ServiceView, token: Seq<char>, now: int) -> (
    Result<(), TokenError>,
    StoreView,
) {
    match jwt_payload(token, v.secret) {
        None => (Err(TokenError::InvalidToken), v.store),
        Some(p) => match access_claims_in(p) {
            None => (Err(TokenError::InvalidToken), v.store),
            Some(c) => (
                Ok(()),
                if now <= c.exp {
                    StoreView { allow: v.store.allow, black: v.store.black.insert(token, (1, c.exp)) }
                } else {
                    v.store
                },
            ),
        },
    }
}

/// The token codec's verdict on an access token at `now`: it must open under
/// the secret to access claims that have not expired.
pub open spec fn access_decoded(v: ServiceView, token: Seq<char>, now: int) -> Result<
    AccessView,
    CodecError,
> {
    match opened(token, v.secret) {
        Err(e) => Err(e),
        Ok(p) => match access_claims_in(p) {
            None => Err(CodecError::Malformed),
            Some(c) => if now > c.exp {
                Err(CodecError::Expired)
            } else {
                Ok(c)
            },
        },
    }
}

/// The token codec's verdict on a refresh token at `now`.
pub open spec fn refresh_decoded(v: ServiceView, token: Seq<char>, now: int) -> Result<
    RefreshView,
    CodecError,
> {
    match opened(token, v.secret) {
        Err(e) => Err(e),
        Ok(p) => match refresh_claims_in(p) {
            None => Err(CodecError::Malformed),
            Some(c) => if now > c.exp {
                Err(CodecError::Expired)
            } else {
                Ok(c)
            },
        },
    }
}

pub open spec fn decoded_access_view(r: Result<AccessClaims, CodecError>) -> Result<
    AccessView,
    CodecError,
> {
    match r {
        Ok(c) => Ok(c@),
        Err(e) => Err(e),
    }
}

pub open spec fn decoded_refresh_view(r: Result<RefreshClaims, CodecError>) -> Result<
    RefreshView,
    CodecError,
> {
    match r {
        Ok(c) => Ok(c@),
        Err(e) => Err(e),
    }
}

pub open spec fn pair_view(r: Result<TokenPair, TokenError>) -> Result<
    (Seq<char>, Seq<char>),
    TokenError,
> {
    match r {
        Ok(p) => Ok((p.access_token@, p.refresh_token@)),
        Err(e) => Err(e),
    }
}

pub open spec fn access_view(r: Result<AccessClaims, TokenError>) -> Result<AccessView, TokenError> {
    match r {
        Ok(c) => Ok(c@),
        Err(e) => Err(e),
    }
}

pub open spec fn refresh_view(r: Result<RefreshClaims, TokenError>) -> Result<
    RefreshView,
    TokenError,
> {
    match r {
        Ok(c) => Ok(c@),
        Err(e) => Err(e),
    }
}

/// Checks the access payload `p` at second `now`.
pub fn check_access(p: &str, now: i64) -> (r: Result<AccessClaims, TokenError>)
    ensures
        access_view(r) == access_check(p@, now as int),
        r matches Ok(c) ==> c.wf(),
{
    match parse_access(p) {
        None => Err(TokenError::InvalidToken),
        Some(c) => if now > c.exp {
            Err(TokenError::Expired)
        } else {
            Ok(c)
        },
    }
}

/// Checks the refresh payload `p` at second `now`.
pub fn check_refresh(p: &str, now: i64) -> (r: Result<RefreshClaims, TokenError>)
    ensures
        refresh_view(r) == refresh_check(p@, now as int),
        r matches Ok(c) ==> c.wf(),
{
    match parse_refresh(p) {
        None => Err(TokenError::InvalidToken),
        Some(c) => if now > c.exp {
            Err(TokenError::Expired)
        } else {
            Ok(c)
        },
    }
}

/// The clock reads no second beyond this one, on either side of the epoch.
pub const LATEST_TIME: i64 = 10_000_000_000_000;

/// Relies on chrono's conversion of std's `SystemTime::now` into a
/// `DateTime<Utc>`: whole seconds since the Unix epoch, negative before it,
/// within chrono's range of years, which lies inside `LATEST_TIME` either way.
#[verifier::external_body]
fn now_secs() -> (r: i64)
    ensures
        -LATEST_TIME <= r <= LATEST_TIME,
{
    chrono::DateTime::<chrono::Utc>::from(std::time::SystemTime::now()).timestamp()
}

/// Relies on uuid's `Uuid::new_v4` and its hyphenated text form, which
/// consists of hexadecimal digits and hyphens.
#[verifier::external_body]
fn new_token_id() -> (r: String)
    ensures
        is_id(r@),
{
    uuid::Uuid::new_v4().to_string()
}

/// The seconds from `now` to `exp`.
fn remaining(exp: i64, now: i64) -> (r: u64)
    requires
        now <= exp,
    ensures
        r == exp - now,
{
    (exp as i128 - now as i128) as u64
}

impl JwtService {
    pub closed spec fn view(&self) -> ServiceView {
        ServiceView {
            store: self.redis_store@,
            secret: self.secret@,
            access_lifetime: self.access_lifetime as int,
            refresh_lifetime: self.refresh_lifetime as int,
        }
    }

    /// A manager over `redis_store` signing with the bytes of `secret_key`,
    /// with the default lifetimes.
    pub fn new(redis_store: RedisStore, secret_key: String) -> (r: JwtService)
        ensures
            r@.wf(),
            r@.store == redis_store@,
            r@.secret == encode_utf8(secret_key@),
            r@.access_lifetime == ACCESS_LIFETIME,
            r@.refresh_lifetime == REFRESH_LIFETIME,
    {
        let secret = secret_key.as_str().as_bytes_vec();
        JwtService {
            redis_store,
            secret,
            access_lifetime: ACCESS_LIFETIME,
            refresh_lifetime: REFRESH_LIFETIME,
        }
    }

    /// A manager over `redis_store` with the given secret and lifetimes.
    pub fn with_config(
        redis_store: RedisStore,
        secret: Vec<u8>,
        access_lifetime: i64,
        refresh_lifetime: i64,
    ) -> (r: JwtService)
        requires
            0 <= access_lifetime,
            0 <= refresh_lifetime,
        ensures
            r@ == (ServiceView {
                store: redis_store@,
                secret: secret@,
                access_lifetime: access_lifetime as int,
                refresh_lifetime: refresh_lifetime as int,
            }),
    {
        JwtService { redis_store, secret, access_lifetime, refresh_lifetime }
    }

    /// The revocation store.
    pub fn store(&self) -> (r: &RedisStore)
        ensures
            r@ == self@.store,
    {
        &self.redis_store
    }

    fn can_issue(&self, now: i64, jti: &str) -> (r: bool)
        requires
            self@.wf(),
        ensures
            r == can_issue(self@, now as int, jti@),
    {
        now <= i64::MAX - self.access_lifetime && now <= i64::MAX - self.refresh_lifetime
            && is_id_str(jti)
    }

    /// Issues a pair for `user_id` at second `now`, under the refresh token
    /// identifier `jti`, and allow-lists `jti` until the refresh token expires.
    /// The allow-list write cannot fail, so no pair is handed out without its
    /// allow-list entry. A pair one of whose tokens is already blacklisted
    /// gives `EncodingError` and changes nothing; a fresh `jti` never does.
    pub fn issue_at(&mut self, user_id: i64, now: i64, jti: String) -> (r: Result<
        TokenPair,
        TokenError,
    >)
        requires
            old(self)@.wf(),
        ensures
            issue_post(old(self)@, final(self)@, user_id as int, now as int, jti@, pair_view(r)),
    {
        if !self.can_issue(now, jti.as_str()) {
            return Err(TokenError::EncodingError);
        }
        let access = AccessClaims::new(user_id, jti.clone(), now, self.access_lifetime);
        let refresh = RefreshClaims::new(user_id, jti, now, self.refresh_lifetime);
        let access_text = access_payload(&access);
        let refresh_text = refresh_payload(&refresh);
        proof {
            lemma_access_claims_in(access@);
            lemma_refresh_claims_in(refresh@);
        }
        let access_token = match jwt_sign(access_text.as_str(), self.secret.as_slice()) {
            Some(t) => t,
            None => return Err(TokenError::EncodingError),
        };
        let refresh_token = match jwt_sign(refresh_text.as_str(), self.secret.as_slice()) {
            Some(t) => t,
            None => return Err(TokenError::EncodingError),
        };
        if self.redis_store.is_blacklisted(access_token.as_str(), now)
            || self.redis_store.is_blacklisted(refresh_token.as_str(), now) {
            return Err(TokenError::EncodingError);
        }
        self.redis_store.add_to_allowlist(
            refresh.jti.as_str(),
            user_id,
            self.refresh_lifetime as u64,
            now,
        );
        Ok(TokenPair { access_token, refresh_token })
    }

    /// Issues a pair for `user_id` now, under a fresh random identifier. It
    /// succeeds whenever the identifier drawn is fresh and the lifetimes leave
    /// room for any reading of the clock.
    pub fn create_tokens(&mut self, user_id: i64) -> (r: Result<TokenPair, TokenError>)
        requires
            old(self)@.wf(),
        ensures
            exists|now: int, jti: Seq<char>|
                -LATEST_TIME <= now <= LATEST_TIME && is_id(jti) && issue_post(
                    old(self)@,
                    final(self)@,
                    user_id as int,
                    now,
                    jti,
                    pair_view(r),
                ) && (old(self)@.access_lifetime <= i64::MAX - LATEST_TIME
                    && old(self)@.refresh_lifetime <= i64::MAX - LATEST_TIME && fresh_id(
                    old(self)@,
                    jti,
                ) ==> r is Ok),
    {
        let now = now_secs();
        let jti = new_token_id();
        let ghost j = jti@;
        let r = self.issue_at(user_id, now, jti);
        proof {
            if old(self)@.access_lifetime <= i64::MAX - LATEST_TIME && old(self)@.refresh_lifetime
                <= i64::MAX - LATEST_TIME && fresh_id(old(self)@, j) {
                lemma_fresh_issue_succeeds(old(self)@, self@, user_id, now, j, pair_view(r));
            }
        }
        assert(is_id(j) && issue_post(old(self)@, self@, user_id as int, now as int, j, pair_view(r)));
        r
    }

    /// Opens an access token at second `now` and checks its claims, without
    /// consulting the store.
    pub fn decode_access_at(&self, token: &str, now: i64) -> (r: Result<AccessClaims, CodecError>)
        ensures
            decoded_access_view(r) == access_decoded(self@, token@, now as int),
            r matches Ok(c) ==> c.wf(),
    {
        let p = match jwt_open(token, self.secret.as_slice()) {
            Err(e) => return Err(e),
            Ok(p) => p,
        };
        match parse_access(p.as_str()) {
            None => Err(CodecError::Malformed),
            Some(c) => if now > c.exp {
                Err(CodecError::Expired)
            } else {
                Ok(c)
            },
        }
    }

    /// Opens a refresh token at second `now` and checks its claims, without
    /// consulting the store.
    pub fn decode_refresh_at(&self, token: &str, now: i64) -> (r: Result<RefreshClaims, CodecError>)
        ensures
            decoded_refresh_view(r) == refresh_decoded(self@, token@, now as int),
            r matches Ok(c) ==> c.wf(),
    {
        let p = match jwt_open(token, self.secret.as_slice()) {
            Err(e) => return Err(e),
            Ok(p) => p,
        };
        match parse_refresh(p.as_str()) {
            None => Err(CodecError::Malformed),
            Some(c) => if now > c.exp {
                Err(CodecError::Expired)
            } else {
                Ok(c)
            },
        }
    }

    /// Verifies an access token at second `now`.
    pub fn verify_access_at(&self, token: &str, now: i64) -> (r: Result<AccessClaims, TokenError>)
        ensures
            access_view(r) == access_outcome(self@, token@, now as int),
            r matches Ok(c) ==> c.wf(),
    {
        if self.redis_store.is_blacklisted(token, now) {
            return Err(TokenError::InvalidToken);
        }
        match self.decode_access_at(token, now) {
            Ok(c) => Ok(c),
            Err(CodecError::Expired) => Err(TokenError::Expired),
            Err(_) => Err(TokenError::InvalidToken),
        }
    }

    /// Verifies an access token now.
    pub fn verify_access_token(&self, token: &str) -> (r: Result<AccessClaims, TokenError>)
        ensures
            exists|now: int| -LATEST_TIME <= now <= LATEST_TIME && access_view(r) == access_outcome(self@, token@, now),
            r matches Ok(c) ==> c.wf(),
    {
        let now = now_secs();
        self.verify_access_at(token, now)
    }

    /// Exchanges a refresh token at second `now` for a new pair issued under
    /// `jti`; the token presented is revoked first. A `jti` that is the
    /// identifier of the token presented gives `EncodingError`, as does a
    /// `now` whose expiries would not fit; nothing changes then.
    pub fn refresh_at(&mut self, token: &str, now: i64, jti: String) -> (r: Result<
        TokenPair,
        TokenError,
    >)
        requires
            old(self)@.wf(),
        ensures
            refresh_post(old(self)@, final(self)@, token@, now as int, jti@, pair_view(r)),
            final(self)@.wf(),
            jwt_payload(token@, old(self)@.secret) matches Some(p) && refresh_claims_in(p) matches Some(
                c,
            ) && now > c.exp ==> r == Err::<TokenPair, TokenError>(TokenError::InvalidToken)
                && final(self)@ == old(self)@,
    {
        if self.redis_store.is_blacklisted(token, now) {
            return Err(TokenError::InvalidToken);
        }
        let c = match self.decode_refresh_at(token, now) {
            Err(_) => return Err(TokenError::InvalidToken),
            Ok(c) => c,
        };
        if !self.redis_store.is_allowlisted(c.jti.as_str(), now) {
            return Err(TokenError::InvalidToken);
        }
        if !self.can_issue(now, jti.as_str()) || c.jti == jti {
            return Err(TokenError::EncodingError);
        }
        self.redis_store.blacklist_token(token, remaining(c.exp, now), now);
        self.redis_store.remove_from_allowlist(c.jti.as_str());
        self.issue_at(c.sub, now, jti)
    }

    /// Exchanges a refresh token now for a new pair under a fresh identifier.
    pub fn refresh_tokens(&mut self, token: &str) -> (r: Result<TokenPair, TokenError>)
        requires
            old(self)@.wf(),
        ensures
            exists|now: int, jti: Seq<char>|
                -LATEST_TIME <= now <= LATEST_TIME && is_id(jti) && refresh_post(
                    old(self)@,
                    final(self)@,
                    token@,
                    now,
                    jti,
                    pair_view(r),
                ),
            final(self)@.wf(),
    {
        let now = now_secs();
        let jti = new_token_id();
        let ghost j = jti@;
        let r = self.refresh_at(token, now, jti);
        assert(is_id(j) && refresh_post(old(self)@, self@, token@, now as int, j, pair_view(r)));
        r
    }

    /// Revokes a refresh token at second `now`: it is blacklisted until it
    /// expires and its identifier leaves the allow-list. Revoking a token
    /// that was already used, revoked or has expired succeeds.
    pub fn revoke_at(&mut self, token: &str, now: i64) -> (r: Result<(), TokenError>)
        ensures
            revoke_post(old(self)@, final(self)@, token@, now as int, r),
    {
        let p = match jwt_open(token, self.secret.as_slice()) {
            Err(_) => return Err(TokenError::InvalidToken),
            Ok(p) => p,
        };
        let c = match parse_refresh(p.as_str()) {
            None => return Err(TokenError::InvalidToken),
            Some(c) => c,
        };
        if now <= c.exp {
            self.redis_store.blacklist_token(token, remaining(c.exp, now), now);
        }
        self.redis_store.remove_from_allowlist(c.jti.as_str());
        Ok(())
    }

    /// Drops the store entries that are dead at second `now`.
    pub fn purge_expired_at(&mut self, now: i64)
        ensures
            same_config(old(self)@, final(self)@, old(self)@.store.purged(now as int)),
    {
        self.redis_store.purge_expired(now);
    }

    /// Drops the store entries that are dead now.
    pub fn purge_expired(&mut self)
        ensures
            exists|now: int|
                -LATEST_TIME <= now <= LATEST_TIME && same_config(old(self)@, final(self)@, old(self)@.store.purged(now)),
    {
        let now = now_secs();
        self.purge_expired_at(now);
    }

    /// Revokes an access token at second `now`, so that it is refused for the
    /// rest of its lifetime.
    pub fn revoke_access_at(&mut self, token: &str, now: i64) -> (r: Result<(), TokenError>)
        ensures
            r == revoke_access_outcome(old(self)@, token@, now as int).0,
            same_config(old(self)@, final(self)@, revoke_access_outcome(old(self)@, token@, now as int).1),
    {
        let p = match jwt_open(token, self.secret.as_slice()) {
            Err(_) => return Err(TokenError::InvalidToken),
            Ok(p) => p,
        };
        let c = match parse_access(p.as_str()) {
            None => return Err(TokenError::InvalidToken),
            Some(c) => c,
        };
        if now <= c.exp {
            self.redis_store.blacklist_token(token, remaining(c.exp, now), now);
        }
        Ok(())
    }

    /// Revokes an access token now.
    pub fn revoke_access_token(&mut self, token: &str) -> (r: Result<(), TokenError>)
        ensures
            exists|now: int|
                -LATEST_TIME <= now <= LATEST_TIME && r == revoke_access_outcome(old(self)@, token@, now).0 && same_config(
                    old(self)@,
                    final(self)@,
                    revoke_access_outcome(old(self)@, token@, now).1,
                ),
    {
        let now = now_secs();
        self.revoke_access_at(token, now)
    }

    /// Revokes a refresh token now.
    pub fn revoke_token(&mut self, token: &str) -> (r: Result<(), TokenError>)
        ensures
            exists|now: int| -LATEST_TIME <= now <= LATEST_TIME && revoke_post(old(self)@, final(self)@, token@, now, r),
    {
        let now = now_secs();
        self.revoke_at(token, now)
    }
}

} // verus!
