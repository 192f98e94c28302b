//! Properties of the token lifecycle that hold across calls.
use vstd::prelude::*;
use crate::claims::{
    access_claims_in, access_text, lemma_access_claims_in, lemma_kinds_differ,
    lemma_refresh_claims_in,
    refresh_claims_in, refresh_text, AccessView,
};
use crate::codec::jwt_payload;
use crate::store::StoreView;
use crate::service::{
    access_outcome, can_issue, fresh_id, issue_post, issued_access, issued_access_token,
    issued_refresh, issued_refresh_token, opens_to_pair, tokens_open,
    refresh_check, refresh_post, revoke_access_outcome, revoke_post, same_config, ServiceView,
    TokenError,
};

verus! {

/// Every pair that `issue_at` hands out passes verification at the second it
/// was issued: the access token verifies to the claims just issued, whose
/// subject is the user; the refresh token opens to refresh claims that have
/// not expired and whose identifier is allow-listed.
pub proof fn lemma_issued_pair_verifies(
    v: ServiceView,
    v1: ServiceView,
    user: i64,
    now: i64,
    jti: Seq<char>,
    r: Result<(Seq<char>, Seq<char>), TokenError>,
)
    requires
        v.wf(),
        issue_post(v, v1, user as int, now as int, jti, r),
        r is Ok,
    ensures
        access_outcome(v1, r->Ok_0.0, now as int) == Ok::<_, TokenError>(
            issued_access(v, user as int, now as int, jti),
        ),
        access_outcome(v1, r->Ok_0.0, now as int)->Ok_0.sub == user,
        jwt_payload(r->Ok_0.1, v1.secret) matches Some(p) && refresh_check(p, now as int) == Ok::<
            _,
            TokenError,
        >(issued_refresh(v, user as int, now as int, jti)),
        v1.store.allowed(jti, now as int),
{
    assert(can_issue(v, now as int, jti));
    lemma_access_claims_in(issued_access(v, user as int, now as int, jti));
    lemma_refresh_claims_in(issued_refresh(v, user as int, now as int, jti));
}

/// Issuing under a fresh identifier, with expiries that fit, succeeds.
pub proof fn lemma_fresh_issue_succeeds(
    v: ServiceView,
    v1: ServiceView,
    user: i64,
    now: i64,
    jti: Seq<char>,
    r: Result<(Seq<char>, Seq<char>), TokenError>,
)
    requires
        v.wf(),
        can_issue(v, now as int, jti),
        fresh_id(v, jti),
        issue_post(v, v1, user as int, now as int, jti, r),
    ensures
        r is Ok,
{
    lemma_access_claims_in(issued_access(v, user as int, now as int, jti));
    lemma_refresh_claims_in(issued_refresh(v, user as int, now as int, jti));
    let a = issued_access_token(v, user as int, now as int, jti);
    let f = issued_refresh_token(v, user as int, now as int, jti);
    assert(opens_to_pair(v.secret, a, jti));
    assert(opens_to_pair(v.secret, f, jti));
    if v.store.black.contains_key(a) {
        assert(!opens_to_pair(v.secret, a, jti));
    }
    if v.store.black.contains_key(f) {
        assert(!opens_to_pair(v.secret, f, jti));
    }
}

/// A token that does not open under the secret, whatever its text (signed
/// with another secret, cut short, or no token at all), is refused as
/// `InvalidToken`.
pub proof fn lemma_unopened_token_refused(v: ServiceView, token: Seq<char>, now: int)
    requires
        jwt_payload(token, v.secret) is None,
    ensures
        access_outcome(v, token, now) == Err::<AccessView, TokenError>(TokenError::InvalidToken),
{
}

/// A rotation hands out a new pair: after a pair was issued, a successful
/// refresh with its refresh token, under the same secret and at any later
/// state of the store, returns an access token and a refresh token that
/// both differ from the pair's.
pub proof fn lemma_rotation_gives_new_pair(
    v: ServiceView,
    v0: ServiceView,
    user: i64,
    now: i64,
    jti: Seq<char>,
    pair: Result<(Seq<char>, Seq<char>), TokenError>,
    w: ServiceView,
    w1: ServiceView,
    t: i64,
    jti1: Seq<char>,
    r: Result<(Seq<char>, Seq<char>), TokenError>,
)
    requires
        v.wf(),
        issue_post(v, v0, user as int, now as int, jti, pair),
        pair is Ok,
        w.wf(),
        w.secret == v.secret,
        refresh_post(w, w1, pair->Ok_0.1, t as int, jti1, r),
        r is Ok,
    ensures
        r->Ok_0.0 != pair->Ok_0.0,
        r->Ok_0.1 != pair->Ok_0.1,
{
    let c = issued_refresh(v, user as int, now as int, jti);
    lemma_refresh_claims_in(c);
    lemma_access_claims_in(issued_access(v, user as int, now as int, jti));
    let a1 = issued_access(w, user as int, t as int, jti1);
    let c1 = issued_refresh(w, user as int, t as int, jti1);
    assert(jwt_payload(pair->Ok_0.1, w.secret) == Some(refresh_text(c)));
    assert(can_issue(w, t as int, jti1) && jti1 != jti);
    lemma_access_claims_in(a1);
    lemma_refresh_claims_in(c1);
    if r->Ok_0.0 == pair->Ok_0.0 {
        assert(access_claims_in(access_text(a1)) == Some(a1));
    }
    if r->Ok_0.1 == pair->Ok_0.1 {
        assert(refresh_claims_in(refresh_text(c1)) == Some(c1));
    }
}

/// A refresh token serves at most one exchange: once a refresh with it has
/// succeeded, any further refresh with the same token fails with
/// `InvalidToken`, whatever the clock reads then.
pub proof fn lemma_refresh_single_use(
    v0: ServiceView,
    v1: ServiceView,
    v2: ServiceView,
    token: Seq<char>,
    t1: int,
    t2: int,
    jti1: Seq<char>,
    jti2: Seq<char>,
    r1: Result<(Seq<char>, Seq<char>), TokenError>,
    r2: Result<(Seq<char>, Seq<char>), TokenError>,
)
    requires
        refresh_post(v0, v1, token, t1, jti1, r1),
        refresh_post(v1, v2, token, t2, jti2, r2),
        r1 is Ok,
    ensures
        r2 == Err::<(Seq<char>, Seq<char>), TokenError>(TokenError::InvalidToken),
{
}

/// Of two successive refreshes with the refresh token of a pair that
/// `issue_at` handed out, the first within its lifetime and asking for a
/// fresh identifier, the first succeeds and the second fails with
/// `InvalidToken`.
pub proof fn lemma_fresh_pair_single_use(
    v: ServiceView,
    v0: ServiceView,
    v1: ServiceView,
    v2: ServiceView,
    user: i64,
    now: i64,
    jti: Seq<char>,
    r: Result<(Seq<char>, Seq<char>), TokenError>,
    t1: int,
    t2: int,
    jti1: Seq<char>,
    jti2: Seq<char>,
    r1: Result<(Seq<char>, Seq<char>), TokenError>,
    r2: Result<(Seq<char>, Seq<char>), TokenError>,
)
    requires
        v.wf(),
        issue_post(v, v0, user as int, now as int, jti, r),
        r is Ok,
        now <= t1,
        t1 <= now + v.refresh_lifetime,
        can_issue(v, t1, jti1),
        jti1 != jti,
        fresh_id(v, jti1),
        refresh_post(v0, v1, r->Ok_0.1, t1, jti1, r1),
        refresh_post(v1, v2, r->Ok_0.1, t2, jti2, r2),
    ensures
        r1 is Ok,
        r2 == Err::<(Seq<char>, Seq<char>), TokenError>(TokenError::InvalidToken),
{
    assert(can_issue(v, now as int, jti));
    let c = issued_refresh(v, user as int, now as int, jti);
    lemma_refresh_claims_in(c);
    let f = r->Ok_0.1;
    assert(jwt_payload(f, v.secret) == Some(refresh_text(c)));
    assert(!v.store.blacklisted(f, now as int));
    assert(!v0.store.blacklisted(f, t1));
    assert(v0.store.allowed(jti, t1));
    let na = issued_access(v, user as int, t1, jti1);
    let nc = issued_refresh(v, user as int, t1, jti1);
    lemma_access_claims_in(na);
    lemma_refresh_claims_in(nc);
    lemma_kinds_differ(na, c);
    assert(issued_access(v0, user as int, t1, jti1) == na);
    assert(issued_refresh(v0, user as int, t1, jti1) == nc);
    assert(tokens_open(v0, user as int, t1, jti1));
    let a1 = issued_access_token(v, user as int, t1, jti1);
    let f1 = issued_refresh_token(v, user as int, t1, jti1);
    assert(opens_to_pair(v.secret, a1, jti1));
    assert(opens_to_pair(v.secret, f1, jti1));
    if v.store.black.contains_key(a1) {
        assert(!opens_to_pair(v.secret, a1, jti1));
    }
    if v.store.black.contains_key(f1) {
        assert(!opens_to_pair(v.secret, f1, jti1));
    }
    assert(a1 != f);
    assert(f1 != f);
    lemma_refresh_single_use(v0, v1, v2, f, t1, t2, jti1, jti2, r1, r2);
}

/// After a refresh token is revoked, a refresh with it fails with
/// `InvalidToken`, whatever the clock reads then.
pub proof fn lemma_revoked_cannot_refresh(
    v0: ServiceView,
    v1: ServiceView,
    v2: ServiceView,
    token: Seq<char>,
    t1: int,
    t2: int,
    jti: Seq<char>,
    r1: Result<(), TokenError>,
    r2: Result<(Seq<char>, Seq<char>), TokenError>,
)
    requires
        revoke_post(v0, v1, token, t1, r1),
        refresh_post(v1, v2, token, t2, jti, r2),
    ensures
        r2 == Err::<(Seq<char>, Seq<char>), TokenError>(TokenError::InvalidToken),
{
}

/// Revoking is idempotent: once revoking a token has succeeded, revoking it
/// again succeeds too.
pub proof fn lemma_revoke_idempotent(
    v0: ServiceView,
    v1: ServiceView,
    v2: ServiceView,
    token: Seq<char>,
    t1: int,
    t2: int,
    r1: Result<(), TokenError>,
    r2: Result<(), TokenError>,
)
    requires
        revoke_post(v0, v1, token, t1, r1),
        revoke_post(v1, v2, token, t2, r2),
        r1 is Ok,
    ensures
        r2 is Ok,
{
}

/// Once an access token has been revoked, it no longer verifies: from then on
/// verification fails, with `InvalidToken` or, past its expiry, `Expired`.
pub proof fn lemma_revoked_access_refused(
    v0: ServiceView,
    v1: ServiceView,
    token: Seq<char>,
    t1: int,
    t2: int,
)
    requires
        same_config(v0, v1, revoke_access_outcome(v0, token, t1).1),
        t1 <= t2,
    ensures
        access_outcome(v1, token, t2) is Err,
{
}

/// Dropping the dead entries at second `now` changes no answer of the store
/// at `now` or later.
pub proof fn lemma_purge_keeps_answers(s: StoreView, now: int, t: int, key: Seq<char>)
    requires
        now <= t,
    ensures
        s.purged(now).allowed(key, t) == s.allowed(key, t),
        s.purged(now).blacklisted(key, t) == s.blacklisted(key, t),
{
}

} // verus!
