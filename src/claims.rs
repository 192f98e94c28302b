//! Claim sets carried by access and refresh tokens, and the JSON text that a
//! token signs for each of them.
use vstd::prelude::*;
use vstd::string::{StrSliceExecFns, StringExecFns};
use crate::text::{
    chars_of, digit_of, expect_lit, id_run_end, int_at, int_string, int_text, is_id, is_id_char,
    lemma_id_run_end, lemma_int_at_text, read_id, read_int,
};

verus! {

/// Claims of an access token: subject, expiry and issue time in seconds, and
/// the identifier of the pair it was issued in.
pub struct AccessClaims {
    pub sub: i64,
    pub exp: i64,
    pub iat: i64,
    pub jti: String,
    pub token_type: String,
}

/// Claims of a refresh token; `jti` keys its allow-list entry.
pub struct RefreshClaims {
    pub sub: i64,
    pub exp: i64,
    pub iat: i64,
    pub jti: String,
    pub token_type: String,
}

/// A freshly minted pair of signed tokens.
pub struct TokenPair {
    pub access_token: String,
    pub refresh_token: String,
}

/// What an access claim set states.
pub struct AccessView {
    pub sub: int,
    pub exp: int,
    pub iat: int,
    pub jti: Seq<char>,
}

/// What a refresh claim set states.
pub struct RefreshView {
    pub sub: int,
    pub exp: int,
    pub iat: int,
    pub jti: Seq<char>,
}

pub open spec fn fits_i64(n: int) -> bool {
    i64::MIN <= n <= i64::MAX
}

impl AccessView {
    pub open spec fn fits(self) -> bool {
        fits_i64(self.sub) && fits_i64(self.exp) && fits_i64(self.iat) && is_id(self.jti)
    }
}

impl RefreshView {
    pub open spec fn fits(self) -> bool {
        fits_i64(self.sub) && fits_i64(self.exp) && fits_i64(self.iat) && is_id(self.jti)
    }
}

impl AccessClaims {
    pub open spec fn view(&self) -> AccessView {
        AccessView {
            sub: self.sub as int,
            exp: self.exp as int,
            iat: self.iat as int,
            jti: self.jti@,
        }
    }

    /// The type tag reads "access".
    pub open spec fn wf(&self) -> bool {
        self.token_type@ == "access"@
    }

    /// Claims for `user_id` in the pair `jti`, issued at `now` and valid for
    /// `lifetime` seconds.
    pub fn new(user_id: i64, jti: String, now: i64, lifetime: i64) -> (r: AccessClaims)
        requires
            fits_i64(now + lifetime),
        ensures
            r.wf(),
            r@ == (AccessView {
                sub: user_id as int,
                exp: now + lifetime,
                iat: now as int,
                jti: jti@,
            }),
    {
        AccessClaims {
            sub: user_id,
            exp: now + lifetime,
            iat: now,
            jti,
            token_type: "access".to_owned(),
        }
    }
}

impl RefreshClaims {
    pub open spec fn view(&self) -> RefreshView {
        RefreshView {
            sub: self.sub as int,
            exp: self.exp as int,
            iat: self.iat as int,
            jti: self.jti@,
        }
    }

    /// The type tag reads "refresh".
    pub open spec fn wf(&self) -> bool {
        self.token_type@ == "refresh"@
    }

    /// Claims for `user_id` under identifier `jti`, issued at `now` and valid
    /// for `lifetime` seconds.
    pub fn new(user_id: i64, jti: String, now: i64, lifetime: i64) -> (r: RefreshClaims)
        requires
            fits_i64(now + lifetime),
        ensures
            r.wf(),
            r@ == (RefreshView {
                sub: user_id as int,
                exp: now + lifetime,
                iat: now as int,
                jti: jti@,
            }),
    {
        RefreshClaims {
            sub: user_id,
            exp: now + lifetime,
            iat: now,
            jti,
            token_type: "refresh".to_owned(),
        }
    }
}

/// The part that both payloads share: subject, expiry and issue time.
pub open spec fn times_text(sub: int, exp: int, iat: int) -> Seq<char> {
    "{\"sub\":"@ + int_text(sub) + ",\"exp\":"@ + int_text(exp) + ",\"iat\":"@ + int_text(iat)
}

/// The shared part followed by the pair identifier, up to its closing quote.
pub open spec fn head_text(sub: int, exp: int, iat: int, jti: Seq<char>) -> Seq<char> {
    times_text(sub, exp, iat) + ",\"jti\":\""@ + jti
}

/// The JSON payload signed into an access token.
pub open spec fn access_text(c: AccessView) -> Seq<char> {
    head_text(c.sub, c.exp, c.iat, c.jti) + "\",\"token_type\":\"access\"}"@
}

/// The JSON payload signed into a refresh token.
pub open spec fn refresh_text(c: RefreshView) -> Seq<char> {
    head_text(c.sub, c.exp, c.iat, c.jti) + "\",\"token_type\":\"refresh\"}"@
}

/// The access claims whose payload is `p`, if `p` is one.
pub open spec fn access_claims_in(p: Seq<char>) -> Option<AccessView> {
    if exists|c: AccessView| c.fits() && p == access_text(c) {
        Some(choose|c: AccessView| c.fits() && p == access_text(c))
    } else {
        None
    }
}

/// The refresh claims whose payload is `p`, if `p` is one.
pub open spec fn refresh_claims_in(p: Seq<char>) -> Option<RefreshView> {
    if exists|c: RefreshView| c.fits() && p == refresh_text(c) {
        Some(choose|c: RefreshView| c.fits() && p == refresh_text(c))
    } else {
        None
    }
}

/// A payload that this library writes.
pub open spec fn is_claims_text(p: Seq<char>) -> bool {
    access_claims_in(p) is Some || refresh_claims_in(p) is Some
}

spec fn lit_at(s: Seq<char>, pos: int, lit: Seq<char>) -> Option<int> {
    if 0 <= pos && pos + lit.len() <= s.len() && s.subrange(pos, pos + lit.len()) == lit {
        Some(pos + lit.len())
    } else {
        None
    }
}

/// Subject, expiry and issue time read from the head of `s`, and where they end.
spec fn times_at(s: Seq<char>) -> Option<(int, int, int, int)> {
    match lit_at(s, 0, "{\"sub\":"@) {
        None => None,
        Some(a) => match int_at(s, a) {
            None => None,
            Some((sub, b)) => match lit_at(s, b, ",\"exp\":"@) {
                None => None,
                Some(c) => match int_at(s, c) {
                    None => None,
                    Some((exp, d)) => match lit_at(s, d, ",\"iat\":"@) {
                        None => None,
                        Some(e) => match int_at(s, e) {
                            None => None,
                            Some((iat, f)) => Some((sub, exp, iat, f)),
                        },
                    },
                },
            },
        },
    }
}

proof fn lemma_concat_mid(a: Seq<char>, b: Seq<char>, c: Seq<char>)
    ensures
        (a + b + c).subrange(a.len() as int, (a.len() + b.len()) as int) == b,
        c.len() > 0 ==> (a + b + c)[(a.len() + b.len()) as int] == c[0],
{
    assert((a + b + c).subrange(a.len() as int, (a.len() + b.len()) as int) =~= b);
}

proof fn lemma_lit_step(pre: Seq<char>, lit: Seq<char>, rest: Seq<char>)
    ensures
        lit_at(pre + lit + rest, pre.len() as int, lit) == Some((pre.len() + lit.len()) as int),
{
    lemma_concat_mid(pre, lit, rest);
}

proof fn lemma_int_step(pre: Seq<char>, n: int, rest: Seq<char>)
    requires
        fits_i64(n),
        rest.len() > 0,
        digit_of(rest[0]) is None,
    ensures
        int_at(pre + int_text(n) + rest, pre.len() as int) == Some(
            (n, (pre.len() + int_text(n).len()) as int),
        ),
{
    lemma_concat_mid(pre, int_text(n), rest);
    lemma_int_at_text(pre + int_text(n) + rest, pre.len() as int, n);
}

#[verifier::rlimit(50)]
proof fn lemma_times_at(sub: int, exp: int, iat: int, rest: Seq<char>)
    requires
        fits_i64(sub),
        fits_i64(exp),
        fits_i64(iat),
        rest.len() > 0,
        rest[0] == ',',
    ensures
        times_at(times_text(sub, exp, iat) + rest) == Some(
            (sub, exp, iat, times_text(sub, exp, iat).len() as int),
        ),
{
    let l0 = "{\"sub\":"@;
    let l1 = ",\"exp\":"@;
    let l2 = ",\"iat\":"@;
    reveal_strlit(",\"exp\":");
    reveal_strlit(",\"iat\":");
    let t1 = int_text(sub);
    let t2 = int_text(exp);
    let t3 = int_text(iat);
    let s = times_text(sub, exp, iat) + rest;
    let after_sub = l0 + t1;
    let before_exp = after_sub + l1;
    let after_exp = before_exp + t2;
    let before_iat = after_exp + l2;
    let after_iat = before_iat + t3;
    assert(s =~= Seq::<char>::empty() + l0 + (t1 + l1 + t2 + l2 + t3 + rest));
    lemma_lit_step(Seq::<char>::empty(), l0, t1 + l1 + t2 + l2 + t3 + rest);
    assert(s =~= l0 + t1 + (l1 + t2 + l2 + t3 + rest));
    lemma_int_step(l0, sub, l1 + t2 + l2 + t3 + rest);
    assert(s =~= after_sub + l1 + (t2 + l2 + t3 + rest));
    lemma_lit_step(after_sub, l1, t2 + l2 + t3 + rest);
    assert(s =~= before_exp + t2 + (l2 + t3 + rest));
    lemma_int_step(before_exp, exp, l2 + t3 + rest);
    assert(s =~= after_exp + l2 + (t3 + rest));
    lemma_lit_step(after_exp, l2, t3 + rest);
    assert(s =~= before_iat + t3 + rest);
    lemma_int_step(before_iat, iat, rest);
    assert(after_iat =~= times_text(sub, exp, iat));
}

/// Reads subject, expiry and issue time from the head of `s`.
fn parse_times(s: &Vec<char>) -> (r: Option<(i64, i64, i64, usize)>)
    ensures
        match r {
            Some((sub, exp, iat, e)) => times_at(s@) == Some(
                (sub as int, exp as int, iat as int, e as int),
            ),
            None => times_at(s@) is None,
        },
        r matches Some((sub, exp, iat, e)) ==> e <= s.len(),
{
    let a = match expect_lit(s, 0, "{\"sub\":") {
        Some(a) => a,
        None => return None,
    };
    let (sub, b) = match read_int(s, a) {
        Some(x) => x,
        None => return None,
    };
    let c = match expect_lit(s, b, ",\"exp\":") {
        Some(c) => c,
        None => return None,
    };
    let (exp, d) = match read_int(s, c) {
        Some(x) => x,
        None => return None,
    };
    let e = match expect_lit(s, d, ",\"iat\":") {
        Some(e) => e,
        None => return None,
    };
    let (iat, f) = match read_int(s, e) {
        Some(x) => x,
        None => return None,
    };
    Some((sub, exp, iat, f))
}

fn head_payload(sub: i64, exp: i64, iat: i64, jti: &str) -> (r: String)
    ensures
        r@ == head_text(sub as int, exp as int, iat as int, jti@),
{
    let mut r = String::new();
    r.append("{\"sub\":");
    r.append(int_string(sub).as_str());
    r.append(",\"exp\":");
    r.append(int_string(exp).as_str());
    r.append(",\"iat\":");
    r.append(int_string(iat).as_str());
    r.append(",\"jti\":\"");
    r.append(jti);
    r
}

/// The JSON payload of an access claim set.
pub fn access_payload(c: &AccessClaims) -> (r: String)
    ensures
        r@ == access_text(c@),
{
    let mut r = head_payload(c.sub, c.exp, c.iat, c.jti.as_str());
    r.append("\",\"token_type\":\"access\"}");
    r
}

/// The JSON payload of a refresh claim set.
pub fn refresh_payload(c: &RefreshClaims) -> (r: String)
    ensures
        r@ == refresh_text(c@),
{
    let mut r = head_payload(c.sub, c.exp, c.iat, c.jti.as_str());
    r.append("\",\"token_type\":\"refresh\"}");
    r
}

/// Subject, expiry, issue time and pair identifier read from the head of `s`.
spec fn head_at(s: Seq<char>) -> Option<(int, int, int, Seq<char>)> {
    match times_at(s) {
        None => None,
        Some((sub, exp, iat, f)) => match lit_at(s, f, ",\"jti\":\""@) {
            None => None,
            Some(g) => Some((sub, exp, iat, s.subrange(g, id_run_end(s, g)))),
        },
    }
}

/// The identifier and its closing text, after the shared head and the `jti` key.
proof fn lemma_id_tail(head: Seq<char>, lj: Seq<char>, jti: Seq<char>, lt: Seq<char>)
    requires
        is_id(jti),
        lt.len() > 0,
        !is_id_char(lt[0]),
    ensures
        ({
            let t = head + lj + jti + lt;
            let g = (head.len() + lj.len()) as int;
            &&& lit_at(t, head.len() as int, lj) == Some(g)
            &&& id_run_end(t, g) == g + jti.len()
            &&& t.subrange(g, g + jti.len()) == jti
        }),
{
    let t = head + lj + jti + lt;
    assert(t =~= head + lj + (jti + lt));
    lemma_lit_step(head, lj, jti + lt);
    lemma_concat_mid(head + lj, jti, lt);
    let g = (head + lj).len() as int;
    assert forall|j: int| g <= j < g + jti.len() implies is_id_char(#[trigger] t[j]) by {
        assert(t[j] == jti[j - g]);
    }
    lemma_id_run_end(t, g, g + jti.len());
}

/// Reading the head of a payload that closes with `lt`.
proof fn lemma_head(sub: int, exp: int, iat: int, jti: Seq<char>, lt: Seq<char>)
    requires
        fits_i64(sub),
        fits_i64(exp),
        fits_i64(iat),
        is_id(jti),
        lt.len() > 0,
        lt[0] == '"',
    ensures
        head_at(head_text(sub, exp, iat, jti) + lt) == Some((sub, exp, iat, jti)),
{
    let times = times_text(sub, exp, iat);
    let lj = ",\"jti\":\""@;
    reveal_strlit(",\"jti\":\"");
    let t = head_text(sub, exp, iat, jti) + lt;
    assert(t =~= times + (lj + jti + lt));
    lemma_times_at(sub, exp, iat, lj + jti + lt);
    assert(t =~= times + lj + jti + lt);
    lemma_id_tail(times, lj, jti, lt);
}

proof fn lemma_access_head(c: AccessView)
    requires
        c.fits(),
    ensures
        head_at(access_text(c)) == Some((c.sub, c.exp, c.iat, c.jti)),
{
    reveal_strlit("\",\"token_type\":\"access\"}");
    lemma_head(c.sub, c.exp, c.iat, c.jti, "\",\"token_type\":\"access\"}"@);
}

proof fn lemma_refresh_head(c: RefreshView)
    requires
        c.fits(),
    ensures
        head_at(refresh_text(c)) == Some((c.sub, c.exp, c.iat, c.jti)),
{
    reveal_strlit("\",\"token_type\":\"refresh\"}");
    lemma_head(c.sub, c.exp, c.iat, c.jti, "\",\"token_type\":\"refresh\"}"@);
}

/// The payload of an access claim set reads back as that claim set.
pub proof fn lemma_access_claims_in(c: AccessView)
    requires
        c.fits(),
    ensures
        access_claims_in(access_text(c)) == Some(c),
{
    let d = choose|d: AccessView| d.fits() && access_text(c) == access_text(d);
    lemma_access_head(c);
    lemma_access_head(d);
}

/// No payload is both an access payload and a refresh payload.
pub proof fn lemma_kinds_differ(a: AccessView, c: RefreshView)
    requires
        a.fits(),
        c.fits(),
    ensures
        access_text(a) != refresh_text(c),
{
    lemma_access_head(a);
    lemma_refresh_head(c);
    reveal_strlit("\",\"token_type\":\"access\"}");
    reveal_strlit("\",\"token_type\":\"refresh\"}");
    if access_text(a) == refresh_text(c) {
        assert(head_text(a.sub, a.exp, a.iat, a.jti) == head_text(c.sub, c.exp, c.iat, c.jti));
        assert(access_text(a).len() != refresh_text(c).len());
    }
}

/// The payload of a refresh claim set reads back as that claim set.
pub proof fn lemma_refresh_claims_in(c: RefreshView)
    requires
        c.fits(),
    ensures
        refresh_claims_in(refresh_text(c)) == Some(c),
{
    let d = choose|d: RefreshView| d.fits() && refresh_text(c) == refresh_text(d);
    lemma_refresh_head(c);
    lemma_refresh_head(d);
}

/// Reads subject, expiry, issue time and pair identifier from the head of `p`.
fn parse_head(p: &str, s: &Vec<char>) -> (r: Option<(i64, i64, i64, String)>)
    requires
        s@ == p@,
    ensures
        match r {
            Some((sub, exp, iat, jti)) => head_at(p@) == Some(
                (sub as int, exp as int, iat as int, jti@),
            ) && is_id(jti@),
            None => head_at(p@) is None,
        },
{
    let (sub, exp, iat, f) = match parse_times(s) {
        None => return None,
        Some(x) => x,
    };
    let g = match expect_lit(s, f, ",\"jti\":\"") {
        None => return None,
        Some(g) => g,
    };
    let h = read_id(s, g);
    let jti = p.substring_char(g, h).to_owned();
    proof {
        assert forall|j: int| 0 <= j < jti@.len() implies is_id_char(#[trigger] jti@[j]) by {
            lemma_id_run_prefix(s@, g as int, h as int, g + j);
        }
    }
    Some((sub, exp, iat, jti))
}

/// The access claims written in `p`; `None` for any other text.
pub fn parse_access(p: &str) -> (r: Option<AccessClaims>)
    ensures
        match r {
            Some(c) => c.wf() && access_claims_in(p@) == Some(c@),
            None => access_claims_in(p@) is None,
        },
{
    let s = chars_of(p);
    proof {
        if exists|c: AccessView| c.fits() && p@ == access_text(c) {
            let c = choose|c: AccessView| c.fits() && p@ == access_text(c);
            lemma_access_head(c);
        }
    }
    let (sub, exp, iat, jti) = match parse_head(p, &s) {
        None => return None,
        Some(x) => x,
    };
    let c = AccessClaims { sub, exp, iat, jti, token_type: "access".to_owned() };
    let printed = access_payload(&c);
    let given = p.to_owned();
    if printed == given {
        proof {
            assert(c@.fits() && p@ == access_text(c@));
            let d = choose|d: AccessView| d.fits() && p@ == access_text(d);
            lemma_access_head(d);
            assert(d == c@);
        }
        Some(c)
    } else {
        None
    }
}

/// The refresh claims written in `p`; `None` for any other text.
pub fn parse_refresh(p: &str) -> (r: Option<RefreshClaims>)
    ensures
        match r {
            Some(c) => c.wf() && refresh_claims_in(p@) == Some(c@),
            None => refresh_claims_in(p@) is None,
        },
{
    let s = chars_of(p);
    proof {
        if exists|c: RefreshView| c.fits() && p@ == refresh_text(c) {
            let c = choose|c: RefreshView| c.fits() && p@ == refresh_text(c);
            lemma_refresh_head(c);
        }
    }
    let (sub, exp, iat, jti) = match parse_head(p, &s) {
        None => return None,
        Some(x) => x,
    };
    let c = RefreshClaims { sub, exp, iat, jti, token_type: "refresh".to_owned() };
    let printed = refresh_payload(&c);
    let given = p.to_owned();
    if printed == given {
        proof {
            assert(c@.fits() && p@ == refresh_text(c@));
            let d = choose|d: RefreshView| d.fits() && p@ == refresh_text(d);
            lemma_refresh_head(d);
            assert(d == c@);
        }
        Some(c)
    } else {
        None
    }
}

/// Inside a run of identifier characters every character is one.
proof fn lemma_id_run_prefix(s: Seq<char>, i: int, end: int, j: int)
    requires
        id_run_end(s, i) == end,
        i <= j < end,
    ensures
        0 <= j < s.len(),
        is_id_char(s[j]),
    decreases j - i,
{
    if !(0 <= i < s.len() && is_id_char(s[i])) {
        assert(false);
    } else if i < j {
        lemma_id_run_prefix(s, i + 1, end, j);
    }
}

} // verus!
