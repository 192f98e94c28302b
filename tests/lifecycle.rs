use token_lifecycle::claims::{access_payload, parse_access, parse_refresh, refresh_payload};
use token_lifecycle::service::{check_access, check_refresh, ACCESS_LIFETIME, REFRESH_LIFETIME};
use token_lifecycle::codec::CodecError;
use token_lifecycle::{create_redis_store, AccessClaims, JwtService, RefreshClaims, TokenError};

const SECRET: &[u8] = b"test-secret";

fn service() -> JwtService {
    JwtService::with_config(create_redis_store(), SECRET.to_vec(), 900, 604800)
}

#[test]
fn issued_access_token_verifies_to_its_user() {
    let mut svc = service();
    let pair = svc.issue_at(42, 1000, "aaaa-1111".to_string()).unwrap();
    let claims = svc.verify_access_at(&pair.access_token, 1000).unwrap();
    assert_eq!(claims.sub, 42);
    assert_eq!(claims.iat, 1000);
    assert_eq!(claims.exp, 1900);
    assert_eq!(claims.token_type, "access");
    assert!(svc.store().is_allowlisted("aaaa-1111", 1000));
}

#[test]
fn issued_refresh_token_is_structurally_valid() {
    let mut svc = service();
    let pair = svc.issue_at(7, 50, "r-1".to_string()).unwrap();
    assert_ne!(pair.access_token, pair.refresh_token);
    assert_eq!(pair.refresh_token.split('.').count(), 3);
    let r = svc.refresh_at(&pair.refresh_token, 60, "r-2".to_string());
    assert!(r.is_ok());
}

#[test]
fn refresh_rotates_the_pair_for_user_42() {
    let mut svc = service();
    let first = svc.issue_at(42, 1000, "first-id".to_string()).unwrap();
    let second = svc.refresh_at(&first.refresh_token, 1000, "second-id".to_string()).unwrap();
    assert_ne!(second.access_token, first.access_token);
    assert_ne!(second.refresh_token, first.refresh_token);
    assert_eq!(svc.verify_access_at(&second.access_token, 1000).unwrap().sub, 42);
    let again = svc.refresh_at(&first.refresh_token, 1006, "third-id".to_string());
    assert_eq!(again.err(), Some(TokenError::InvalidToken));
    assert!(!svc.store().is_allowlisted("first-id", 1006));
    assert!(svc.store().is_allowlisted("second-id", 1006));
    assert!(svc.store().is_blacklisted(&first.refresh_token, 1006));
}

#[test]
fn refresh_token_serves_one_exchange() {
    let mut svc = service();
    let pair = svc.issue_at(5, 0, "once".to_string()).unwrap();
    let a = svc.refresh_at(&pair.refresh_token, 1, "next-a".to_string());
    let b = svc.refresh_at(&pair.refresh_token, 1, "next-b".to_string());
    let successes = [a.is_ok(), b.is_ok()].iter().filter(|x| **x).count();
    assert_eq!(successes, 1);
    assert_eq!(b.err(), Some(TokenError::InvalidToken));
}

#[test]
fn revoked_refresh_token_cannot_refresh() {
    let mut svc = service();
    let pair = svc.issue_at(9, 100, "to-revoke".to_string()).unwrap();
    assert_eq!(svc.revoke_at(&pair.refresh_token, 101), Ok(()));
    let r = svc.refresh_at(&pair.refresh_token, 102, "after".to_string());
    assert_eq!(r.err(), Some(TokenError::InvalidToken));
}

#[test]
fn expired_refresh_token_is_rejected_while_allow_listed() {
    let mut svc = JwtService::with_config(create_redis_store(), SECRET.to_vec(), 900, 10);
    let old = svc.issue_at(3, 0, "shared".to_string()).unwrap();
    // A later pair under the same identifier keeps it allow-listed past the
    // first refresh token's expiry.
    let _newer = svc.issue_at(3, 5, "shared".to_string()).unwrap();
    assert!(svc.store().is_allowlisted("shared", 11));
    let r = svc.refresh_at(&old.refresh_token, 11, "next".to_string());
    assert_eq!(r.err(), Some(TokenError::InvalidToken));
    assert!(svc.store().is_allowlisted("shared", 11));
    assert!(!svc.store().is_blacklisted(&old.refresh_token, 11));
}

#[test]
fn wrong_secret_token_is_invalid() {
    let mut other = JwtService::with_config(create_redis_store(), b"another-secret".to_vec(), 900, 604800);
    let forged = other.issue_at(42, 1000, "forged".to_string()).unwrap();
    let svc = service();
    assert_eq!(svc.verify_access_at(&forged.access_token, 1000).err(), Some(TokenError::InvalidToken));
}

#[test]
fn revoke_twice_succeeds() {
    let mut svc = service();
    let pair = svc.issue_at(8, 0, "twice".to_string()).unwrap();
    assert_eq!(svc.revoke_at(&pair.refresh_token, 1), Ok(()));
    assert_eq!(svc.revoke_at(&pair.refresh_token, 2), Ok(()));
}

#[test]
fn revoke_of_expired_token_succeeds_without_blacklisting() {
    let mut svc = JwtService::with_config(create_redis_store(), SECRET.to_vec(), 900, 10);
    let pair = svc.issue_at(8, 0, "gone".to_string()).unwrap();
    assert_eq!(svc.revoke_at(&pair.refresh_token, 20), Ok(()));
    assert!(!svc.store().is_blacklisted(&pair.refresh_token, 20));
    assert!(!svc.store().is_allowlisted("gone", 5));
}

#[test]
fn revoke_of_garbage_is_invalid() {
    let mut svc = service();
    assert_eq!(svc.revoke_at("invalid_token", 0), Err(TokenError::InvalidToken));
}

#[test]
fn refresh_with_malformed_token_is_invalid() {
    let mut svc = service();
    let r = svc.refresh_at("invalid_token", 0, "x".to_string());
    assert_eq!(r.err(), Some(TokenError::InvalidToken));
}

#[test]
fn access_token_expires() {
    let mut svc = service();
    let pair = svc.issue_at(1, 0, "exp".to_string()).unwrap();
    assert!(svc.verify_access_at(&pair.access_token, 900).is_ok());
    assert_eq!(svc.verify_access_at(&pair.access_token, 901).err(), Some(TokenError::Expired));
}

#[test]
fn refresh_token_is_not_an_access_token() {
    let mut svc = service();
    let pair = svc.issue_at(1, 0, "kind".to_string()).unwrap();
    assert_eq!(svc.verify_access_at(&pair.refresh_token, 0).err(), Some(TokenError::InvalidToken));
}

#[test]
fn access_token_is_not_a_refresh_token() {
    let mut svc = service();
    let pair = svc.issue_at(1, 0, "kind2".to_string()).unwrap();
    let r = svc.refresh_at(&pair.access_token, 0, "k".to_string());
    assert_eq!(r.err(), Some(TokenError::InvalidToken));
}

#[test]
fn issue_refuses_an_unwritable_identifier() {
    let mut svc = service();
    let r = svc.issue_at(1, 0, "quote\"inside".to_string());
    assert_eq!(r.err(), Some(TokenError::EncodingError));
    assert!(!svc.store().is_allowlisted("quote\"inside", 0));
}

#[test]
fn issue_refuses_an_expiry_past_the_range() {
    let mut svc = service();
    let r = svc.issue_at(1, i64::MAX - 10, "late".to_string());
    assert_eq!(r.err(), Some(TokenError::EncodingError));
}

#[test]
fn live_calls_issue_verify_refresh_and_revoke() {
    let mut svc = JwtService::new(create_redis_store(), "secret".to_string());
    let pair = svc.create_tokens(11).unwrap();
    assert_eq!(svc.verify_access_token(&pair.access_token).unwrap().sub, 11);
    let next = svc.refresh_tokens(&pair.refresh_token).unwrap();
    assert_ne!(next.refresh_token, pair.refresh_token);
    assert_eq!(svc.refresh_tokens(&pair.refresh_token).err(), Some(TokenError::InvalidToken));
    assert_eq!(svc.revoke_token(&next.refresh_token), Ok(()));
    assert_eq!(svc.refresh_tokens(&next.refresh_token).err(), Some(TokenError::InvalidToken));
}

#[test]
fn default_lifetimes() {
    assert_eq!(ACCESS_LIFETIME, 15 * 60);
    assert_eq!(REFRESH_LIFETIME, 7 * 24 * 60 * 60);
}

#[test]
fn access_payload_text() {
    let c = AccessClaims::new(42, "p-1".to_string(), 1000, 900);
    assert_eq!(
        access_payload(&c),
        "{\"sub\":42,\"exp\":1900,\"iat\":1000,\"jti\":\"p-1\",\"token_type\":\"access\"}"
    );
}

#[test]
fn refresh_payload_text() {
    let c = RefreshClaims::new(-3, "ab-12".to_string(), 0, 604800);
    assert_eq!(
        refresh_payload(&c),
        "{\"sub\":-3,\"exp\":604800,\"iat\":0,\"jti\":\"ab-12\",\"token_type\":\"refresh\"}"
    );
}

#[test]
fn payloads_read_back() {
    let c = AccessClaims::new(i64::MIN, "Id-9".to_string(), i64::MAX, 0);
    let back = parse_access(&access_payload(&c)).unwrap();
    assert_eq!((back.sub, back.exp, back.iat, back.jti.as_str()), (i64::MIN, i64::MAX, i64::MAX, "Id-9"));
    let r = RefreshClaims::new(5, "x".to_string(), 1, 2);
    let back = parse_refresh(&refresh_payload(&r)).unwrap();
    assert_eq!((back.sub, back.exp, back.iat, back.jti.as_str()), (5, 3, 1, "x"));
    assert_eq!(back.token_type, "refresh");
}

#[test]
fn payloads_in_other_shapes_are_refused() {
    assert!(parse_access("{\"sub\":042,\"exp\":1,\"iat\":0,\"jti\":\"j\",\"token_type\":\"access\"}").is_none());
    assert!(parse_access("{\"sub\":42,\"exp\":1,\"iat\":0,\"jti\":\"j\",\"token_type\":\"access\"} ").is_none());
    assert!(parse_access("{\"sub\":42,\"exp\":1,\"iat\":0,\"jti\":\"j\",\"token_type\":\"refresh\"}").is_none());
    assert!(parse_access("{\"sub\":-0,\"exp\":1,\"iat\":0,\"jti\":\"j\",\"token_type\":\"access\"}").is_none());
    assert!(parse_access("{\"sub\":99999999999999999999,\"exp\":1,\"iat\":0,\"jti\":\"j\",\"token_type\":\"access\"}").is_none());
    assert!(parse_access("").is_none());
    assert!(parse_refresh("{\"sub\":1,\"exp\":1,\"iat\":0,\"jti\":\"a b\",\"token_type\":\"refresh\"}").is_none());
}

#[test]
fn payload_checks_give_each_outcome() {
    let text = "{\"sub\":4,\"exp\":10,\"iat\":0,\"jti\":\"j\",\"token_type\":\"access\"}";
    assert_eq!(check_access(text, 10).unwrap().sub, 4);
    assert_eq!(check_access(text, 11).err(), Some(TokenError::Expired));
    assert_eq!(check_access("{}", 0).err(), Some(TokenError::InvalidToken));
    let rtext = "{\"sub\":4,\"exp\":10,\"iat\":0,\"jti\":\"j\",\"token_type\":\"refresh\"}";
    assert_eq!(check_refresh(rtext, 10).unwrap().jti, "j");
    assert_eq!(check_refresh(rtext, 11).err(), Some(TokenError::Expired));
    assert_eq!(check_refresh(text, 0).err(), Some(TokenError::InvalidToken));
}

#[test]
fn revoked_access_token_is_refused() {
    let mut svc = service();
    let pair = svc.issue_at(2, 0, "acc".to_string()).unwrap();
    assert_eq!(svc.revoke_access_at(&pair.access_token, 10), Ok(()));
    assert_eq!(svc.verify_access_at(&pair.access_token, 11).err(), Some(TokenError::InvalidToken));
    assert!(svc.store().is_blacklisted(&pair.access_token, 900));
    assert!(!svc.store().is_blacklisted(&pair.access_token, 901));
    assert_eq!(svc.revoke_access_at(&pair.refresh_token, 10), Err(TokenError::InvalidToken));
}

#[test]
fn tokens_with_negative_values_verify() {
    let mut svc = service();
    let pair = svc.issue_at(-1, -100_000, "neg".to_string()).unwrap();
    let c = svc.verify_access_at(&pair.access_token, -100_000).unwrap();
    assert_eq!((c.sub, c.iat, c.exp), (-1, -100_000, -99_100));
    assert!(svc.refresh_at(&pair.refresh_token, -99_000, "neg-2".to_string()).is_ok());
}

#[test]
fn refresh_in_the_same_second_gives_a_new_access_token() {
    let mut svc = service();
    let first = svc.issue_at(42, 1000, "same-1".to_string()).unwrap();
    let second = svc.refresh_at(&first.refresh_token, 1000, "same-2".to_string()).unwrap();
    assert_ne!(second.access_token, first.access_token);
    assert_ne!(second.refresh_token, first.refresh_token);
}

#[test]
fn pair_issued_after_a_logout_in_the_same_second_verifies() {
    let mut svc = service();
    let first = svc.issue_at(42, 1000, "login-1".to_string()).unwrap();
    assert_eq!(svc.revoke_access_at(&first.access_token, 1000), Ok(()));
    assert_eq!(svc.revoke_at(&first.refresh_token, 1000), Ok(()));
    let second = svc.issue_at(42, 1000, "login-2".to_string()).unwrap();
    assert_eq!(svc.verify_access_at(&second.access_token, 1000).unwrap().sub, 42);
    assert_eq!(svc.verify_access_at(&first.access_token, 1000).err(), Some(TokenError::InvalidToken));
}

#[test]
fn refresh_refuses_the_identifier_it_presents() {
    let mut svc = service();
    let pair = svc.issue_at(6, 0, "reuse".to_string()).unwrap();
    let r = svc.refresh_at(&pair.refresh_token, 1, "reuse".to_string());
    assert_eq!(r.err(), Some(TokenError::EncodingError));
    assert!(svc.store().is_allowlisted("reuse", 1));
    assert!(svc.refresh_at(&pair.refresh_token, 1, "fresh".to_string()).is_ok());
}

#[test]
fn two_live_issues_give_different_access_tokens() {
    let mut svc = JwtService::new(create_redis_store(), "secret".to_string());
    let a = svc.create_tokens(3).unwrap();
    let b = svc.create_tokens(3).unwrap();
    assert_ne!(a.access_token, b.access_token);
    assert_ne!(a.refresh_token, b.refresh_token);
}

#[test]
fn codec_tells_each_failure_apart() {
    let mut svc = service();
    let pair = svc.issue_at(12, 0, "codec".to_string()).unwrap();
    assert_eq!(svc.decode_access_at(&pair.access_token, 900).unwrap().sub, 12);
    assert_eq!(svc.decode_access_at(&pair.access_token, 901).err(), Some(CodecError::Expired));
    assert_eq!(svc.decode_access_at("invalid_token", 0).err(), Some(CodecError::Malformed));
    assert_eq!(svc.decode_access_at(&pair.refresh_token, 0).err(), Some(CodecError::Malformed));
    assert_eq!(svc.decode_refresh_at(&pair.access_token, 0).err(), Some(CodecError::Malformed));
    assert_eq!(svc.decode_refresh_at(&pair.refresh_token, 0).unwrap().jti, "codec");
    let other = JwtService::with_config(create_redis_store(), b"another-secret".to_vec(), 900, 604800);
    assert_eq!(other.decode_access_at(&pair.access_token, 0).err(), Some(CodecError::InvalidSignature));
}

#[test]
fn tampered_signature_is_refused_for_its_signature() {
    let mut svc = service();
    let pair = svc.issue_at(12, 0, "tamper".to_string()).unwrap();
    let cut = pair.access_token.rfind('.').unwrap() + 1;
    let first = pair.access_token.as_bytes()[cut];
    let swapped = if first == b'A' { 'B' } else { 'A' };
    let tampered = format!("{}{}{}", &pair.access_token[..cut], swapped, &pair.access_token[cut + 1..]);
    assert_eq!(svc.decode_access_at(&tampered, 0).err(), Some(CodecError::InvalidSignature));
    assert_eq!(svc.verify_access_at(&tampered, 0).err(), Some(TokenError::InvalidToken));
    let truncated = &pair.access_token[..cut - 1];
    assert_eq!(svc.decode_access_at(truncated, 0).err(), Some(CodecError::Malformed));
}

#[test]
fn a_revoked_pair_is_not_handed_out_again() {
    let mut svc = service();
    let pair = svc.issue_at(4, 0, "again".to_string()).unwrap();
    assert_eq!(svc.revoke_access_at(&pair.access_token, 0), Ok(()));
    let r = svc.issue_at(4, 0, "again".to_string());
    assert_eq!(r.err(), Some(TokenError::EncodingError));
    assert!(svc.issue_at(4, 0, "other".to_string()).is_ok());
}
