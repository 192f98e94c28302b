//! Signing and opening compact HS256 tokens, through jsonwebtoken.
use vstd::prelude::*;
use crate::claims::is_claims_text;

verus! {

/// The token that jsonwebtoken's `encode` makes of a JSON payload under a
/// secret, with the default HS256 header.
pub uninterp spec fn jwt_of(payload: Seq<char>, secret: Seq<u8>) -> Seq<char>;

/// The payload that jsonwebtoken's `decode` recovers from a token under a
/// secret, when the token is well formed and its signature verifies.
pub uninterp spec fn jwt_payload(token: Seq<char>, secret: Seq<u8>) -> Option<Seq<char>>;

/// Relies on serde_json's `RawValue::from_string`, which accepts any JSON text
/// and keeps it as it is, and on jsonwebtoken's `encode`, which cannot fail
/// with an HMAC key and the default HS256 header; `decode` under the same
/// secret gives the payload back.
#[verifier::external_body]
pub(crate) fn jwt_sign(payload: &str, secret: &[u8]) -> (r: Option<String>)
    requires
        is_claims_text(payload@),
    ensures
        r is Some,
        r->Some_0@ == jwt_of(payload@, secret@),
        jwt_payload(r->Some_0@, secret@) == Some(payload@),
{
    let key = jsonwebtoken::EncodingKey::from_secret(secret);
    match serde_json::value::RawValue::from_string(payload.to_owned()) {
        Ok(raw) => jsonwebtoken::encode(&jsonwebtoken::Header::default(), &raw, &key).ok(),
        Err(_) => None,
    }
}

/// Why a token does not yield its claims.
#[derive(Clone, Copy, Debug, PartialEq, Eq, Structural)]
pub enum CodecError {
    /// The token cannot be parsed, or does not hold the claims asked for.
    Malformed,
    /// The signature does not match the secret.
    InvalidSignature,
    /// Well formed and signed, but past its expiry.
    Expired,
}

/// Whether jsonwebtoken's `decode` refuses a token under a secret for its
/// signature (`ErrorKind::InvalidSignature`).
pub uninterp spec fn jwt_signature_refused(token: Seq<char>, secret: Seq<u8>) -> bool;

/// What opening a token under a secret gives: its payload, or why not.
pub open spec fn opened(token: Seq<char>, secret: Seq<u8>) -> Result<Seq<char>, CodecError> {
    match jwt_payload(token, secret) {
        Some(p) => Ok(p),
        None => Err(
            if jwt_signature_refused(token, secret) {
                CodecError::InvalidSignature
            } else {
                CodecError::Malformed
            },
        ),
    }
}

/// Relies on jsonwebtoken's `decode` for HS256, with expiry not checked and
/// no claim required, reading the claims as serde_json's `RawValue`: the
/// outcome depends on the token and the secret alone. A refusal for the
/// signature is told apart from every other one.
#[verifier::external_body]
pub(crate) fn jwt_open(token: &str, secret: &[u8]) -> (r: Result<String, CodecError>)
    ensures
        match r {
            Ok(p) => jwt_payload(token@, secret@) == Some(p@),
            Err(e) => {
                &&& jwt_payload(token@, secret@) is None
                &&& e != CodecError::Expired
                &&& (e == CodecError::InvalidSignature <==> jwt_signature_refused(token@, secret@))
            },
        },
{
    let key = jsonwebtoken::DecodingKey::from_secret(secret);
    let mut validation = jsonwebtoken::Validation::new(jsonwebtoken::Algorithm::HS256);
    validation.validate_exp = false;
    validation.required_spec_claims.clear();
    match jsonwebtoken::decode::<Box<serde_json::value::RawValue>>(token, &key, &validation) {
        Ok(data) => Ok(data.claims.get().to_owned()),
        Err(e) => match e.kind() {
            jsonwebtoken::errors::ErrorKind::InvalidSignature => Err(CodecError::InvalidSignature),
            _ => Err(CodecError::Malformed),
        },
    }
}

} // verus!
