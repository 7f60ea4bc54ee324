//! The identity token: a signed, stateless credential binding a display
//! name to a room id. Issued once per login and checked on every
//! authenticated request; no server-side session state is needed.

use vstd::prelude::*;

use hmac::Hmac;
use hmac::Mac;
use jwt::SignWithKey;
use jwt::VerifyWithKey;
use sha2::Sha256;
use std::collections::BTreeMap;

verus! {

/// Why a token was rejected: it could not be parsed into the expected
/// one-entry claim structure, or its signature did not match.
#[derive(Debug, Clone, Copy, PartialEq, Eq, Structural)]
pub enum AuthError {
    Malformed,
    InvalidSignature,
}

/// What verification of a token text yields: the (name, room id) pair it
/// was signed over, or the error class. Verification is deterministic in
/// the token text (the shared secret is fixed at startup), so this is a
/// function of the text alone.
pub uninterp spec fn claims_of(token: Seq<char>) -> Result<(Seq<char>, Seq<char>), AuthError>;

/// The token text verifies to exactly the given (name, room id) pair.
pub open spec fn claims_ok(token: Seq<char>, name: Seq<char>, room_id: Seq<char>) -> bool {
    claims_of(token) == Ok::<(Seq<char>, Seq<char>), AuthError>((name, room_id))
}

/// The token text that signing the pair (name, room id) produces. Signing
/// is deterministic: the same pair always yields the same token.
pub uninterp spec fn token_of(name: Seq<char>, room_id: Seq<char>) -> Seq<char>;

/// Relies on `Hmac::<Sha256>::new_from_slice` and
/// `jwt::SignWithKey::sign_with_key`: signing the one-entry claims map
/// `{name: room_id}` with the fixed shared secret is deterministic, and a
/// token the crate signed verifies back to the same claims
/// (`jwt::VerifyWithKey` recomputes and compares the same keyed hash).
#[verifier::external_body]
fn sign_token(name: &str, room_id: &str) -> (r: String)
    ensures
        r@ == token_of(name@, room_id@),
        claims_ok(r@, name@, room_id@),
{
    let key: Hmac<Sha256> = Hmac::new_from_slice(b"secret").expect("hmac accepts any key length");
    let mut claims = BTreeMap::new();
    claims.insert(name.to_owned(), room_id.to_owned());
    claims.sign_with_key(&key).expect("string claims always serialize")
}

/// Relies on `Hmac::<Sha256>::new_from_slice` and
/// `jwt::VerifyWithKey::verify_with_key`: the outcome depends on the token
/// text alone. `jwt::Error::InvalidSignature` and `RustCryptoMac` mean the
/// recomputed signature did not match; every other error means the token
/// could not be parsed into the expected claim structure.
#[verifier::external_body]
fn check_token(token: &str) -> (r: Result<(String, String), AuthError>)
    ensures
        r matches Ok(p) ==> claims_of(token@) matches Ok(q) && q == (p.0@, p.1@),
        r matches Err(e) ==> claims_of(token@) matches Err(f) && f == e,
{
    let key: Hmac<Sha256> = match Hmac::new_from_slice(b"secret") {
        Ok(k) => k,
        Err(_) => return Err(AuthError::Malformed),
    };
    let claims: BTreeMap<String, String> = match VerifyWithKey::verify_with_key(token, &key) {
        Ok(c) => c,
        Err(jwt::Error::InvalidSignature) => return Err(AuthError::InvalidSignature),
        Err(jwt::Error::RustCryptoMac(_)) => return Err(AuthError::InvalidSignature),
        Err(_) => return Err(AuthError::Malformed),
    };
    match claims.first_key_value() {
        Some((n, r)) => Ok((n.clone(), r.clone())),
        None => Err(AuthError::Malformed),
    }
}

/// Issues the identity token for (name, room id): a pure function of its
/// inputs and the shared secret, with no anti-replay nonce. Together with
/// `verify`, its contract states the round trip: a token issued for a pair
/// verifies back to exactly that pair.
pub fn issue(name: &str, room_id: &str) -> (token: String)
    ensures
        token@ == token_of(name@, room_id@),
        claims_ok(token@, name@, room_id@),
{
    sign_token(name, room_id)
}

/// Verifies a token and returns the (name, room id) pair embedded in it,
/// exactly as `claims_of` describes the token text.
pub fn verify(token: &str) -> (r: Result<(String, String), AuthError>)
    ensures
        r matches Ok(p) ==> claims_of(token@) matches Ok(q) && q == (p.0@, p.1@),
        r matches Err(e) ==> claims_of(token@) matches Err(f) && f == e,
{
    check_token(token)
}

} // verus!
