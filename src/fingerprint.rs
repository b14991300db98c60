//! The fingerprint codec: a fixed number of leading digest bytes, written as
//! URL-safe base64 without padding.

use base64::prelude::{Engine, BASE64_URL_SAFE_NO_PAD};
use vstd::prelude::*;

verus! {

/// Number of leading digest bytes that make up a fingerprint.
pub const FINGERPRINT_LEN: usize = 8;

/// A character of the URL-safe base64 alphabet.
pub open spec fn is_url_safe_char(c: char) -> bool {
    ('A' <= c && c <= 'Z') || ('a' <= c && c <= 'z') || ('0' <= c && c <= '9') || c == '-'
        || c == '_'
}

/// Every character of `s` belongs to the URL-safe base64 alphabet.
pub open spec fn is_url_safe(s: Seq<char>) -> bool {
    forall|i: int| 0 <= i < s.len() ==> is_url_safe_char(#[trigger] s[i])
}

/// The text that URL-safe base64 without padding makes of `bytes`.
pub uninterp spec fn base64_url(bytes: Seq<u8>) -> Seq<char>;

/// Relies on `Engine::encode` of base64's `URL_SAFE_NO_PAD` engine: the result
/// is the encoding of `bytes`, written in the URL-safe alphabet, with no padding.
/// Base64 is one to one: no other byte string has the same encoding.
#[verifier::external_body]
fn base64_encode(bytes: &[u8]) -> (r: String)
    requires
        bytes@.len() == FINGERPRINT_LEN,
    ensures
        r@ == base64_url(bytes@),
        is_url_safe(r@),
        forall|b: Seq<u8>| #[trigger] base64_url(b) == r@ ==> b == bytes@,
{
    BASE64_URL_SAFE_NO_PAD.encode(bytes)
}

/// Relies on `Engine::decode` of base64's `URL_SAFE_NO_PAD` engine. That engine
/// refuses padding and non-zero trailing bits, so it accepts exactly the texts
/// that its encoder produces: it returns the bytes whose encoding is `text`, and
/// fails when no byte string encodes to `text`.
#[verifier::external_body]
fn base64_decode(text: &str) -> (r: Option<Vec<u8>>)
    ensures
        r matches Some(v) ==> base64_url(v@) == text@,
        forall|b: Seq<u8>|
            #[trigger] base64_url(b) == text@ <==> (r matches Some(v) && v@ == b),
{
    BASE64_URL_SAFE_NO_PAD.decode(text).ok()
}

/// Why a token is not the encoding of a fingerprint.
#[derive(Clone, Copy, Debug, PartialEq, Eq, Structural)]
pub enum TokenError {
    /// No byte string encodes to the token.
    Malformed,
    /// The token encodes a byte string of another length than a fingerprint's.
    WrongLength,
}

/// Some byte string encodes to `token`.
pub open spec fn is_decodable(token: Seq<char>) -> bool {
    exists|b: Seq<u8>| base64_url(b) == token
}

/// A byte string that encodes to `token`, where there is one.
pub open spec fn decoded(token: Seq<char>) -> Seq<u8> {
    choose|b: Seq<u8>| base64_url(b) == token
}

/// What decoding `token` as a fingerprint gives.
pub open spec fn token_outcome(token: Seq<char>) -> Result<Seq<u8>, TokenError> {
    if !is_decodable(token) {
        Err(TokenError::Malformed)
    } else if decoded(token).len() != FINGERPRINT_LEN {
        Err(TokenError::WrongLength)
    } else {
        Ok(decoded(token))
    }
}

/// Writes a fingerprint as a URL-safe token.
pub fn encode_fingerprint(fingerprint: &[u8]) -> (token: String)
    requires
        fingerprint@.len() == FINGERPRINT_LEN,
    ensures
        token@ == base64_url(fingerprint@),
        is_url_safe(token@),
        token_outcome(token@) == Ok::<Seq<u8>, TokenError>(fingerprint@),
{
    let token = base64_encode(fingerprint);
    assert(base64_url(fingerprint@) == token@);
    token
}

/// Reads a token back into the fingerprint that it encodes.
pub fn decode_fingerprint(token: &str) -> (r: Result<Vec<u8>, TokenError>)
    ensures
        match r {
            Ok(v) => token_outcome(token@) == Ok::<Seq<u8>, TokenError>(v@),
            Err(e) => token_outcome(token@) == Err::<Seq<u8>, TokenError>(e),
        },
{
    match base64_decode(token) {
        None => {
            assert(!is_decodable(token@));
            Err(TokenError::Malformed)
        },
        Some(v) => {
            proof {
                assert(base64_url(v@) == token@);
                assert(decoded(token@) == v@);
            }
            if v.len() != FINGERPRINT_LEN {
                Err(TokenError::WrongLength)
            } else {
                Ok(v)
            }
        },
    }
}

} // verus!
