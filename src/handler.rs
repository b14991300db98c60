//! Serving a request for a versioned URL: split, look up, decode, verify.

use crate::fingerprint::{decode_fingerprint, token_outcome, TokenError, FINGERPRINT_LEN};
use crate::registry::{AssetView, Registry};
use vstd::prelude::*;

verus! {

/// Why a request for an asset is refused.
#[derive(Clone, Copy, Debug, PartialEq, Eq, Structural)]
pub enum Rejection {
    /// The request path holds no separator between token and logical path.
    InvalidUrl,
    /// No asset is stored under the logical path.
    NotFound,
    /// The token is not URL-safe base64 of any byte string.
    BadTokenFormat,
    /// The token decodes to a byte string of another length than a fingerprint's.
    BadTokenLength,
    /// The fingerprint is not a prefix of the asset's current digest.
    HashMismatch,
    /// The response could not be put together after every check had passed.
    ResponseFailed,
}

/// The HTTP status that goes with a rejection.
pub open spec fn rejection_status(e: Rejection) -> u16 {
    match e {
        Rejection::InvalidUrl => 400,
        Rejection::NotFound => 404,
        Rejection::BadTokenFormat => 400,
        Rejection::BadTokenLength => 400,
        Rejection::HashMismatch => 400,
        Rejection::ResponseFailed => 500,
    }
}

/// The plain-text reason that goes with a rejection.
pub open spec fn rejection_reason(e: Rejection) -> Seq<char> {
    match e {
        Rejection::InvalidUrl => "invalid asset url"@,
        Rejection::NotFound => "asset not found"@,
        Rejection::BadTokenFormat => "hash invalid format"@,
        Rejection::BadTokenLength => "hash invalid length"@,
        Rejection::HashMismatch => "hash mismatch"@,
        Rejection::ResponseFailed => "failed to build response"@,
    }
}

impl Rejection {
    /// The HTTP status of this rejection.
    pub fn status(&self) -> (r: u16)
        ensures
            r == rejection_status(*self),
    {
        match self {
            Rejection::InvalidUrl => 400,
            Rejection::NotFound => 404,
            Rejection::BadTokenFormat => 400,
            Rejection::BadTokenLength => 400,
            Rejection::HashMismatch => 400,
            Rejection::ResponseFailed => 500,
        }
    }

    /// The plain-text reason of this rejection.
    pub fn reason(&self) -> (r: &'static str)
        ensures
            r@ == rejection_reason(*self),
    {
        match self {
            Rejection::InvalidUrl => "invalid asset url",
            Rejection::NotFound => "asset not found",
            Rejection::BadTokenFormat => "hash invalid format",
            Rejection::BadTokenLength => "hash invalid length",
            Rejection::HashMismatch => "hash mismatch",
            Rejection::ResponseFailed => "failed to build response",
        }
    }
}

/// The caching policy of a served asset: public, kept for a year, never revalidated.
pub open spec fn cache_control_text() -> Seq<char> {
    "public, max-age=31536000, immutable"@
}

/// The HTTP status of a served asset.
pub const STATUS_OK: u16 = 200;

/// What a successful request sends back: the asset's bytes with its MIME type
/// and the caching policy.
pub struct Served<'a> {
    pub status: u16,
    pub content_type: &'a str,
    pub cache_control: &'static str,
    pub body: &'a [u8],
}

/// `s` is the response that serves the asset `a`.
pub open spec fn serves(s: Served, a: AssetView) -> bool {
    &&& s.status == STATUS_OK
    &&& s.content_type@ == a.mime
    &&& s.cache_control@ == cache_control_text()
    &&& s.body@ == a.data
}

/// `i` is the position of the first separator in `s`.
pub open spec fn is_first_separator(s: Seq<char>, i: int) -> bool {
    &&& 0 <= i < s.len()
    &&& s[i] == '/'
    &&& forall|j: int| 0 <= j < i ==> s[j] != '/'
}

/// `s` cut at its first separator into the text before and the text after it.
pub open spec fn split_request(s: Seq<char>) -> Option<(Seq<char>, Seq<char>)> {
    if exists|i: int| is_first_separator(s, i) {
        let i = choose|i: int| is_first_separator(s, i);
        Some((s.subrange(0, i), s.subrange(i + 1, s.len() as int)))
    } else {
        None
    }
}

/// `fingerprint` is the beginning of `digest`, byte for byte.
pub open spec fn is_digest_prefix(fingerprint: Seq<u8>, digest: Seq<u8>) -> bool {
    fingerprint.len() <= digest.len() && digest.subrange(0, fingerprint.len() as int)
        == fingerprint
}

/// What a request for `request_path` gets from `reg`: the asset to serve, or
/// the first check that it fails.
pub open spec fn handle_outcome(reg: Map<Seq<char>, AssetView>, request_path: Seq<char>) -> Result<
    AssetView,
    Rejection,
> {
    match split_request(request_path) {
        None => Err(Rejection::InvalidUrl),
        Some((token, path)) => {
            if !reg.contains_key(path) {
                Err(Rejection::NotFound)
            } else {
                match token_outcome(token) {
                    Err(TokenError::Malformed) => Err(Rejection::BadTokenFormat),
                    Err(TokenError::WrongLength) => Err(Rejection::BadTokenLength),
                    Ok(fingerprint) => {
                        if is_digest_prefix(fingerprint, reg[path].digest) {
                            Ok(reg[path])
                        } else {
                            Err(Rejection::HashMismatch)
                        }
                    },
                }
            }
        },
    }
}

/// Position of the first separator in `s`, if any.
fn find_separator(s: &str) -> (r: Option<usize>)
    ensures
        match r {
            Some(i) => is_first_separator(s@, i as int),
            None => forall|i: int| 0 <= i < s@.len() ==> s@[i] != '/',
        },
{
    let n = s.unicode_len();
    let mut i: usize = 0;
    for c in it: s.chars()
        invariant
            it.seq() == s@,
            i == it.index(),
            n == s@.len(),
            i <= n,
            forall|j: int| 0 <= j < i ==> s@[j] != '/',
    {
        if c == '/' {
            return Some(i);
        }
        i = i + 1;
    }
    None
}

/// Serves the request for `request_path`, the part of a versioned URL after
/// its mount point. The path is cut at its first separator into a token and a
/// logical path; the asset stored under the logical path is served when the
/// token decodes to a fingerprint that begins its current digest. Each check
/// refuses in turn: no separator, no such asset, a token that does not decode,
/// one of the wrong length, a fingerprint that does not match.
pub fn handle<'a>(registry: &'a Registry, request_path: &'a str) -> (r: Result<
    Served<'a>,
    Rejection,
>)
    requires
        registry.wf(),
    ensures
        match r {
            Ok(s) => handle_outcome(registry@, request_path@) matches Ok(a) && serves(s, a),
            Err(e) => handle_outcome(registry@, request_path@) == Err::<AssetView, Rejection>(e),
        },
{
    let n = request_path.unicode_len();
    let sep = match find_separator(request_path) {
        None => {
            return Err(Rejection::InvalidUrl);
        },
        Some(i) => i,
    };
    assert(split_request(request_path@) == Some(
        (
            request_path@.subrange(0, sep as int),
            request_path@.subrange(sep + 1, request_path@.len() as int),
        ),
    ));
    let token = request_path.substring_char(0, sep);
    let file_path = request_path.substring_char(sep + 1, n);
    let asset = match registry.get(file_path) {
        None => {
            return Err(Rejection::NotFound);
        },
        Some(a) => a,
    };
    let fingerprint = match decode_fingerprint(token) {
        Err(TokenError::Malformed) => {
            return Err(Rejection::BadTokenFormat);
        },
        Err(TokenError::WrongLength) => {
            return Err(Rejection::BadTokenLength);
        },
        Ok(v) => v,
    };
    let mut k: usize = 0;
    while k < FINGERPRINT_LEN
        invariant
            handle_outcome(registry@, request_path@) == (if is_digest_prefix(
                fingerprint@,
                asset.digest@,
            ) {
                Ok::<AssetView, Rejection>(asset@)
            } else {
                Err(Rejection::HashMismatch)
            }),
            fingerprint@.len() == FINGERPRINT_LEN,
            asset.digest@.len() == 32,
            k <= FINGERPRINT_LEN,
            forall|j: int| 0 <= j < k ==> fingerprint@[j] == asset.digest@[j],
        decreases FINGERPRINT_LEN - k,
    {
        if fingerprint[k] != asset.digest[k] {
            assert(asset.digest@.subrange(0, FINGERPRINT_LEN as int)[k as int] != fingerprint@[k as int]);
            return Err(Rejection::HashMismatch);
        }
        k = k + 1;
    }
    assert(asset.digest@.subrange(0, FINGERPRINT_LEN as int) =~= fingerprint@);
    Ok(
        Served {
            status: STATUS_OK,
            content_type: asset.mime.as_str(),
            cache_control: "public, max-age=31536000, immutable",
            body: asset.data.as_slice(),
        },
    )
}

} // verus!
