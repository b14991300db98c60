//! Properties that relate building URLs and serving requests.

use crate::fingerprint::{token_outcome, TokenError};
use crate::handler::{handle_outcome, is_digest_prefix, is_first_separator, split_request, Rejection};
use crate::registry::{AssetView, Registry, DIGEST_LEN};
use crate::url::{built_url, fingerprint_of, token_of, versioned_path};
use vstd::prelude::*;

verus! {

/// `s` holds no separator.
pub open spec fn has_no_separator(s: Seq<char>) -> bool {
    forall|i: int| 0 <= i < s.len() ==> s[i] != '/'
}

/// A request path made of a token without separators, a separator and a
/// logical path splits back into that token and that path.
pub proof fn lemma_split_versioned(token: Seq<char>, path: Seq<char>)
    requires
        has_no_separator(token),
    ensures
        split_request(versioned_path(token, path)) == Some((token, path)),
{
    let s = versioned_path(token, path);
    let n = token.len() as int;
    assert(is_first_separator(s, n));
    let i = choose|i: int| is_first_separator(s, i);
    assert(i == n) by {
        if i < n {
            assert(s[i] == token[i]);
        }
        if i > n {
            assert(s[n] == '/');
        }
    }
    assert(s.subrange(0, n) =~= token);
    assert(s.subrange(n + 1, s.len() as int) =~= path);
}

/// Building a URL is deterministic: it depends only on the prefix, the path
/// and the fingerprint stored under that path, so two builds from registries
/// that agree on these give the same URL.
pub proof fn lemma_build_deterministic(
    first: Map<Seq<char>, AssetView>,
    second: Map<Seq<char>, AssetView>,
    prefix: Seq<char>,
    path: Seq<char>,
)
    requires
        first.contains_key(path) == second.contains_key(path),
        first.contains_key(path) ==> fingerprint_of(first[path]) == fingerprint_of(second[path]),
    ensures
        built_url(first, prefix, path) == built_url(second, prefix, path),
{
}

/// A request path without a separator is refused as an invalid URL.
pub proof fn lemma_missing_separator(reg: Map<Seq<char>, AssetView>, request_path: Seq<char>)
    requires
        has_no_separator(request_path),
    ensures
        handle_outcome(reg, request_path) == Err::<AssetView, Rejection>(Rejection::InvalidUrl),
{
    assert(!exists|i: int| is_first_separator(request_path, i));
}

/// A token paired with a logical path under which nothing is stored is
/// refused as not found, whatever the token.
pub proof fn lemma_unknown_path(
    reg: Map<Seq<char>, AssetView>,
    token: Seq<char>,
    path: Seq<char>,
)
    requires
        has_no_separator(token),
        !reg.contains_key(path),
    ensures
        handle_outcome(reg, versioned_path(token, path)) == Err::<AssetView, Rejection>(
            Rejection::NotFound,
        ),
{
    lemma_split_versioned(token, path);
}

/// A token other than the one built for an asset is never served with that
/// asset's path: the request is refused because the token does not decode,
/// decodes to the wrong length, or names another fingerprint.
pub proof fn lemma_tampered_token(reg: Registry, forged: Seq<char>, path: Seq<char>)
    requires
        reg@.contains_key(path),
        forged != token_of(reg@[path]),
        has_no_separator(forged),
    ensures
        handle_outcome(reg@, versioned_path(forged, path)) matches Err(e) && (e
            == Rejection::BadTokenFormat || e == Rejection::BadTokenLength || e
            == Rejection::HashMismatch),
{
    reg.lemma_well_keyed();
    lemma_split_versioned(forged, path);
    let a = reg@[path];
    assert(a.digest.len() == DIGEST_LEN);
    match token_outcome(forged) {
        Ok(fp) => {
            if is_digest_prefix(fp, a.digest) {
                assert(fp == fingerprint_of(a));
            }
        },
        Err(_) => {},
    }
}

/// A request for the token `token` of the fingerprint `fp`, with an asset's
/// path, is served exactly when `fp` begins the asset's digest, and refused
/// as a mismatch otherwise.
pub proof fn lemma_known_token(
    reg: Map<Seq<char>, AssetView>,
    token: Seq<char>,
    fp: Seq<u8>,
    path: Seq<char>,
)
    requires
        has_no_separator(token),
        token_outcome(token) == Ok::<Seq<u8>, TokenError>(fp),
        reg.contains_key(path),
    ensures
        handle_outcome(reg, versioned_path(token, path)) == (if is_digest_prefix(
            fp,
            reg[path].digest,
        ) {
            Ok::<AssetView, Rejection>(reg[path])
        } else {
            Err(Rejection::HashMismatch)
        }),
{
    lemma_split_versioned(token, path);
}

} // verus!
