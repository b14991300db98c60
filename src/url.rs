//! Building versioned URLs.

use crate::fingerprint::{
    base64_url, encode_fingerprint, is_url_safe_char, FINGERPRINT_LEN,
};
use crate::handler::{handle_outcome, Rejection};
use crate::laws::{has_no_separator, lemma_known_token};
use crate::registry::{AssetView, Registry};
use vstd::prelude::*;
use vstd::slice::slice_subrange;

verus! {

/// `p` without the separators it ends with.
pub open spec fn trim_trailing_separators(p: Seq<char>) -> Seq<char>
    decreases p.len(),
{
    if p.len() > 0 && p.last() == '/' {
        trim_trailing_separators(p.drop_last())
    } else {
        p
    }
}

/// A URL prefix ending in exactly one separator.
pub open spec fn mount_point(prefix: Seq<char>) -> Seq<char> {
    trim_trailing_separators(prefix).push('/')
}

/// The fingerprint of an asset: the leading bytes of its digest.
pub open spec fn fingerprint_of(a: AssetView) -> Seq<u8> {
    a.digest.subrange(0, FINGERPRINT_LEN as int)
}

/// The token that names an asset's current content.
pub open spec fn token_of(a: AssetView) -> Seq<char> {
    base64_url(fingerprint_of(a))
}

/// The part of a versioned URL after the mount point: token, separator, path.
pub open spec fn versioned_path(token: Seq<char>, path: Seq<char>) -> Seq<char> {
    token.push('/') + path
}

/// The versioned URL of the asset stored under `path`, if there is one.
pub open spec fn built_url(
    reg: Map<Seq<char>, AssetView>,
    prefix: Seq<char>,
    path: Seq<char>,
) -> Option<Seq<char>> {
    if reg.contains_key(path) {
        Some(mount_point(prefix) + versioned_path(token_of(reg[path]), path))
    } else {
        None
    }
}

/// The part of `url` after the mount point made of `prefix`.
pub open spec fn after_mount_point(prefix: Seq<char>, url: Seq<char>) -> Seq<char> {
    url.subrange(mount_point(prefix).len() as int, url.len() as int)
}

/// `prefix` without the separators it ends with.
fn trimmed_prefix(prefix: &str) -> (r: &str)
    ensures
        r@ == trim_trailing_separators(prefix@),
{
    let n = prefix.unicode_len();
    let mut end: usize = 0;
    let mut i: usize = 0;
    for c in it: prefix.chars()
        invariant
            it.seq() == prefix@,
            i == it.index(),
            n == prefix@.len(),
            end <= i <= n,
            trim_trailing_separators(prefix@.subrange(0, i as int)) == prefix@.subrange(
                0,
                end as int,
            ),
    {
        assert(prefix@.subrange(0, i + 1).drop_last() == prefix@.subrange(0, i as int));
        if c != '/' {
            end = i + 1;
        }
        i = i + 1;
    }
    assert(prefix@.subrange(0, i as int) == prefix@);
    prefix.substring_char(0, end)
}

/// The versioned URL of the asset stored under `file_path`: the prefix with
/// exactly one separator after it, the token of the asset's fingerprint, a
/// separator and the path. `None` where no asset is stored under the path.
///
/// A request for what follows the mount point of the URL is served with the
/// asset; once the fingerprint stored under the path has changed, the same
/// request is refused as a mismatch.
pub fn path(registry: &Registry, prefix: &str, file_path: &str) -> (r: Option<String>)
    requires
        registry.wf(),
    ensures
        r matches Some(u) ==> built_url(registry@, prefix@, file_path@) == Some(u@),
        r is None ==> built_url(registry@, prefix@, file_path@) is None,
        r matches Some(u) ==> handle_outcome(registry@, after_mount_point(prefix@, u@)) == Ok::<
            AssetView,
            Rejection,
        >(registry@[file_path@]),
        r matches Some(u) ==> forall|later: Registry|
            later@.contains_key(file_path@) && fingerprint_of(later@[file_path@])
                != fingerprint_of(registry@[file_path@]) ==> #[trigger] handle_outcome(
                later@,
                after_mount_point(prefix@, u@),
            ) == Err::<AssetView, Rejection>(Rejection::HashMismatch),
{
    match registry.get(file_path) {
        None => None,
        Some(asset) => {
            proof {
                registry.lemma_well_keyed();
            }
            let fingerprint = slice_subrange(asset.digest.as_slice(), 0, FINGERPRINT_LEN);
            let token = encode_fingerprint(fingerprint);
            let mut url = String::from_str(trimmed_prefix(prefix));
            let sep = "/";
            proof {
                reveal_strlit("/");
            }
            url.append(sep);
            url.append(token.as_str());
            url.append(sep);
            url.append(file_path);
            let ghost a = registry@[file_path@];
            let ghost rest = versioned_path(token@, file_path@);
            assert(url@ =~= mount_point(prefix@) + rest);
            proof {
                assert(has_no_separator(token@)) by {
                    assert forall|i: int| 0 <= i < token@.len() implies token@[i] != '/' by {
                        assert(is_url_safe_char(token@[i]));
                    }
                }
                assert(after_mount_point(prefix@, url@) =~= rest);
                lemma_known_token(registry@, token@, fingerprint@, file_path@);
                assert forall|later: Registry|
                    later@.contains_key(file_path@) && fingerprint_of(later@[file_path@])
                        != fingerprint_of(a) implies #[trigger] handle_outcome(
                    later@,
                    after_mount_point(prefix@, url@),
                ) == Err::<AssetView, Rejection>(Rejection::HashMismatch) by {
                    later.lemma_well_keyed();
                    lemma_known_token(later@, token@, fingerprint@, file_path@);
                }
            }
            Some(url)
        },
    }
}

} // verus!
