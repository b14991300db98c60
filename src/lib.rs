//! Content-addressed URLs for a fixed set of static assets.
//!
//! A versioned URL carries a short fingerprint of an asset's content digest;
//! the handler serves the asset only when that fingerprint matches the
//! asset's current digest.

mod fingerprint;
mod registry;
mod url;
mod handler;
mod laws;

pub use fingerprint::{
    base64_url, decode_fingerprint, encode_fingerprint, is_url_safe, is_url_safe_char,
    token_outcome, TokenError, FINGERPRINT_LEN,
};
pub use registry::{Asset, AssetView, Registry, DIGEST_LEN};
pub use url::{
    after_mount_point, built_url, fingerprint_of, mount_point, path, token_of, trim_trailing_separators,
    versioned_path,
};
pub use handler::{
    cache_control_text, handle, handle_outcome, is_digest_prefix, is_first_separator,
    rejection_reason, rejection_status, serves, split_request, Rejection, Served, STATUS_OK,
};
pub use laws::{
    has_no_separator, lemma_build_deterministic, lemma_known_token, lemma_missing_separator,
    lemma_split_versioned, lemma_tampered_token, lemma_unknown_path,
};
