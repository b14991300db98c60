use std::sync::Arc;

use axum::extract::Path;
use axum::http::{header, StatusCode};
use axum::response::IntoResponse;
use axum::routing::get;
use axum::Router;
use hashed_assets::{
    decode_fingerprint, encode_fingerprint, handle, path, Asset, Registry, Rejection, TokenError,
    FINGERPRINT_LEN, STATUS_OK,
};

const STYLE_TOKEN: &str = "On8Qwp5E0QU";

fn style_digest() -> [u8; 32] {
    let mut d = [0u8; 32];
    let head = [0x3a, 0x7f, 0x10, 0xc2, 0x9e, 0x44, 0xd1, 0x05];
    d[..8].copy_from_slice(&head);
    for (i, b) in d.iter_mut().enumerate().skip(8) {
        *b = (i - 8) as u8;
    }
    d
}

fn asset(path: &str, data: &[u8], digest: [u8; 32], mime: &str) -> Asset {
    Asset::new(path.to_string(), data.to_vec(), digest, mime.to_string())
}

fn sample_registry() -> Registry {
    let mut r = Registry::new();
    r.insert(asset("style.css", b"body{color:red}", style_digest(), "text/css"));
    let mut d = [7u8; 32];
    d[0] = 0xfb;
    r.insert(asset("js/app.js", b"console.log(1)", d, "text/javascript"));
    r
}

fn rejection(reg: &Registry, request: &str) -> Rejection {
    match handle(reg, request) {
        Ok(_) => panic!("request {request} was served"),
        Err(e) => e,
    }
}

#[test]
fn test_is_valid_handler() {
    let registry = Arc::new(sample_registry());
    let app: Router = Router::new().route(
        "/static/*path",
        get(move |Path(p): Path<String>| {
            let registry = registry.clone();
            async move {
                match handle(&registry, &p) {
                    Ok(s) => (
                        StatusCode::OK,
                        [
                            (header::CONTENT_TYPE, s.content_type.to_string()),
                            (header::CACHE_CONTROL, s.cache_control.to_string()),
                        ],
                        s.body.to_vec(),
                    )
                        .into_response(),
                    Err(e) => (StatusCode::from_u16(e.status()).unwrap(), e.reason()).into_response(),
                }
            }
        }),
    );
    let _ = app;
}

#[test]
fn example_style_css() {
    let reg = sample_registry();
    let url = path(&reg, "/static", "style.css").unwrap();
    assert_eq!(url, "/static/On8Qwp5E0QU/style.css");

    let served = handle(&reg, "On8Qwp5E0QU/style.css").unwrap();
    assert_eq!(served.status, 200);
    assert_eq!(served.status, STATUS_OK);
    assert_eq!(served.body, b"body{color:red}");
    assert_eq!(served.content_type, "text/css");
    assert_eq!(served.cache_control, "public, max-age=31536000, immutable");

    let wrong = rejection(&reg, "AAAAAAAAAAA/style.css");
    assert_eq!(wrong, Rejection::HashMismatch);
    assert_eq!(wrong.status(), 400);
    assert_eq!(wrong.reason(), "hash mismatch");

    let missing = rejection(&reg, "On8Qwp5E0QU/missing.css");
    assert_eq!(missing, Rejection::NotFound);
    assert_eq!(missing.status(), 404);
    assert_eq!(missing.reason(), "asset not found");
}

#[test]
fn build_is_deterministic() {
    let reg = sample_registry();
    let a = path(&reg, "/static", "js/app.js");
    let b = path(&reg, "/static", "js/app.js");
    assert_eq!(a, b);
    assert_eq!(a.unwrap(), "/static/-wcHBwcHBwc/js/app.js");
}

#[test]
fn build_unknown_path_is_none() {
    let reg = sample_registry();
    assert_eq!(path(&reg, "/static", "missing.css"), None);
    assert_eq!(path(&Registry::new(), "/static", "style.css"), None);
}

#[test]
fn prefix_gets_exactly_one_separator() {
    let reg = sample_registry();
    let expected = "/static/On8Qwp5E0QU/style.css";
    assert_eq!(path(&reg, "/static", "style.css").unwrap(), expected);
    assert_eq!(path(&reg, "/static/", "style.css").unwrap(), expected);
    assert_eq!(path(&reg, "/static//", "style.css").unwrap(), expected);
    assert_eq!(path(&reg, "", "style.css").unwrap(), "/On8Qwp5E0QU/style.css");
    assert_eq!(path(&reg, "/", "style.css").unwrap(), "/On8Qwp5E0QU/style.css");
}

#[test]
fn round_trip_serves_every_asset() {
    let reg = sample_registry();
    for (p, body, mime) in [
        ("style.css", &b"body{color:red}"[..], "text/css"),
        ("js/app.js", &b"console.log(1)"[..], "text/javascript"),
    ] {
        let url = path(&reg, "/assets", p).unwrap();
        let rest = url.strip_prefix("/assets/").unwrap();
        let served = handle(&reg, rest).unwrap();
        assert_eq!(served.body, body);
        assert_eq!(served.content_type, mime);
        assert_eq!(served.cache_control, "public, max-age=31536000, immutable");
    }
}

#[test]
fn flipped_token_bits_are_refused() {
    let reg = sample_registry();
    let token: Vec<char> = STYLE_TOKEN.chars().collect();
    let mut tried = 0;
    for i in 0..token.len() {
        for bit in 0..8 {
            let flipped = char::from_u32(token[i] as u32 ^ (1 << bit)).unwrap();
            if flipped == '/' {
                continue;
            }
            let mut t = token.clone();
            t[i] = flipped;
            let request: String = t.iter().collect::<String>() + "/style.css";
            let e = rejection(&reg, &request);
            assert!(
                matches!(
                    e,
                    Rejection::BadTokenFormat | Rejection::BadTokenLength | Rejection::HashMismatch
                ),
                "{request}: {e:?}"
            );
            tried += 1;
        }
    }
    assert!(tried > 80);
    // 'U' -> 'T' leaves bits past the eighth byte set.
    assert_eq!(rejection(&reg, "On8Qwp5E0QT/style.css"), Rejection::BadTokenFormat);
    // 'O' -> 'N' is another fingerprint.
    assert_eq!(rejection(&reg, "Nn8Qwp5E0QU/style.css"), Rejection::HashMismatch);
}

#[test]
fn missing_separator_is_invalid_url() {
    let reg = sample_registry();
    for request in ["", "On8Qwp5E0QU", "style.css", "On8Qwp5E0QUstyle.css"] {
        let e = rejection(&reg, request);
        assert_eq!(e, Rejection::InvalidUrl);
        assert_eq!(e.status(), 400);
        assert_eq!(e.reason(), "invalid asset url");
    }
}

#[test]
fn stale_fingerprint_after_content_change() {
    let mut reg = sample_registry();
    let url = path(&reg, "/static", "style.css").unwrap();
    let rest = url.strip_prefix("/static/").unwrap().to_string();
    assert!(handle(&reg, &rest).is_ok());

    let mut d = style_digest();
    d[3] ^= 0x40;
    reg.insert(asset("style.css", b"body{color:blue}", d, "text/css"));
    assert_eq!(rejection(&reg, &rest), Rejection::HashMismatch);

    let fresh = path(&reg, "/static", "style.css").unwrap();
    assert_ne!(fresh, url);
    let served = handle(&reg, fresh.strip_prefix("/static/").unwrap()).unwrap();
    assert_eq!(served.body, b"body{color:blue}");
}

#[test]
fn unknown_path_is_not_found_whatever_the_token() {
    let reg = sample_registry();
    assert_eq!(rejection(&reg, "On8Qwp5E0QU/missing.css"), Rejection::NotFound);
    assert_eq!(rejection(&reg, "-wcHBwcHBwc/missing.css"), Rejection::NotFound);
    // The lookup comes before the token is read.
    assert_eq!(rejection(&reg, "!!!/missing.css"), Rejection::NotFound);
    assert_eq!(rejection(&reg, "AAAA/missing.css"), Rejection::NotFound);
}

#[test]
fn token_errors_on_a_known_asset() {
    let reg = sample_registry();
    let e = rejection(&reg, "!!!/style.css");
    assert_eq!(e, Rejection::BadTokenFormat);
    assert_eq!(e.status(), 400);
    assert_eq!(e.reason(), "hash invalid format");
    assert_eq!(rejection(&reg, "On8Qwp5E0QU=/style.css"), Rejection::BadTokenFormat);

    let e = rejection(&reg, "AAAA/style.css");
    assert_eq!(e, Rejection::BadTokenLength);
    assert_eq!(e.status(), 400);
    assert_eq!(e.reason(), "hash invalid length");
    assert_eq!(rejection(&reg, "AAAAAAAAAAAA/style.css"), Rejection::BadTokenLength);
    assert_eq!(rejection(&reg, "/style.css"), Rejection::BadTokenLength);
}

#[test]
fn nested_logical_path_splits_at_first_separator() {
    let reg = sample_registry();
    let served = handle(&reg, "-wcHBwcHBwc/js/app.js").unwrap();
    assert_eq!(served.body, b"console.log(1)");
    assert_eq!(rejection(&reg, "-wcHBwcHBwc/js/other.js"), Rejection::NotFound);
}

#[test]
fn response_failure_status_and_reason() {
    let e = Rejection::ResponseFailed;
    assert_eq!(e.status(), 500);
    assert_eq!(e.reason(), "failed to build response");
}

#[test]
fn codec_encodes_exact_text() {
    let fp: Vec<u8> = (0u8..8).collect();
    assert_eq!(fp.len(), FINGERPRINT_LEN);
    assert_eq!(encode_fingerprint(&fp), "AAECAwQFBgc");
    assert_eq!(
        encode_fingerprint(&[0xfb, 0xff, 0xbf, 0x00, 0x01, 0x02, 0x03, 0x04]),
        "-_-_AAECAwQ"
    );
}

#[test]
fn codec_round_trip_and_errors() {
    assert_eq!(decode_fingerprint("AAECAwQFBgc"), Ok((0u8..8).collect::<Vec<u8>>()));
    assert_eq!(
        decode_fingerprint("-_-_AAECAwQ"),
        Ok(vec![0xfb, 0xff, 0xbf, 0x00, 0x01, 0x02, 0x03, 0x04])
    );
    assert_eq!(decode_fingerprint("AAECAwQFBg"), Err(TokenError::WrongLength));
    assert_eq!(decode_fingerprint("AAECAwQFBgcI"), Err(TokenError::WrongLength));
    assert_eq!(decode_fingerprint(""), Err(TokenError::WrongLength));
    assert_eq!(decode_fingerprint("AAECAwQFBgc="), Err(TokenError::Malformed));
    assert_eq!(decode_fingerprint("AAECAwQFBg+"), Err(TokenError::Malformed));
    assert_eq!(decode_fingerprint("AAECAwQFBgd"), Err(TokenError::Malformed));
    assert_eq!(decode_fingerprint("A"), Err(TokenError::Malformed));
}

#[test]
fn insert_replaces_asset_under_same_path() {
    let mut reg = Registry::new();
    assert!(reg.get("a.txt").is_none());
    reg.insert(asset("a.txt", b"one", [1u8; 32], "text/plain"));
    reg.insert(asset("b.txt", b"two", [2u8; 32], "text/plain"));
    reg.insert(asset("a.txt", b"three", [3u8; 32], "text/html"));
    let a = reg.get("a.txt").unwrap();
    assert_eq!(a.data, b"three");
    assert_eq!(a.mime, "text/html");
    assert_eq!(reg.get("b.txt").unwrap().data, b"two");
    assert!(reg.get("c.txt").is_none());
}
