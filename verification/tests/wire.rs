//! The queue wire format, IRI reading, and the canonical signing string.

use kroeg::context::{Context, ServerConfig};
use kroeg::delivery::{lease_delivery, register_delivery};
use kroeg::entity::User;
use kroeg::iri::{authority_of, extract_acct, key_id_target, trust_authority_of};
use kroeg::router::{Route, RouteTarget};
use kroeg::queue::{escape, format_delivery, parse_delivery, unescape};
use kroeg::signing::{
    digest_header, join_strings, parse_signature_header, signature_header, split_on, to_lower,
    RequestInfo,
};
use kroeg::strutil::{concat_str, find_char, starts_with, str_eq, substring, u64_to_dec};

fn request(method: &str, path: &str, query: Option<&str>, headers: &[(&str, &str)]) -> RequestInfo {
    RequestInfo {
        method: method.to_string(),
        path: path.to_string(),
        query: query.map(|q| q.to_string()),
        headers: headers.iter().map(|(k, v)| (k.to_string(), v.to_string())).collect(),
    }
}

#[test]
fn escape_doubles_backslashes_and_spaces() {
    assert_eq!(escape("a b"), "a\\sb");
    assert_eq!(escape("a\\b"), "a\\\\b");
    assert_eq!(escape(""), "");
    assert_eq!(escape("\\ "), "\\\\\\s");
}

#[test]
fn unescape_inverts_escape() {
    for case in ["", "plain", "a b c", "back\\slash", "\\ \\ ", "mix \\s literal"] {
        let escaped = escape(case);
        assert_eq!(unescape(&escaped).as_deref(), Some(case));
    }
    assert_eq!(unescape("dangling\\"), None);
    assert_eq!(unescape("bad\\x"), None);
}

#[test]
fn delivery_round_trip() {
    let data = format_delivery("https://x.test/a b", "https://y.test/inbox\\1");
    let (item, inbox) = parse_delivery(&data).expect("parses");
    assert_eq!(item, "https://x.test/a b");
    assert_eq!(inbox, "https://y.test/inbox\\1");
}

#[test]
fn delivery_format_exact() {
    assert_eq!(
        format_delivery("https://x.test/i", "https://y.test/in box"),
        "https://x.test/i https://y.test/in\\sbox"
    );
    assert_eq!(parse_delivery("no-separator"), None);
}

#[test]
fn authority_extraction() {
    assert_eq!(authority_of("https://x.test/~a/outbox").as_deref(), Some("x.test"));
    assert_eq!(authority_of("https://x.test:8080/p?q#f").as_deref(), Some("x.test:8080"));
    assert_eq!(authority_of("https://x.test").as_deref(), Some("x.test"));
    assert_eq!(authority_of("mailto:a@b.test"), None);
    assert_eq!(trust_authority_of("_:https://y.test/b").as_deref(), Some("y.test"));
}

#[test]
fn acct_queries() {
    assert_eq!(
        extract_acct("resource=acct:a@x.test"),
        Some(("a".to_string(), "x.test".to_string()))
    );
    assert_eq!(
        extract_acct("other=1&resource=acct:bob@y.test&more=2"),
        Some(("bob".to_string(), "y.test".to_string()))
    );
    assert_eq!(extract_acct("resource=https://x.test/~a"), None);
    assert_eq!(extract_acct(""), None);
}

#[test]
fn key_id_rewrite() {
    assert_eq!(
        key_id_target("acct:admin@x.test"),
        "https://x.test/users/admin#public-key"
    );
    assert_eq!(key_id_target("https://x.test/~a#main-key"), "https://x.test/~a#main-key");
}

#[test]
fn lowercasing_and_strings() {
    assert_eq!(to_lower("POST"), "post");
    assert_eq!(to_lower("MiXeD-09"), "mixed-09");
    assert!(str_eq("same", "same"));
    assert!(!str_eq("same", "same "));
    assert!(starts_with("https://x.test/a", "https://x.test"));
    assert!(!starts_with("http", "https"));
    assert_eq!(find_char("a,b", ','), Some(1));
    assert_eq!(substring("abcdef", 1, 4), "bcd");
    assert_eq!(concat_str("ab", "cd"), "abcd");
    assert_eq!(u64_to_dec(0), "0");
    assert_eq!(u64_to_dec(90210), "90210");
}

#[test]
fn signing_string_shape() {
    let req = request(
        "POST",
        "/~a/inbox",
        Some("x=1"),
        &[("host", "x.test"), ("digest", "SHA-256=abc")],
    );
    let line = req.header_line("(request-target)");
    assert_eq!(line, "(request-target): post /~a/inbox?x=1");
    assert_eq!(req.header_line("host"), "host: x.test");
    let names = vec![
        "(request-target)".to_string(),
        "host".to_string(),
        "digest".to_string(),
    ];
    let signing = req.signing_string(&names);
    assert_eq!(
        signing,
        "(request-target): post /~a/inbox?x=1\nhost: x.test\ndigest: SHA-256=abc"
    );
}

#[test]
fn signing_string_joins_repeated_headers() {
    let req = request("GET", "/", None, &[("accept", "a/b"), ("accept", "c/d")]);
    assert_eq!(req.header_line("accept"), "accept: a/b, c/d");
    assert_eq!(req.header_line("missing"), "missing: ");
}

#[test]
fn digest_header_known_answer() {
    // SHA-256 of the empty byte string, in standard base64.
    assert_eq!(
        digest_header(b""),
        "SHA-256=47DEQpj8HBSa+/TImW+5JCeuQeRkm5NMpJWZG3hSuFU="
    );
}

#[test]
fn signature_header_round_trip() {
    let header = signature_header(
        "https://x.test/~a#main-key",
        "(request-target) host digest",
        "c2lnbmF0dXJl",
    );
    let expected = concat_str(
        "keyId=\"https://x.test/~a#main-key\",algorithm=\"rsa-sha256\",",
        "headers=\"(request-target) host digest\",signature=\"c2lnbmF0dXJl\"",
    );
    assert_eq!(header, expected);
    let params = parse_signature_header(&header).expect("parses");
    assert_eq!(params.key_id, "https://x.test/~a#main-key");
    assert_eq!(params.algorithm, "rsa-sha256");
    assert_eq!(params.headers, "(request-target) host digest");
    assert_eq!(params.signature, "c2lnbmF0dXJl");
}

#[test]
fn signature_header_parse_tolerates_order_and_overrides() {
    let params =
        parse_signature_header("algorithm=\"rsa-sha256\",keyId=\"k1\",headers=\"host\",signature=\"s\",keyId=\"k2\"")
            .expect("parses");
    assert_eq!(params.key_id, "k2");
    assert!(parse_signature_header("keyId=\"k\"").is_none());
}

#[test]
fn split_and_join() {
    let parts = split_on("a b  c", ' ');
    assert_eq!(parts, vec!["a", "b", "", "c"]);
    assert_eq!(join_strings(&parts, "-"), "a-b--c");
    assert_eq!(split_on("", ','), vec![""]);
}

#[test]
fn routes_match_method_path_and_accept() {
    let get_all = Route::get_prefix("/", RouteTarget::EntityGet);
    let webfinger = Route::get("/.well-known/webfinger", RouteTarget::Webfinger);
    let post_all = Route::post_prefix("/", RouteTarget::EntityPost);
    let none: Vec<String> = vec![];
    assert!(get_all.can_handle("GET", "/~a/outbox", &none));
    assert!(!get_all.can_handle("POST", "/~a/outbox", &none));
    assert!(webfinger.can_handle("GET", "/.well-known/webfinger", &none));
    assert!(!webfinger.can_handle("GET", "/.well-known/webfinger2", &none));
    assert!(post_all.can_handle("POST", "/~a/inbox", &none));
    let mut picky = Route::get_prefix("/", RouteTarget::EntityGet);
    picky.content_type.push("application/activity+json".to_string());
    assert!(!picky.can_handle("GET", "/x", &none));
    let offered = vec!["text/html".to_string(), "application/activity+json".to_string()];
    assert!(picky.can_handle("GET", "/x", &offered));
}

#[test]
fn register_delivery_enqueues_one_order() {
    let mut ctx = Context::new(
        &ServerConfig {
            domain: "https://x.test".to_string(),
            name: "t".to_string(),
            description: "t".to_string(),
            instance_id: 1,
            admins: vec![],
        },
        User {
            subject: "https://x.test/~a".to_string(),
            issuer: None,
            audience: vec![],
            claims: vec![],
            token_identifier: "t".to_string(),
        },
    );
    register_delivery(&mut ctx, "https://x.test/act/1", "https://y.test/in box").unwrap();
    let order = lease_delivery(&mut ctx).expect("enqueued");
    assert_eq!(order.event, "deliver");
    assert_eq!(order.data, "https://x.test/act/1 https://y.test/in\\sbox");
}
