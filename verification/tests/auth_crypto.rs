//! Authentication: the HTTP-signature round trip with a real RSA key, JWT
//! segment handling, and the anonymous fallback.

use kroeg::authn::{
    anonymous, bearer_token, check_http_signature, check_jwt, jwt_segments, user_from_request,
    JwtHeader, JwtPayload,
};
use kroeg::crypto::{base64_urlsafe_decode, rsa_sign, rsa_verify, sha256};
use kroeg::entity::{PropValue, StoreItem};
use kroeg::signing::{sign_request, RequestInfo};
use kroeg::store::MemoryStore;
use kroeg::vocab;

fn request(method: &str, path: &str, headers: Vec<(String, String)>) -> RequestInfo {
    RequestInfo {
        method: method.to_string(),
        path: path.to_string(),
        query: None,
        headers,
    }
}

struct TestKey {
    private_pem: String,
    public_pem: String,
}

fn generate_key() -> TestKey {
    let rsa = openssl::rsa::Rsa::generate(2048).expect("key generation");
    TestKey {
        private_pem: String::from_utf8(rsa.private_key_to_pem().unwrap()).unwrap(),
        public_pem: String::from_utf8(rsa.public_key_to_pem().unwrap()).unwrap(),
    }
}

fn key_item(key: &TestKey) -> StoreItem {
    let mut item = StoreItem::new("https://x.test/~a#main-key".to_string());
    item.main.push_value(
        vocab::sec_public_key_pem_str(),
        PropValue::Text(key.public_pem.clone(), String::new()),
    );
    item.main.push_value(
        vocab::sec_owner_str(),
        PropValue::Ref("https://x.test/~a".to_string()),
    );
    item.meta.push_value(
        vocab::sec_private_key_pem_str(),
        PropValue::Text(key.private_pem.clone(), String::new()),
    );
    item
}

#[test]
fn signature_round_trip_verifies_with_same_headers() {
    // A request signed with key K over (request-target) host digest verifies
    // against K's public half with the same headers.
    let key = generate_key();
    let item = key_item(&key);
    let mut store = MemoryStore::new();
    store.put(item.clone());

    let body = b"{\"@id\": \"https://x.test/~a/data/1\"}";
    let mut req = request(
        "POST",
        "/u/f/inbox",
        vec![("host".to_string(), "y.test".to_string())],
    );
    let signature = sign_request(&item, body, &mut req).expect("key signs");
    req.headers.push(("Signature".to_string(), signature));

    let user = check_http_signature(&store, &req).expect("signature verifies");
    assert_eq!(user.subject, "https://x.test/~a");
    assert_eq!(user.issuer.as_deref(), Some("https://x.test/~a#main-key"));
    assert_eq!(user.token_identifier, "http-signature");
}

#[test]
fn tampered_request_is_refused() {
    let key = generate_key();
    let item = key_item(&key);
    let mut store = MemoryStore::new();
    store.put(item.clone());

    let body = b"original body";
    let mut req = request(
        "POST",
        "/u/f/inbox",
        vec![("host".to_string(), "y.test".to_string())],
    );
    let signature = sign_request(&item, body, &mut req).expect("key signs");
    // Tamper with the digest after signing.
    let last = req.headers.len() - 1;
    req.headers[last].1 = "SHA-256=tampered".to_string();
    req.headers.push(("Signature".to_string(), signature));
    assert!(check_http_signature(&store, &req).is_none());
}

#[test]
fn rsa_wrappers_agree() {
    let key = generate_key();
    let data = b"some payload";
    let sig = rsa_sign(key.private_pem.as_bytes(), data).expect("signs");
    assert!(rsa_verify(key.public_pem.as_bytes(), data, &sig));
    assert!(!rsa_verify(key.public_pem.as_bytes(), b"other payload", &sig));
    assert!(rsa_sign(b"not a pem", data).is_none());
    assert_eq!(sha256(b"").len(), 32);
}

#[test]
fn jwt_segments_and_bearer_token() {
    assert_eq!(
        jwt_segments("aa.bb.cc"),
        Some(("aa".to_string(), "bb".to_string(), "cc".to_string()))
    );
    assert_eq!(jwt_segments("aa.bb"), None);
    let req = request(
        "GET",
        "/",
        vec![("Authorization".to_string(), "Bearer token123".to_string())],
    );
    assert_eq!(bearer_token(&req).as_deref(), Some("token123"));
    let req = request(
        "GET",
        "/",
        vec![("Authorization".to_string(), "Basic abc".to_string())],
    );
    assert_eq!(bearer_token(&req), None);
}

#[test]
fn jwt_verification_against_stored_key() {
    let key = generate_key();
    let mut store = MemoryStore::new();
    let mut kid_item = StoreItem::new("https://x.test/keys/1".to_string());
    kid_item.main.push_value(
        vocab::sec_public_key_pem_str(),
        PropValue::Text(key.public_pem.clone(), String::new()),
    );
    store.put(kid_item);

    let signing_input = "header.payload";
    let signature = rsa_sign(key.private_pem.as_bytes(), signing_input.as_bytes()).unwrap();
    let header = JwtHeader {
        typ: "JWT".to_string(),
        alg: "RS256".to_string(),
        kid: "https://x.test/keys/1".to_string(),
    };
    let payload = JwtPayload {
        iss: "https://x.test".to_string(),
        sub: "https://x.test/~a".to_string(),
        aud: None,
        exp: 0,
        nbf: None,
        iat: None,
        jti: Some("tok-1".to_string()),
        other: vec![("scope".to_string(), "write".to_string())],
    };
    let user = check_jwt(&store, &header, &payload, signing_input, &signature)
        .expect("verifies");
    assert_eq!(user.subject, "https://x.test/~a");
    assert_eq!(user.issuer.as_deref(), Some("https://x.test"));
    assert_eq!(user.token_identifier, "tok-1");
    assert_eq!(user.claims, vec![("scope".to_string(), "write".to_string())]);

    // A wrong algorithm or a bad signature degrades to nothing.
    let bad_header = JwtHeader {
        typ: "JWT".to_string(),
        alg: "HS256".to_string(),
        kid: "https://x.test/keys/1".to_string(),
    };
    assert!(check_jwt(&store, &bad_header, &payload, signing_input, &signature).is_none());
    assert!(check_jwt(&store, &header, &payload, "other.input", &signature).is_none());
}

#[test]
fn authentication_failure_degrades_to_anonymous() {
    let store = MemoryStore::new();
    let req = request(
        "POST",
        "/~a/inbox",
        vec![("Signature".to_string(), "keyId=\"nope\"".to_string())],
    );
    let user = user_from_request(&store, &req, None);
    assert_eq!(user.subject, "anonymous");
    assert_eq!(user.token_identifier, "anon");
    let plain = anonymous();
    assert_eq!(plain.subject, "anonymous");
    assert!(plain.issuer.is_none());
}

#[test]
fn urlsafe_base64_decodes_what_it_encodes() {
    let encoded = kroeg::crypto::base64_urlsafe_encode(b"https://x.test/~a");
    let decoded = base64_urlsafe_decode(&encoded).expect("valid base64");
    assert_eq!(decoded, b"https://x.test/~a");
}
