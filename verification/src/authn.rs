//! Deriving a principal from a request: bearer JWT, HTTP signature, or the
//! anonymous fallback. A failure never rejects the request; it degrades the
//! principal to anonymous.

use vstd::prelude::*;
use vstd::utf8::encode_utf8;

use crate::crypto::{
    b64_urlsafe_nopad_decoded, base64_decode, base64_urlsafe_nopad_decode, rsa_sha256_verified,
    rsa_verify,
};
use crate::entity::{spec_first_text, spec_lookup, spec_single_ref, StoreItemV, User, UserV};
use crate::iri::{key_id_target, spec_key_id_target};
use crate::signing::{
    parse_signature_header, spec_signature_params, spec_signing_string, spec_split, split_on,
    RequestInfo, RequestInfoV,
};
use crate::store::MemoryStore;
use crate::strutil::str_eq;
use crate::vocab;

verus! {

/// The contents of a JWT header this server accepts.
pub struct JwtHeader {
    pub typ: String,
    pub alg: String,
    pub kid: String,
}

/// The claims of a JWT payload this server reads.
pub struct JwtPayload {
    pub iss: String,
    pub sub: String,
    pub aud: Option<Vec<String>>,
    pub exp: u32,
    pub nbf: Option<u32>,
    pub iat: Option<u32>,
    pub jti: Option<String>,
    pub other: Vec<(String, String)>,
}

/// The first value of the named header.
pub open spec fn spec_first_header(
    headers: Seq<(Seq<char>, Seq<char>)>,
    name: Seq<char>,
) -> Option<Seq<char>>
    decreases headers.len(),
{
    if headers.len() == 0 {
        None
    } else if headers[0].0 == name {
        Some(headers[0].1)
    } else {
        spec_first_header(headers.drop_first(), name)
    }
}

impl RequestInfo {
    /// Read the first value of the named header.
    pub fn first_header(&self, name: &str) -> (r: Option<&String>)
        ensures
            match r {
                Some(v) => spec_first_header(self@.headers, name@) == Some(v@),
                None => spec_first_header(self@.headers, name@) is None,
            },
    {
        let ghost headersv = self@.headers;
        let n = self.headers.len();
        let mut i: usize = 0;
        proof {
            assert(headersv.skip(0) =~= headersv);
        }
        while i < n
            invariant
                n == self.headers@.len(),
                headersv == self@.headers,
                i <= n,
                spec_first_header(headersv, name@) == spec_first_header(
                    headersv.skip(i as int),
                    name@,
                ),
            decreases n - i,
        {
            proof {
                assert(headersv.skip(i as int)[0] == headersv[i as int]);
            }
            if str_eq(self.headers[i].0.as_str(), name) {
                return Some(&self.headers[i].1);
            }
            proof {
                assert(headersv.skip(i as int).drop_first() =~= headersv.skip(i + 1));
            }
            i = i + 1;
        }
        proof {
            assert(headersv.skip(n as int) =~= Seq::<(Seq<char>, Seq<char>)>::empty());
        }
        None
    }
}

/// The token of an `Authorization: Bearer <token>` header, when the header
/// splits into exactly those two words.
pub open spec fn spec_bearer_token(headers: Seq<(Seq<char>, Seq<char>)>) -> Option<Seq<char>> {
    match spec_first_header(headers, "Authorization"@) {
        None => None,
        Some(v) => {
            let words = spec_split(v, ' ');
            if words.len() == 2 && words[0] == "Bearer"@ {
                Some(words[1])
            } else {
                None
            }
        },
    }
}

/// Extract a bearer token from the request headers.
pub fn bearer_token(req: &RequestInfo) -> (r: Option<String>)
    ensures
        match r {
            Some(t) => spec_bearer_token(req@.headers) == Some(t@),
            None => spec_bearer_token(req@.headers) is None,
        },
{
    proof {
        reveal_strlit("Authorization");
        reveal_strlit("Bearer");
    }
    match req.first_header("Authorization") {
        None => None,
        Some(v) => {
            let words = split_on(v.as_str(), ' ');
            if words.len() == 2 && str_eq(words[0].as_str(), "Bearer") {
                proof {
                    assert(spec_split(v@, ' ')[0] == words@[0]@);
                    assert(spec_split(v@, ' ')[1] == words@[1]@);
                }
                let mut words = words;
                let token = words.pop().unwrap();
                Some(token)
            } else {
                proof {
                    if spec_split(v@, ' ').len() == 2 {
                        assert(spec_split(v@, ' ')[0] == words@[0]@);
                    }
                }
                None
            }
        },
    }
}

/// The three dot-separated segments of a compact JWT, and the signing input
/// (first segment, a dot, second segment).
pub open spec fn spec_jwt_segments(token: Seq<char>) -> Option<(Seq<char>, Seq<char>, Seq<char>)> {
    let parts = spec_split(token, '.');
    if parts.len() == 3 {
        Some((parts[0], parts[1], parts[2]))
    } else {
        None
    }
}

/// Split a compact JWT into header, payload and signature segments.
pub fn jwt_segments(token: &str) -> (r: Option<(String, String, String)>)
    ensures
        match r {
            Some(p) => spec_jwt_segments(token@) == Some((p.0@, p.1@, p.2@)),
            None => spec_jwt_segments(token@) is None,
        },
{
    let mut parts = split_on(token, '.');
    if parts.len() == 3 {
        proof {
            assert(spec_split(token@, '.')[0] == parts@[0]@);
            assert(spec_split(token@, '.')[1] == parts@[1]@);
            assert(spec_split(token@, '.')[2] == parts@[2]@);
        }
        let sig = parts.pop().unwrap();
        let payload = parts.pop().unwrap();
        let header = parts.pop().unwrap();
        Some((header, payload, sig))
    } else {
        None
    }
}

/// The mathematical value of a JWT payload's claims.
pub open spec fn spec_payload_user(
    payload_iss: Seq<char>,
    payload_sub: Seq<char>,
    payload_aud: Option<Seq<Seq<char>>>,
    payload_jti: Option<Seq<char>>,
    payload_other: Seq<(Seq<char>, Seq<char>)>,
) -> UserV {
    UserV {
        subject: payload_sub,
        issuer: Some(payload_iss),
        audience: match payload_aud {
            Some(a) => a,
            None => Seq::empty(),
        },
        claims: payload_other,
        token_identifier: match payload_jti {
            Some(j) => j,
            None => Seq::empty(),
        },
    }
}

/// Whether a parsed JWT is accepted against the stored key, and the
/// principal it yields.
pub open spec fn spec_check_jwt(
    contents: Map<Seq<char>, StoreItemV>,
    typ: Seq<char>,
    alg: Seq<char>,
    kid: Seq<char>,
    payload_user: UserV,
    signing_input: Seq<char>,
    signature: Seq<u8>,
) -> Option<UserV> {
    if typ != "JWT"@ || alg != "RS256"@ {
        None
    } else if !contents.contains_key(kid) {
        None
    } else {
        match spec_first_text(spec_lookup(contents[kid].main.props, vocab::sec_public_key_pem())) {
            None => None,
            Some(pem) => if rsa_sha256_verified(
                encode_utf8(pem),
                encode_utf8(signing_input),
                signature,
            ) {
                Some(payload_user)
            } else {
                None
            },
        }
    }
}

/// Check a parsed JWT: the header must name `JWT`/`RS256`, the key entity
/// named by `kid` must be stored with a PEM public key, and the signature
/// must verify over the signing input.
pub fn check_jwt(
    store: &MemoryStore,
    header: &JwtHeader,
    payload: &JwtPayload,
    signing_input: &str,
    signature: &[u8],
) -> (r: Option<User>)
    requires
        store.wf(),
    ensures
        match r {
            Some(u) => spec_check_jwt(
                store.contents(),
                header.typ@,
                header.alg@,
                header.kid@,
                spec_payload_user(
                    payload.iss@,
                    payload.sub@,
                    match payload.aud {
                        Some(ref a) => Some(a@.map_values(|s: String| s@)),
                        None => None,
                    },
                    match payload.jti {
                        Some(ref j) => Some(j@),
                        None => None,
                    },
                    payload.other@.map_values(|c: (String, String)| (c.0@, c.1@)),
                ),
                signing_input@,
                signature@,
            ) == Some(u@),
            None => spec_check_jwt(
                store.contents(),
                header.typ@,
                header.alg@,
                header.kid@,
                spec_payload_user(
                    payload.iss@,
                    payload.sub@,
                    match payload.aud {
                        Some(ref a) => Some(a@.map_values(|s: String| s@)),
                        None => None,
                    },
                    match payload.jti {
                        Some(ref j) => Some(j@),
                        None => None,
                    },
                    payload.other@.map_values(|c: (String, String)| (c.0@, c.1@)),
                ),
                signing_input@,
                signature@,
            ) is None,
        },
{
    proof {
        reveal_strlit("JWT");
        reveal_strlit("RS256");
    }
    if !str_eq(header.typ.as_str(), "JWT") || !str_eq(header.alg.as_str(), "RS256") {
        return None;
    }
    let key_item = match store.get(header.kid.as_str()) {
        Some(item) => item,
        None => {
            return None;
        },
    };
    let pem = match key_item.main.first_text(vocab::sec_public_key_pem_str()) {
        Some(pem) => pem.clone(),
        None => {
            return None;
        },
    };
    let ok = rsa_verify(
        pem.as_str().as_bytes(),
        signing_input.as_bytes(),
        signature,
    );
    if !ok {
        return None;
    }
    let audience = match &payload.aud {
        Some(a) => crate::entity::clone_strings(a),
        None => Vec::new(),
    };
    let mut claims: Vec<(String, String)> = Vec::new();
    let n = payload.other.len();
    let mut i: usize = 0;
    while i < n
        invariant
            n == payload.other@.len(),
            i <= n,
            claims@.len() == i,
            forall|j: int|
                0 <= j < i ==> (claims@[j].0@, claims@[j].1@) == (
                    #[trigger] payload.other@[j].0@,
                    payload.other@[j].1@,
                ),
        decreases n - i,
    {
        claims.push((payload.other[i].0.clone(), payload.other[i].1.clone()));
        i = i + 1;
    }
    let token_identifier = match &payload.jti {
        Some(j) => j.clone(),
        None => String::new(),
    };
    let user = User {
        subject: payload.sub.clone(),
        issuer: Some(payload.iss.clone()),
        audience,
        claims,
        token_identifier,
    };
    proof {
        assert(user@.claims =~= payload.other@.map_values(|c: (String, String)| (c.0@, c.1@)));
        assert(user@.audience =~= match payload.aud {
            Some(ref a) => a@.map_values(|s: String| s@),
            None => Seq::<Seq<char>>::empty(),
        });
    }
    Some(user)
}

/// Whether an HTTP-signature request is accepted against the stored key, and
/// the principal it yields.
pub open spec fn spec_check_http_signature(
    contents: Map<Seq<char>, StoreItemV>,
    req: RequestInfoV,
) -> Option<UserV> {
    match spec_first_header(req.headers, "Signature"@) {
        None => None,
        Some(h) => match spec_signature_params(h) {
            None => None,
            Some((key_id, algorithm, headers, signature)) => {
                let target = spec_key_id_target(key_id);
                if algorithm != "rsa-sha256"@ {
                    None
                } else if !contents.contains_key(target) {
                    None
                } else {
                    match (
                        spec_first_text(
                            spec_lookup(contents[target].main.props, vocab::sec_public_key_pem()),
                        ),
                        spec_single_ref(spec_lookup(contents[target].main.props, vocab::sec_owner())),
                    ) {
                        (Some(pem), Some(owner)) => match crate::crypto::b64_standard_decoded(
                            signature,
                        ) {
                            None => None,
                            Some(sig) => if rsa_sha256_verified(
                                encode_utf8(pem),
                                encode_utf8(spec_signing_string(req, spec_split(headers, ' '))),
                                sig,
                            ) {
                                Some(
                                    UserV {
                                        subject: owner,
                                        issuer: Some(key_id),
                                        audience: Seq::empty(),
                                        claims: Seq::empty(),
                                        token_identifier: "http-signature"@,
                                    },
                                )
                            } else {
                                None
                            },
                        },
                        _ => None,
                    }
                }
            },
        },
    }
}

/// Check the `Signature` header of a request against the stored key named by
/// its `keyId` (with the `acct:` rewrite), rebuilding the signing string from
/// the named headers.
pub fn check_http_signature(store: &MemoryStore, req: &RequestInfo) -> (r: Option<User>)
    requires
        store.wf(),
    ensures
        match r {
            Some(u) => spec_check_http_signature(store.contents(), req@) == Some(u@),
            None => spec_check_http_signature(store.contents(), req@) is None,
        },
{
    proof {
        reveal_strlit("Signature");
        reveal_strlit("rsa-sha256");
        reveal_strlit("http-signature");
    }
    let h = match req.first_header("Signature") {
        Some(h) => h.clone(),
        None => {
            return None;
        },
    };
    let params = match parse_signature_header(h.as_str()) {
        Some(p) => p,
        None => {
            return None;
        },
    };
    if !str_eq(params.algorithm.as_str(), "rsa-sha256") {
        return None;
    }
    let target = key_id_target(params.key_id.as_str());
    let key_item = match store.get(target.as_str()) {
        Some(item) => item,
        None => {
            return None;
        },
    };
    let pem = match key_item.main.first_text(vocab::sec_public_key_pem_str()) {
        Some(pem) => pem.clone(),
        None => {
            return None;
        },
    };
    let owner = match key_item.main.single_ref(vocab::sec_owner_str()) {
        Some(owner) => owner.clone(),
        None => {
            return None;
        },
    };
    let sig = match base64_decode(params.signature.as_str()) {
        Some(sig) => sig,
        None => {
            return None;
        },
    };
    let names = split_on(params.headers.as_str(), ' ');
    let signing = req.signing_string(&names);
    let ok = rsa_verify(pem.as_str().as_bytes(), signing.as_str().as_bytes(), sig.as_slice());
    if !ok {
        return None;
    }
    let user = User {
        subject: owner,
        issuer: Some(params.key_id),
        audience: Vec::new(),
        claims: Vec::new(),
        token_identifier: String::from_str("http-signature"),
    };
    proof {
        assert(user@.audience =~= Seq::<Seq<char>>::empty());
        assert(user@.claims =~= Seq::<(Seq<char>, Seq<char>)>::empty());
    }
    Some(user)
}

/// The anonymous principal: the sentinel subject with no issuer.
pub fn anonymous() -> (r: User)
    ensures
        r@.subject == "anonymous"@,
        r@.issuer is None,
        r@.audience.len() == 0,
        r@.claims.len() == 0,
        r@.token_identifier == "anon"@,
{
    proof {
        reveal_strlit("anonymous");
        reveal_strlit("anon");
    }
    let r = User {
        subject: String::from_str("anonymous"),
        issuer: None,
        audience: Vec::new(),
        claims: Vec::new(),
        token_identifier: String::from_str("anon"),
    };
    proof {
        assert(r@.audience =~= Seq::<Seq<char>>::empty());
        assert(r@.claims =~= Seq::<(Seq<char>, Seq<char>)>::empty());
    }
    r
}

/// Derive the principal of a request: a verified JWT wins, then a verified
/// HTTP signature, then anonymous. `parsed_jwt` carries the decoded header,
/// payload, signing input and signature of a bearer token when the request
/// had one and its segments decoded.
pub fn user_from_request(
    store: &MemoryStore,
    req: &RequestInfo,
    parsed_jwt: Option<(JwtHeader, JwtPayload, String, Vec<u8>)>,
) -> (r: User)
    requires
        store.wf(),
    ensures
        match parsed_jwt {
            Some(jwt) => match spec_check_jwt(
                store.contents(),
                jwt.0.typ@,
                jwt.0.alg@,
                jwt.0.kid@,
                spec_payload_user(
                    jwt.1.iss@,
                    jwt.1.sub@,
                    match jwt.1.aud {
                        Some(ref a) => Some(a@.map_values(|s: String| s@)),
                        None => None,
                    },
                    match jwt.1.jti {
                        Some(ref j) => Some(j@),
                        None => None,
                    },
                    jwt.1.other@.map_values(|c: (String, String)| (c.0@, c.1@)),
                ),
                jwt.2@,
                jwt.3@,
            ) {
                Some(u) => r@ == u,
                None => r@ == spec_fallback_user(store.contents(), req@),
            },
            None => r@ == spec_fallback_user(store.contents(), req@),
        },
{
    match parsed_jwt {
        Some((header, payload, signing_input, signature)) => {
            match check_jwt(store, &header, &payload, signing_input.as_str(), signature.as_slice()) {
                Some(user) => user,
                None => fallback_user(store, req),
            }
        },
        None => fallback_user(store, req),
    }
}

/// The principal when no JWT is accepted: the HTTP signature's, or anonymous.
pub open spec fn spec_fallback_user(
    contents: Map<Seq<char>, StoreItemV>,
    req: RequestInfoV,
) -> UserV {
    match spec_check_http_signature(contents, req) {
        Some(u) => u,
        None => UserV {
            subject: "anonymous"@,
            issuer: None,
            audience: Seq::empty(),
            claims: Seq::empty(),
            token_identifier: "anon"@,
        },
    }
}

/// Resolve the HTTP-signature principal or fall back to anonymous.
pub fn fallback_user(store: &MemoryStore, req: &RequestInfo) -> (r: User)
    requires
        store.wf(),
    ensures
        r@ == spec_fallback_user(store.contents(), req@),
{
    match check_http_signature(store, req) {
        Some(user) => user,
        None => {
            let user = anonymous();
            proof {
                reveal_strlit("anonymous");
                reveal_strlit("anon");
                assert(user@ =~= spec_fallback_user(store.contents(), req@));
            }
            user
        },
    }
}

/// The decoded parts of a compact JWT: header bytes, payload bytes, the
/// signing input (the first two segments joined by a dot), and the signature
/// bytes. `None` when the token does not split into three base64url
/// segments.
pub open spec fn spec_decode_jwt(token: Seq<char>) -> Option<(Seq<u8>, Seq<u8>, Seq<char>, Seq<u8>)> {
    match spec_jwt_segments(token) {
        None => None,
        Some(segs) => match (
            b64_urlsafe_nopad_decoded(segs.0),
            b64_urlsafe_nopad_decoded(segs.1),
            b64_urlsafe_nopad_decoded(segs.2),
        ) {
            (Some(h), Some(p), Some(sig)) => Some((h, p, segs.0 + "."@ + segs.1, sig)),
            _ => None,
        },
    }
}

/// Split a compact JWT and decode its three segments, keeping the signing
/// input the signature was made over.
pub fn decode_jwt(token: &str) -> (r: Option<(Vec<u8>, Vec<u8>, String, Vec<u8>)>)
    ensures
        match r {
            Some(parts) => spec_decode_jwt(token@) == Some(
                (parts.0@, parts.1@, parts.2@, parts.3@),
            ),
            None => spec_decode_jwt(token@) is None,
        },
{
    proof {
        reveal_strlit(".");
    }
    let (h64, p64, s64) = match jwt_segments(token) {
        Some(segs) => segs,
        None => {
            return None;
        },
    };
    let header = match base64_urlsafe_nopad_decode(h64.as_str()) {
        Some(h) => h,
        None => {
            return None;
        },
    };
    let payload = match base64_urlsafe_nopad_decode(p64.as_str()) {
        Some(p) => p,
        None => {
            return None;
        },
    };
    let signature = match base64_urlsafe_nopad_decode(s64.as_str()) {
        Some(s) => s,
        None => {
            return None;
        },
    };
    let mut signing_input = h64;
    signing_input.append(".");
    signing_input.append(p64.as_str());
    Some((header, payload, signing_input, signature))
}

} // verus!
