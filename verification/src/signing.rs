//! HTTP-Signature construction and checking: the canonical signing string,
//! the `Digest` header, and the `Signature` header format.

use vstd::prelude::*;

use crate::crypto::{
    b64_standard, base64_encode, rsa_sha256_signed, rsa_sign, sha256, sha256_of,
};
use crate::entity::{spec_first_text, StoreItem};
use crate::strutil::{concat_str, find_char, lemma_find_char, spec_find_char, str_eq, substring};

verus! {

/// The parts of an HTTP request the signature logic reads.
pub struct RequestInfo {
    pub method: String,
    pub path: String,
    pub query: Option<String>,
    pub headers: Vec<(String, String)>,
}

/// The mathematical value of a `RequestInfo`.
#[verifier::ext_equal]
pub struct RequestInfoV {
    pub method: Seq<char>,
    pub path: Seq<char>,
    pub query: Option<Seq<char>>,
    pub headers: Seq<(Seq<char>, Seq<char>)>,
}

impl View for RequestInfo {
    type V = RequestInfoV;

    open spec fn view(&self) -> RequestInfoV {
        RequestInfoV {
            method: self.method@,
            path: self.path@,
            query: match self.query {
                Some(ref q) => Some(q@),
                None => None,
            },
            headers: self.headers@.map_values(|h: (String, String)| (h.0@, h.1@)),
        }
    }
}

/// The lower-case form of an ASCII letter; other characters stand unchanged.
pub open spec fn spec_lower_char(c: char) -> char {
    if c == 'A' {
        'a'
    } else if c == 'B' {
        'b'
    } else if c == 'C' {
        'c'
    } else if c == 'D' {
        'd'
    } else if c == 'E' {
        'e'
    } else if c == 'F' {
        'f'
    } else if c == 'G' {
        'g'
    } else if c == 'H' {
        'h'
    } else if c == 'I' {
        'i'
    } else if c == 'J' {
        'j'
    } else if c == 'K' {
        'k'
    } else if c == 'L' {
        'l'
    } else if c == 'M' {
        'm'
    } else if c == 'N' {
        'n'
    } else if c == 'O' {
        'o'
    } else if c == 'P' {
        'p'
    } else if c == 'Q' {
        'q'
    } else if c == 'R' {
        'r'
    } else if c == 'S' {
        's'
    } else if c == 'T' {
        't'
    } else if c == 'U' {
        'u'
    } else if c == 'V' {
        'v'
    } else if c == 'W' {
        'w'
    } else if c == 'X' {
        'x'
    } else if c == 'Y' {
        'y'
    } else if c == 'Z' {
        'z'
    } else {
        c
    }
}

/// Characterwise ASCII lowering.
pub open spec fn spec_lower(s: Seq<char>) -> Seq<char> {
    s.map_values(|c: char| spec_lower_char(c))
}

/// Lower-case the ASCII letters of a string.
pub fn to_lower(s: &str) -> (r: String)
    ensures
        r@ == spec_lower(s@),
{
    let len = s.unicode_len();
    let mut out = String::new();
    let mut i: usize = 0;
    while i < len
        invariant
            len == s@.len(),
            i <= len,
            out@ =~= spec_lower(s@).take(i as int),
        decreases len - i,
    {
        let c = s.get_char(i);
        if c >= 'A' && c <= 'Z' {
            let idx = (c as u32 - 65) as usize;
            proof {
                reveal_strlit("abcdefghijklmnopqrstuvwxyz");
                assert(idx + 1 <= ("abcdefghijklmnopqrstuvwxyz")@.len());
            }
            let piece = ("abcdefghijklmnopqrstuvwxyz").substring_char(idx, idx + 1);
            out.append(piece);
            proof {
                assert(piece@ =~= seq![spec_lower_char(s@[i as int])]);
            }
        } else {
            let piece = s.substring_char(i, i + 1);
            out.append(piece);
            proof {
                assert(piece@ =~= seq![spec_lower_char(s@[i as int])]);
            }
        }
        proof {
            assert(out@ =~= spec_lower(s@).take(i + 1));
        }
        i = i + 1;
    }
    proof {
        assert(spec_lower(s@).take(len as int) =~= spec_lower(s@));
    }
    out
}

/// The `,`- or ` `-separated segments of a string.
pub open spec fn spec_split(q: Seq<char>, sep: char) -> Seq<Seq<char>>
    decreases q.len(),
{
    match spec_find_char(q, sep) {
        None => seq![q],
        Some(i) => if 0 <= i < q.len() {
            seq![q.take(i)] + spec_split(q.skip(i + 1), sep)
        } else {
            seq![q]
        },
    }
}

/// Split a string on a separator character.
pub fn split_on(s: &str, sep: char) -> (r: Vec<String>)
    ensures
        r@.map_values(|p: String| p@) == spec_split(s@, sep),
    decreases s@.len(),
{
    let len = s.unicode_len();
    let mut out: Vec<String> = Vec::new();
    match find_char(s, sep) {
        None => {
            out.push(s.to_owned());
            proof {
                assert(out@.map_values(|p: String| p@) =~= spec_split(s@, sep));
            }
        },
        Some(i) => {
            proof {
                lemma_find_char(s@, sep);
            }
            let head = substring(s, 0, i);
            let tail = substring(s, i + 1, len);
            proof {
                assert(head@ =~= s@.take(i as int));
                assert(tail@ =~= s@.skip(i + 1));
            }
            out.push(head);
            let mut rest = split_on(tail.as_str(), sep);
            let n = rest.len();
            let ghost restv = rest@.map_values(|p: String| p@);
            let mut k: usize = 0;
            while k < n
                invariant
                    n == rest@.len(),
                    restv == rest@.map_values(|p: String| p@),
                    restv.len() == n,
                    k <= n,
                    out@.len() == 1 + k,
                    out@[0]@ == s@.take(i as int),
                    forall|j: int| 0 <= j < k ==> out@[j + 1]@ == restv[j],
                    forall|j: int| k <= j < n ==> rest@[j]@ == restv[j],
                decreases n - k,
            {
                let ghost pre = out@;
                let piece = rest[k].clone();
                out.push(piece);
                k = k + 1;
            }
            proof {
                assert(out@.map_values(|p: String| p@) =~= seq![s@.take(i as int)] + restv);
            }
        },
    }
    out
}

/// Join string parts with a separator string.
pub open spec fn spec_join(parts: Seq<Seq<char>>, sep: Seq<char>) -> Seq<char>
    decreases parts.len(),
{
    if parts.len() == 0 {
        Seq::empty()
    } else if parts.len() == 1 {
        parts[0]
    } else {
        parts[0] + sep + spec_join(parts.drop_first(), sep)
    }
}

/// The concatenation of a header's values in order, separated by `, `.
pub open spec fn spec_header_values(
    headers: Seq<(Seq<char>, Seq<char>)>,
    name: Seq<char>,
) -> Seq<Seq<char>>
    decreases headers.len(),
{
    if headers.len() == 0 {
        Seq::empty()
    } else if headers[0].0 == name {
        seq![headers[0].1] + spec_header_values(headers.drop_first(), name)
    } else {
        spec_header_values(headers.drop_first(), name)
    }
}

/// One line of the signing string.
pub open spec fn spec_header_line(req: RequestInfoV, name: Seq<char>) -> Seq<char> {
    if name == "(request-target)"@ {
        "(request-target): "@ + spec_lower(req.method) + " "@ + req.path + (match req.query {
            Some(q) => "?"@ + q,
            None => Seq::empty(),
        })
    } else if name.len() == 0 {
        Seq::empty()
    } else {
        name + ": "@ + spec_join(spec_header_values(req.headers, name), ", "@)
    }
}

/// The canonical signing string over the named headers, one line each,
/// joined with a newline.
pub open spec fn spec_signing_string(req: RequestInfoV, names: Seq<Seq<char>>) -> Seq<char> {
    spec_join(names.map_values(|n: Seq<char>| spec_header_line(req, n)), "\n"@)
}

impl RequestInfo {
    /// The joined values of the named header.
    pub fn header_values_joined(&self, name: &str) -> (r: String)
        ensures
            r@ == spec_join(spec_header_values(self@.headers, name@), ", "@),
    {
        let ghost headersv = self@.headers;
        let n = self.headers.len();
        let mut parts: Vec<String> = Vec::new();
        let mut i: usize = 0;
        proof {
            assert(headersv.skip(0) =~= headersv);
        }
        while i < n
            invariant
                n == self.headers@.len(),
                headersv == self@.headers,
                i <= n,
                spec_header_values(headersv, name@) =~= parts@.map_values(|p: String| p@)
                    + spec_header_values(headersv.skip(i as int), name@),
            decreases n - i,
        {
            proof {
                assert(headersv.skip(i as int)[0] == headersv[i as int]);
            }
            let ghost pre = parts@;
            if str_eq(self.headers[i].0.as_str(), name) {
                parts.push(self.headers[i].1.clone());
                proof {
                    assert(parts@.map_values(|p: String| p@) =~= pre.map_values(|p: String| p@)
                        + seq![headersv[i as int].1]);
                }
            }
            proof {
                assert(headersv.skip(i as int).drop_first() =~= headersv.skip(i + 1));
            }
            i = i + 1;
        }
        proof {
            assert(headersv.skip(n as int) =~= Seq::<(Seq<char>, Seq<char>)>::empty());
            assert(spec_header_values(headersv, name@) =~= parts@.map_values(|p: String| p@)
                + Seq::<Seq<char>>::empty());
            assert(spec_header_values(headersv, name@) =~= parts@.map_values(|p: String| p@));
        }
        join_strings(&parts, ", ")
    }

    /// One line of the signing string.
    pub fn header_line(&self, name: &str) -> (r: String)
        ensures
            r@ == spec_header_line(self@, name@),
    {
        proof {
            reveal_strlit("(request-target)");
            reveal_strlit("(request-target): ");
            reveal_strlit(" ");
            reveal_strlit("?");
            reveal_strlit(": ");
        }
        if str_eq(name, "(request-target)") {
            let mut out = String::from_str("(request-target): ");
            let lowered = to_lower(self.method.as_str());
            out.append(lowered.as_str());
            out.append(" ");
            out.append(self.path.as_str());
            match &self.query {
                Some(q) => {
                    out.append("?");
                    out.append(q.as_str());
                },
                None => {},
            }
            proof {
                assert(out@ =~= spec_header_line(self@, name@));
            }
            out
        } else if name.unicode_len() == 0 {
            let out = String::new();
            proof {
                assert(out@ =~= spec_header_line(self@, name@));
            }
            out
        } else {
            let mut out = name.to_owned();
            out.append(": ");
            let joined = self.header_values_joined(name);
            out.append(joined.as_str());
            proof {
                assert(out@ =~= spec_header_line(self@, name@));
            }
            out
        }
    }

    /// The canonical signing string over the named headers.
    pub fn signing_string(&self, names: &Vec<String>) -> (r: String)
        ensures
            r@ == spec_signing_string(self@, names@.map_values(|n: String| n@)),
    {
        let ghost namesv = names@.map_values(|n: String| n@);
        let n = names.len();
        let mut lines: Vec<String> = Vec::new();
        let mut i: usize = 0;
        while i < n
            invariant
                n == names@.len(),
                namesv == names@.map_values(|n2: String| n2@),
                i <= n,
                lines@.len() == i,
                forall|j: int|
                    0 <= j < i ==> lines@[j]@ == spec_header_line(self@, namesv[j]),
            decreases n - i,
        {
            let line = self.header_line(names[i].as_str());
            lines.push(line);
            i = i + 1;
        }
        proof {
            reveal_strlit("\n");
            assert(lines@.map_values(|p: String| p@) =~= namesv.map_values(
                |n2: Seq<char>| spec_header_line(self@, n2),
            ));
        }
        join_strings(&lines, "\n")
    }
}

/// Join owned strings with a separator.
pub fn join_strings(parts: &Vec<String>, sep: &str) -> (r: String)
    ensures
        r@ == spec_join(parts@.map_values(|p: String| p@), sep@),
{
    let ghost partsv = parts@.map_values(|p: String| p@);
    let n = parts.len();
    if n == 0 {
        let out = String::new();
        proof {
            assert(out@ =~= spec_join(partsv, sep@));
        }
        return out;
    }
    let mut out = parts[0].clone();
    let mut i: usize = 1;
    proof {
        lemma_join_tail(partsv, sep@);
        assert(partsv.drop_first() =~= partsv.skip(1));
    }
    while i < n
        invariant
            n == parts@.len(),
            partsv == parts@.map_values(|p: String| p@),
            1 <= i <= n,
            spec_join(partsv, sep@) =~= out@ + spec_join_tail(partsv.skip(i as int), sep@),
        decreases n - i,
    {
        out.append(sep);
        out.append(parts[i].as_str());
        proof {
            assert(partsv.skip(i as int)[0] == partsv[i as int]);
            assert(partsv.skip(i as int).drop_first() =~= partsv.skip(i + 1));
        }
        i = i + 1;
    }
    proof {
        assert(partsv.skip(n as int) =~= Seq::<Seq<char>>::empty());
        assert(out@ + Seq::<char>::empty() =~= out@);
    }
    out
}

/// What remains to be appended after the first part: a separator and a part,
/// repeated.
pub open spec fn spec_join_tail(parts: Seq<Seq<char>>, sep: Seq<char>) -> Seq<char>
    decreases parts.len(),
{
    if parts.len() == 0 {
        Seq::empty()
    } else {
        sep + parts[0] + spec_join_tail(parts.drop_first(), sep)
    }
}

/// The two join forms agree.
proof fn lemma_join_tail(parts: Seq<Seq<char>>, sep: Seq<char>)
    requires
        parts.len() >= 1,
    ensures
        spec_join(parts, sep) == parts[0] + spec_join_tail(parts.drop_first(), sep),
    decreases parts.len(),
{
    if parts.len() == 1 {
        assert(spec_join_tail(parts.drop_first(), sep) =~= Seq::<char>::empty());
        assert(parts[0] + Seq::<char>::empty() =~= parts[0]);
    } else {
        lemma_join_tail(parts.drop_first(), sep);
        assert(parts[0] + sep + spec_join(parts.drop_first(), sep) =~= parts[0] + (sep
            + parts.drop_first()[0] + spec_join_tail(parts.drop_first().drop_first(), sep)));
    }
}

/// The value of the `Digest` header over a request body.
pub open spec fn spec_digest_header(body: Seq<u8>) -> Seq<char> {
    "SHA-256="@ + b64_standard(sha256_of(body))
}

/// Compute the `Digest` header value for a body.
pub fn digest_header(body: &[u8]) -> (r: String)
    ensures
        r@ == spec_digest_header(body@),
{
    let hash = sha256(body);
    let encoded = base64_encode(hash.as_slice());
    proof {
        reveal_strlit("SHA-256=");
    }
    concat_str("SHA-256=", encoded.as_str())
}

/// The `Signature` header carrying a key id, the fixed algorithm, the header
/// list and the encoded signature.
pub open spec fn spec_signature_header(
    key_id: Seq<char>,
    headers: Seq<char>,
    signature: Seq<char>,
) -> Seq<char> {
    "keyId=\""@ + key_id + "\",algorithm=\"rsa-sha256\",headers=\""@ + headers
        + "\",signature=\""@ + signature + "\""@
}

/// Format the `Signature` header.
pub fn signature_header(key_id: &str, headers: &str, signature: &str) -> (r: String)
    ensures
        r@ == spec_signature_header(key_id@, headers@, signature@),
{
    proof {
        reveal_strlit("keyId=\"");
        reveal_strlit("\",algorithm=\"rsa-sha256\",headers=\"");
        reveal_strlit("\",signature=\"");
        reveal_strlit("\"");
    }
    let mut out = String::from_str("keyId=\"");
    out.append(key_id);
    out.append("\",algorithm=\"rsa-sha256\",headers=\"");
    out.append(headers);
    out.append("\",signature=\"");
    out.append(signature);
    out.append("\"");
    proof {
        assert(out@ =~= spec_signature_header(key_id@, headers@, signature@));
    }
    out
}

/// The quote-trimmed form: leading `"` characters dropped.
pub open spec fn spec_trim_lead(v: Seq<char>) -> Seq<char>
    decreases v.len(),
{
    if v.len() > 0 && v[0] == '"' {
        spec_trim_lead(v.drop_first())
    } else {
        v
    }
}

/// The quote-trimmed form: trailing `"` characters dropped.
pub open spec fn spec_trim_trail(v: Seq<char>) -> Seq<char>
    decreases v.len(),
{
    if v.len() > 0 && v.last() == '"' {
        spec_trim_trail(v.drop_last())
    } else {
        v
    }
}

/// Both ends trimmed of `"`.
pub open spec fn spec_trim_quotes(v: Seq<char>) -> Seq<char> {
    spec_trim_trail(spec_trim_lead(v))
}

/// When the first `a` characters are quotes and the next one is not, the
/// leading trim drops exactly those `a` characters.
proof fn lemma_trim_lead_at(v: Seq<char>, a: int)
    requires
        0 <= a <= v.len(),
        forall|j: int| 0 <= j < a ==> v[j] == '"',
        a < v.len() ==> v[a] != '"',
    ensures
        spec_trim_lead(v) == v.skip(a),
    decreases a,
{
    if a == 0 {
        assert(v.skip(0) =~= v);
    } else {
        assert(v[0] == '"');
        assert(forall|j: int| 0 <= j < v.len() - 1 ==> #[trigger] v.drop_first()[j] == v[j + 1]);
        lemma_trim_lead_at(v.drop_first(), a - 1);
        assert(v.drop_first().skip(a - 1) =~= v.skip(a));
    }
}

/// When the last characters from `b` on are quotes and the one before `b` is
/// not, the trailing trim keeps exactly the first `b`.
proof fn lemma_trim_trail_at(v: Seq<char>, b: int)
    requires
        0 <= b <= v.len(),
        forall|j: int| b <= j < v.len() ==> v[j] == '"',
        b > 0 ==> v[b - 1] != '"',
    ensures
        spec_trim_trail(v) == v.take(b),
    decreases v.len() - b,
{
    if b == v.len() {
        if v.len() > 0 && v.last() == '"' {
            assert(v[b - 1] == '"');
        }
        assert(v.take(b) =~= v);
    } else {
        assert(v.last() == '"');
        assert(forall|j: int| 0 <= j < v.len() - 1 ==> #[trigger] v.drop_last()[j] == v[j]);
        lemma_trim_trail_at(v.drop_last(), b);
        assert(v.drop_last().take(b) =~= v.take(b));
    }
}

/// Trim `"` from both ends of a string.
pub fn trim_quotes(s: &str) -> (r: String)
    ensures
        r@ == spec_trim_quotes(s@),
{
    let len = s.unicode_len();
    let mut a: usize = 0;
    while a < len && s.get_char(a) == '"'
        invariant
            len == s@.len(),
            a <= len,
            forall|j: int| 0 <= j < a ==> s@[j] == '"',
        decreases len - a,
    {
        a = a + 1;
    }
    proof {
        lemma_trim_lead_at(s@, a as int);
    }
    let mut b: usize = len;
    while b > a && s.get_char(b - 1) == '"'
        invariant
            len == s@.len(),
            a <= b <= len,
            forall|j: int| 0 <= j < a ==> s@[j] == '"',
            forall|j: int| b <= j < len ==> s@[j] == '"',
        decreases b,
    {
        b = b - 1;
    }
    let ghost mid = s@.skip(a as int);
    proof {
        assert(forall|j: int| b - a <= j < mid.len() ==> #[trigger] mid[j] == s@[j + a]);
        if b > a {
            assert(mid[b - a - 1] == s@[b - 1]);
        }
        lemma_trim_trail_at(mid, b - a);
        assert(mid.take(b - a) =~= s@.subrange(a as int, b as int));
    }
    substring(s, a, b)
}

/// The `name=value` reading of one `Signature` header segment: the value is
/// quote-trimmed, and the name must match exactly.
pub open spec fn spec_param_of_segment(seg: Seq<char>, name: Seq<char>) -> Option<Seq<char>> {
    match spec_find_char(seg, '=') {
        None => None,
        Some(i) => if seg.take(i) == name {
            Some(spec_trim_quotes(seg.skip(i + 1)))
        } else {
            None
        },
    }
}

/// Read one segment as `name=value`.
pub fn param_of_segment(seg: &str, name: &str) -> (r: Option<String>)
    ensures
        match r {
            Some(v) => spec_param_of_segment(seg@, name@) == Some(v@),
            None => spec_param_of_segment(seg@, name@) is None,
        },
{
    let len = seg.unicode_len();
    match find_char(seg, '=') {
        None => None,
        Some(i) => {
            proof {
                lemma_find_char(seg@, '=');
            }
            let head = substring(seg, 0, i);
            proof {
                assert(head@ =~= seg@.take(i as int));
            }
            if str_eq(head.as_str(), name) {
                let tail = substring(seg, i + 1, len);
                proof {
                    assert(tail@ =~= seg@.skip(i + 1));
                }
                Some(trim_quotes(tail.as_str()))
            } else {
                None
            }
        },
    }
}

/// The last segment carrying `name`, read as a parameter.
pub open spec fn spec_last_param(segs: Seq<Seq<char>>, name: Seq<char>) -> Option<Seq<char>>
    decreases segs.len(),
{
    if segs.len() == 0 {
        None
    } else {
        match spec_param_of_segment(segs.last(), name) {
            Some(v) => Some(v),
            None => spec_last_param(segs.drop_last(), name),
        }
    }
}

/// Scan the segments from the end for a parameter.
pub fn last_param(segments: &Vec<String>, name: &str) -> (r: Option<String>)
    ensures
        match r {
            Some(v) => spec_last_param(segments@.map_values(|p: String| p@), name@) == Some(v@),
            None => spec_last_param(segments@.map_values(|p: String| p@), name@) is None,
        },
{
    let ghost segsv = segments@.map_values(|p: String| p@);
    let n = segments.len();
    let mut k: usize = n;
    proof {
        assert(segsv.take(n as int) =~= segsv);
    }
    while k > 0
        invariant
            n == segments@.len(),
            segsv == segments@.map_values(|p: String| p@),
            k <= n,
            spec_last_param(segsv, name@) == spec_last_param(segsv.take(k as int), name@),
        decreases k,
    {
        k = k - 1;
        let ghost prefix = segsv.take(k + 1);
        proof {
            assert(prefix.last() == segsv[k as int]);
        }
        match param_of_segment(segments[k].as_str(), name) {
            Some(v) => {
                return Some(v);
            },
            None => {},
        }
        proof {
            assert(prefix.drop_last() =~= segsv.take(k as int));
        }
    }
    proof {
        assert(segsv.take(0) =~= Seq::<Seq<char>>::empty());
    }
    None
}

/// The parameters read from a `Signature` header.
pub struct SignatureParams {
    pub key_id: String,
    pub algorithm: String,
    pub headers: String,
    pub signature: String,
}

/// All four parameters of a `Signature` header, each the last occurrence in
/// its comma-separated segments; `None` when one is missing.
pub open spec fn spec_signature_params(h: Seq<char>) -> Option<(Seq<char>, Seq<char>, Seq<char>, Seq<char>)> {
    let segs = spec_split(h, ',');
    match (
        spec_last_param(segs, "keyId"@),
        spec_last_param(segs, "algorithm"@),
        spec_last_param(segs, "headers"@),
        spec_last_param(segs, "signature"@),
    ) {
        (Some(k), Some(a), Some(hs), Some(s)) => Some((k, a, hs, s)),
        _ => None,
    }
}

/// Parse a `Signature` header into its four parameters.
pub fn parse_signature_header(h: &str) -> (r: Option<SignatureParams>)
    ensures
        match r {
            Some(p) => spec_signature_params(h@) == Some(
                (p.key_id@, p.algorithm@, p.headers@, p.signature@),
            ),
            None => spec_signature_params(h@) is None,
        },
{
    proof {
        reveal_strlit("keyId");
        reveal_strlit("algorithm");
        reveal_strlit("headers");
        reveal_strlit("signature");
    }
    let segments = split_on(h, ',');
    let key_id = last_param(&segments, "keyId");
    let algorithm = last_param(&segments, "algorithm");
    let headers = last_param(&segments, "headers");
    let signature = last_param(&segments, "signature");
    match (key_id, algorithm, headers, signature) {
        (Some(key_id), Some(algorithm), Some(headers), Some(signature)) => Some(
            SignatureParams { key_id, algorithm, headers, signature },
        ),
        _ => None,
    }
}

/// The names signed in an outgoing request, in order.
pub open spec fn spec_signed_names() -> Seq<Seq<char>> {
    seq!["(request-target)"@, "host"@, "digest"@]
}

/// What signing a request yields: the `Digest` header value, and the
/// `Signature` header value when the key item's meta carries a PEM private
/// key that signs.
pub open spec fn spec_sign_request(
    key: crate::entity::StoreItemV,
    body: Seq<u8>,
    req: RequestInfoV,
) -> (Seq<char>, Option<Seq<char>>) {
    let digest = spec_digest_header(body);
    let req2 = RequestInfoV { headers: req.headers.push(("digest"@, digest)), ..req };
    match spec_first_text(
        crate::entity::spec_lookup(key.meta.props, crate::vocab::sec_private_key_pem()),
    ) {
        None => (digest, None),
        Some(pem) => match rsa_sha256_signed(
            vstd::utf8::encode_utf8(pem),
            vstd::utf8::encode_utf8(spec_signing_string(req2, spec_signed_names())),
        ) {
            None => (digest, None),
            Some(sig) => (
                digest,
                Some(
                    spec_signature_header(
                        key.id,
                        "(request-target) host digest"@,
                        b64_standard(sig),
                    ),
                ),
            ),
        },
    }
}

/// Sign an outgoing request: compute the `Digest` header over the body, and
/// the `Signature` header over `(request-target) host digest` under the key
/// item's private key. The request is returned with the digest header set.
pub fn sign_request(key: &StoreItem, body: &[u8], req: &mut RequestInfo) -> (r: Option<String>)
    ensures
        final(req)@.method == old(req)@.method,
        final(req)@.path == old(req)@.path,
        final(req)@.query == old(req)@.query,
        final(req)@.headers == old(req)@.headers.push(
            ("digest"@, spec_digest_header(body@)),
        ),
        match r {
            Some(sig) => spec_sign_request(key@, body@, old(req)@) == (
                spec_digest_header(body@),
                Some(sig@),
            ),
            None => spec_sign_request(key@, body@, old(req)@) == (
                spec_digest_header(body@),
                None::<Seq<char>>,
            ),
        },
{
    let digest = digest_header(body);
    proof {
        reveal_strlit("digest");
    }
    req.headers.push((String::from_str("digest"), digest.clone()));
    proof {
        assert(req@.headers =~= old(req)@.headers.push(("digest"@, spec_digest_header(body@))));
        assert(req@ =~= RequestInfoV {
            headers: old(req)@.headers.push(("digest"@, spec_digest_header(body@))),
            ..old(req)@
        });
    }
    let pem = match key.meta.first_text(crate::vocab::sec_private_key_pem_str()) {
        Some(pem) => pem.clone(),
        None => {
            return None;
        },
    };
    let mut names: Vec<String> = Vec::new();
    names.push(String::from_str("(request-target)"));
    names.push(String::from_str("host"));
    names.push(String::from_str("digest"));
    proof {
        reveal_strlit("(request-target)");
        reveal_strlit("host");
        assert(names@.map_values(|n: String| n@) =~= spec_signed_names());
    }
    let signing = req.signing_string(&names);
    let signature = match rsa_sign(pem.as_str().as_bytes(), signing.as_str().as_bytes()) {
        Some(sig) => sig,
        None => {
            return None;
        },
    };
    let encoded = base64_encode(signature.as_slice());
    proof {
        reveal_strlit("(request-target) host digest");
    }
    let header = signature_header(key.id.as_str(), "(request-target) host digest", encoded.as_str());
    Some(header)
}

/// Splitting at a separator that the first part avoids cuts exactly there.
proof fn lemma_split_prepend(a: Seq<char>, b: Seq<char>, sep: char)
    requires
        forall|j: int| 0 <= j < a.len() ==> a[j] != sep,
    ensures
        spec_split(a + seq![sep] + b, sep) == seq![a] + spec_split(b, sep),
{
    let s = a + seq![sep] + b;
    let pos = a.len() as int;
    assert(s[pos] == sep);
    assert(forall|j: int| 0 <= j < pos ==> #[trigger] s[j] == a[j]);
    lemma_find_char(s, sep);
    let found = spec_find_char(s, sep);
    assert(found == Some(pos)) by {
        match found {
            None => {
                assert(s[pos] != sep);
            },
            Some(k) => {
                if k < pos {
                    assert(s[k] != sep);
                }
                if k > pos {
                    assert(s[pos] != sep);
                }
            },
        }
    }
    assert(s.take(pos) =~= a);
    assert(s.skip(pos + 1) =~= b);
    assert(spec_split(s, sep) =~= seq![a] + spec_split(b, sep));
}

/// A string without the separator is one segment.
proof fn lemma_split_whole(b: Seq<char>, sep: char)
    requires
        forall|j: int| 0 <= j < b.len() ==> b[j] != sep,
    ensures
        spec_split(b, sep) == seq![b],
{
    lemma_find_char(b, sep);
    if let Some(k) = spec_find_char(b, sep) {
        assert(b[k] != sep);
    }
}

/// Reading `name="value"` out of one formatted segment.
proof fn lemma_param_of_built_segment(name: Seq<char>, value: Seq<char>)
    requires
        forall|j: int| 0 <= j < name.len() ==> name[j] != '=',
        forall|j: int| 0 <= j < value.len() ==> value[j] != '"',
    ensures
        spec_param_of_segment(name + "=\""@ + value + "\""@, name) == Some(value),
{
    reveal_strlit("=\"");
    reveal_strlit("\"");
    let seg = name + "=\""@ + value + "\""@;
    let pos = name.len() as int;
    assert(seg[pos] == '=');
    assert(forall|j: int| 0 <= j < pos ==> #[trigger] seg[j] == name[j]);
    lemma_find_char(seg, '=');
    let found = spec_find_char(seg, '=');
    assert(found == Some(pos)) by {
        match found {
            None => {
                assert(seg[pos] != '=');
            },
            Some(k) => {
                if k < pos {
                    assert(seg[k] != '=');
                }
                if k > pos {
                    assert(seg[pos] != '=');
                }
            },
        }
    }
    assert(seg.take(pos) =~= name);
    let quoted = seg.skip(pos + 1);
    assert(quoted =~= "\""@ + value + "\""@);
    if value.len() == 0 {
        assert(quoted.len() == 2);
        assert(quoted[0] == '"');
        assert(quoted[1] == '"');
        lemma_trim_lead_at(quoted, 2);
        assert(quoted.skip(2) =~= Seq::<char>::empty());
        assert(spec_trim_trail(Seq::<char>::empty()) =~= value);
    } else {
        assert(quoted[0] == '"');
        assert(quoted[1] == value[0]);
        lemma_trim_lead_at(quoted, 1);
        let rest = quoted.skip(1);
        assert(rest =~= value + "\""@);
        let b = value.len() as int;
        assert(rest[b] == '"');
        assert(rest[b - 1] == value[b - 1]);
        lemma_trim_trail_at(rest, b);
        assert(rest.take(b) =~= value);
    }
}

/// A formatted segment answers only to its own name.
proof fn lemma_param_of_built_segment_miss(name: Seq<char>, value: Seq<char>, other: Seq<char>)
    requires
        forall|j: int| 0 <= j < name.len() ==> name[j] != '=',
        other != name,
    ensures
        spec_param_of_segment(name + "=\""@ + value + "\""@, other) is None,
{
    reveal_strlit("=\"");
    reveal_strlit("\"");
    let seg = name + "=\""@ + value + "\""@;
    let pos = name.len() as int;
    assert(seg[pos] == '=');
    assert(forall|j: int| 0 <= j < pos ==> #[trigger] seg[j] == name[j]);
    lemma_find_char(seg, '=');
    let found = spec_find_char(seg, '=');
    assert(found == Some(pos)) by {
        match found {
            None => {
                assert(seg[pos] != '=');
            },
            Some(k) => {
                if k < pos {
                    assert(seg[k] != '=');
                }
                if k > pos {
                    assert(seg[pos] != '=');
                }
            },
        }
    }
    assert(seg.take(pos) =~= name);
}

/// Parsing a formatted `Signature` header yields its parts: a signed request
/// is checked against exactly the key id, algorithm, header list and
/// signature it was built with.
pub proof fn lemma_signature_header_round_trip(
    key_id: Seq<char>,
    headers: Seq<char>,
    signature: Seq<char>,
)
    requires
        forall|j: int| 0 <= j < key_id.len() ==> key_id[j] != ',' && key_id[j] != '"',
        forall|j: int| 0 <= j < headers.len() ==> headers[j] != ',' && headers[j] != '"',
        forall|j: int| 0 <= j < signature.len() ==> signature[j] != ',' && signature[j] != '"',
    ensures
        spec_signature_params(spec_signature_header(key_id, headers, signature)) == Some(
            (key_id, "rsa-sha256"@, headers, signature),
        ),
{
    reveal_strlit("keyId=\"");
    reveal_strlit("\",algorithm=\"rsa-sha256\",headers=\"");
    reveal_strlit("\",signature=\"");
    reveal_strlit("\"");
    reveal_strlit("=\"");
    reveal_strlit("keyId");
    reveal_strlit("algorithm");
    reveal_strlit("headers");
    reveal_strlit("signature");
    reveal_strlit("rsa-sha256");
    let h = spec_signature_header(key_id, headers, signature);
    let seg0 = "keyId"@ + "=\""@ + key_id + "\""@;
    let seg1 = "algorithm"@ + "=\""@ + "rsa-sha256"@ + "\""@;
    let seg2 = "headers"@ + "=\""@ + headers + "\""@;
    let seg3 = "signature"@ + "=\""@ + signature + "\""@;
    assert(h =~= seg0 + seq![','] + (seg1 + seq![','] + (seg2 + seq![','] + seg3)));
    assert(forall|j: int| 0 <= j < seg0.len() ==> #[trigger] seg0[j] != ',') by {
        assert(forall|j: int| 0 <= j < 7 ==> #[trigger] seg0[j] == ("keyId"@ + "=\""@)[j]);
        assert(forall|j: int|
            7 <= j < 7 + key_id.len() ==> #[trigger] seg0[j] == key_id[j - 7]);
        assert(seg0[seg0.len() - 1] == '"');
    }
    assert(forall|j: int| 0 <= j < seg1.len() ==> #[trigger] seg1[j] != ',') by {
        assert(forall|j: int| 0 <= j < 11 ==> #[trigger] seg1[j] == ("algorithm"@ + "=\""@)[j]);
        assert(forall|j: int|
            11 <= j < 11 + "rsa-sha256"@.len() ==> #[trigger] seg1[j] == "rsa-sha256"@[j - 11]);
        assert(seg1[seg1.len() - 1] == '"');
    }
    assert(forall|j: int| 0 <= j < seg2.len() ==> #[trigger] seg2[j] != ',') by {
        assert(forall|j: int| 0 <= j < 9 ==> #[trigger] seg2[j] == ("headers"@ + "=\""@)[j]);
        assert(forall|j: int|
            9 <= j < 9 + headers.len() ==> #[trigger] seg2[j] == headers[j - 9]);
        assert(seg2[seg2.len() - 1] == '"');
    }
    assert(forall|j: int| 0 <= j < seg3.len() ==> #[trigger] seg3[j] != ',') by {
        assert(forall|j: int| 0 <= j < 11 ==> #[trigger] seg3[j] == ("signature"@ + "=\""@)[j]);
        assert(forall|j: int|
            11 <= j < 11 + signature.len() ==> #[trigger] seg3[j] == signature[j - 11]);
        assert(seg3[seg3.len() - 1] == '"');
    }
    lemma_split_prepend(seg0, seg1 + seq![','] + (seg2 + seq![','] + seg3), ',');
    lemma_split_prepend(seg1, seg2 + seq![','] + seg3, ',');
    lemma_split_prepend(seg2, seg3, ',');
    lemma_split_whole(seg3, ',');
    let segs = spec_split(h, ',');
    assert(segs =~= seq![seg0, seg1, seg2, seg3]);
    assert(forall|j: int| 0 <= j < 5int ==> ("keyId"@)[j] != '=');
    assert(forall|j: int| 0 <= j < 9int ==> ("algorithm"@)[j] != '=');
    assert(forall|j: int| 0 <= j < 7int ==> ("headers"@)[j] != '=');
    assert(forall|j: int| 0 <= j < 9int ==> ("signature"@)[j] != '=');
    assert(forall|j: int| 0 <= j < 10int ==> ("rsa-sha256"@)[j] != '"');
    lemma_param_of_built_segment("keyId"@, key_id);
    lemma_param_of_built_segment("algorithm"@, "rsa-sha256"@);
    lemma_param_of_built_segment("headers"@, headers);
    lemma_param_of_built_segment("signature"@, signature);
    lemma_param_of_built_segment_miss("keyId"@, key_id, "algorithm"@);
    lemma_param_of_built_segment_miss("keyId"@, key_id, "headers"@);
    lemma_param_of_built_segment_miss("keyId"@, key_id, "signature"@);
    lemma_param_of_built_segment_miss("algorithm"@, "rsa-sha256"@, "keyId"@);
    lemma_param_of_built_segment_miss("algorithm"@, "rsa-sha256"@, "headers"@);
    lemma_param_of_built_segment_miss("algorithm"@, "rsa-sha256"@, "signature"@);
    lemma_param_of_built_segment_miss("headers"@, headers, "keyId"@);
    lemma_param_of_built_segment_miss("headers"@, headers, "algorithm"@);
    lemma_param_of_built_segment_miss("headers"@, headers, "signature"@);
    lemma_param_of_built_segment_miss("signature"@, signature, "keyId"@);
    lemma_param_of_built_segment_miss("signature"@, signature, "algorithm"@);
    lemma_param_of_built_segment_miss("signature"@, signature, "headers"@);
    assert(segs.drop_last() =~= seq![seg0, seg1, seg2]);
    assert(seq![seg0, seg1, seg2].drop_last() =~= seq![seg0, seg1]);
    assert(seq![seg0, seg1].drop_last() =~= seq![seg0]);
    assert(seq![seg0].drop_last() =~= Seq::<Seq<char>>::empty());
    let l1 = seq![seg0];
    let l2 = seq![seg0, seg1];
    let l3 = seq![seg0, seg1, seg2];
    assert(l1.last() == seg0 && l2.last() == seg1 && l3.last() == seg2 && segs.last() == seg3);
    assert(spec_last_param(l1, "keyId"@) == Some(key_id));
    assert(spec_last_param(l2, "keyId"@) == spec_last_param(l1, "keyId"@));
    assert(spec_last_param(l3, "keyId"@) == spec_last_param(l2, "keyId"@));
    assert(spec_last_param(segs, "keyId"@) == spec_last_param(l3, "keyId"@));
    assert(spec_last_param(Seq::<Seq<char>>::empty(), "algorithm"@) is None);
    assert(l1.drop_last() =~= Seq::<Seq<char>>::empty());
    assert(spec_last_param(l1, "algorithm"@) is None);
    assert(spec_last_param(l2, "algorithm"@) == Some("rsa-sha256"@));
    assert(spec_last_param(l3, "algorithm"@) == spec_last_param(l2, "algorithm"@));
    assert(spec_last_param(segs, "algorithm"@) == spec_last_param(l3, "algorithm"@));
    assert(spec_last_param(l3, "headers"@) == Some(headers));
    assert(spec_last_param(segs, "headers"@) == spec_last_param(l3, "headers"@));
    assert(spec_last_param(segs, "signature"@) == Some(signature));
}

} // verus!
