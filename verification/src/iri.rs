//! Reading IRIs: the authority component, blank-node ids, and `acct:` forms.

use vstd::prelude::*;

use crate::strutil::{find_char, lemma_find_char, spec_find_char, spec_has_prefix, starts_with, substring};

verus! {

/// Position of the first `://` in `s`, if any.
pub open spec fn spec_find_scheme_sep(s: Seq<char>) -> Option<int>
    decreases s.len(),
{
    if s.len() < 3 {
        None
    } else if s[0] == ':' && s[1] == '/' && s[2] == '/' {
        Some(0int)
    } else {
        match spec_find_scheme_sep(s.drop_first()) {
            Some(i) => Some(i + 1),
            None => None,
        }
    }
}

/// Number of leading characters of `s` before a `/`, `?` or `#` (all of `s`
/// when none occurs).
pub open spec fn spec_authority_end(s: Seq<char>) -> int
    decreases s.len(),
{
    if s.len() == 0 {
        0
    } else if s[0] == '/' || s[0] == '?' || s[0] == '#' {
        0
    } else {
        1 + spec_authority_end(s.drop_first())
    }
}

/// The authority of an IRI: what stands between `://` and the next `/`, `?`
/// or `#`; `None` when the IRI has no `://`.
pub open spec fn spec_authority(s: Seq<char>) -> Option<Seq<char>> {
    match spec_find_scheme_sep(s) {
        None => None,
        Some(i) => {
            let rest = s.skip(i + 3);
            Some(rest.take(spec_authority_end(rest)))
        },
    }
}

/// An id names a blank node when it begins with `_:`.
pub open spec fn spec_is_blank(s: Seq<char>) -> bool {
    spec_has_prefix(s, "_:"@)
}

/// The authority an id is judged by when deciding trust: for a blank node
/// `_:x`, the authority of `x`; otherwise the authority of the id itself.
pub open spec fn spec_trust_authority(s: Seq<char>) -> Option<Seq<char>> {
    if spec_is_blank(s) {
        spec_authority(s.skip(2))
    } else {
        spec_authority(s)
    }
}

/// The first `://` is at the returned position, and at no earlier one.
proof fn lemma_find_scheme_sep(s: Seq<char>)
    ensures
        match spec_find_scheme_sep(s) {
            Some(i) => 0 <= i && i + 3 <= s.len() && s[i] == ':' && s[i + 1] == '/' && s[i + 2]
                == '/' && forall|j: int|
                0 <= j < i ==> !(#[trigger] s[j] == ':' && s[j + 1] == '/' && s[j + 2] == '/'),
            None => forall|j: int|
                0 <= j && j + 3 <= s.len() ==> !(#[trigger] s[j] == ':' && s[j + 1] == '/' && s[j
                    + 2] == '/'),
        },
    decreases s.len(),
{
    if s.len() >= 3 && !(s[0] == ':' && s[1] == '/' && s[2] == '/') {
        let rest = s.drop_first();
        lemma_find_scheme_sep(rest);
        assert(forall|j: int| 0 <= j < s.len() - 1 ==> #[trigger] rest[j] == s[j + 1]);
        match spec_find_scheme_sep(rest) {
            Some(i2) => {
                assert forall|j: int|
                    0 <= j < i2 + 1 implies !(#[trigger] s[j] == ':' && s[j + 1] == '/' && s[j + 2]
                    == '/') by {
                    if j > 0 {
                        assert(!(rest[j - 1] == ':' && rest[j] == '/' && rest[j + 1] == '/'));
                        assert(rest[j - 1] == s[j]);
                        assert(rest[j] == s[j + 1]);
                        assert(rest[j + 1] == s[j + 2]);
                    }
                }
            },
            None => {
                assert forall|j: int|
                    0 <= j && j + 3 <= s.len() implies !(#[trigger] s[j] == ':' && s[j + 1] == '/'
                    && s[j + 2] == '/') by {
                    if j > 0 {
                        assert(!(rest[j - 1] == ':' && rest[j] == '/' && rest[j + 1] == '/'));
                        assert(rest[j - 1] == s[j]);
                        assert(rest[j] == s[j + 1]);
                        assert(rest[j + 1] == s[j + 2]);
                    }
                }
            },
        }
    }
}

/// The authority end is the first delimiter position (or the length).
proof fn lemma_authority_end(s: Seq<char>)
    ensures
        0 <= spec_authority_end(s) <= s.len(),
        forall|j: int|
            0 <= j < spec_authority_end(s) ==> !(s[j] == '/' || s[j] == '?' || s[j] == '#'),
        spec_authority_end(s) < s.len() ==> (s[spec_authority_end(s)] == '/'
            || s[spec_authority_end(s)] == '?' || s[spec_authority_end(s)] == '#'),
    decreases s.len(),
{
    if s.len() > 0 && !(s[0] == '/' || s[0] == '?' || s[0] == '#') {
        let rest = s.drop_first();
        lemma_authority_end(rest);
        assert(forall|j: int| 0 <= j < s.len() - 1 ==> #[trigger] rest[j] == s[j + 1]);
        assert forall|j: int|
            0 <= j < spec_authority_end(s) implies !(s[j] == '/' || s[j] == '?' || s[j]
            == '#') by {
            if j > 0 {
                assert(!(rest[j - 1] == '/' || rest[j - 1] == '?' || rest[j - 1] == '#'));
                assert(rest[j - 1] == s[j]);
            }
        }
        if spec_authority_end(s) < s.len() {
            assert(s[spec_authority_end(s)] == rest[spec_authority_end(rest)]);
        }
    }
}

/// Find the first `://` in `s`.
fn find_scheme_sep(s: &str) -> (r: Option<usize>)
    ensures
        match r {
            Some(i) => spec_find_scheme_sep(s@) == Some(i as int),
            None => spec_find_scheme_sep(s@) is None,
        },
{
    let len = s.unicode_len();
    if len < 3 {
        return None;
    }
    let mut i: usize = 0;
    while i <= len - 3
        invariant
            len == s@.len(),
            3 <= len,
            i <= len,
            forall|j: int|
                0 <= j < i ==> !(#[trigger] s@[j] == ':' && s@[j + 1] == '/' && s@[j + 2] == '/'),
        decreases len - i,
    {
        if s.get_char(i) == ':' && s.get_char(i + 1) == '/' && s.get_char(i + 2) == '/' {
            proof {
                lemma_find_scheme_sep(s@);
                match spec_find_scheme_sep(s@) {
                    Some(k) => {
                        if k < i as int {
                            assert(!(s@[k] == ':' && s@[k + 1] == '/' && s@[k + 2] == '/'));
                        }
                        if k > i as int {
                            assert(!(s@[i as int] == ':' && s@[i + 1] == '/' && s@[i + 2] == '/'));
                        }
                    },
                    None => {
                        assert(!(s@[i as int] == ':' && s@[i + 1] == '/' && s@[i + 2] == '/'));
                    },
                }
            }
            return Some(i);
        }
        i = i + 1;
    }
    proof {
        lemma_find_scheme_sep(s@);
        if let Some(k) = spec_find_scheme_sep(s@) {
            assert(!(s@[k] == ':' && s@[k + 1] == '/' && s@[k + 2] == '/'));
        }
    }
    None
}

/// Extract the authority of an IRI.
pub fn authority_of(s: &str) -> (r: Option<String>)
    ensures
        match r {
            Some(a) => spec_authority(s@) == Some(a@),
            None => spec_authority(s@) is None,
        },
{
    let len = s.unicode_len();
    match find_scheme_sep(s) {
        None => None,
        Some(i) => {
            proof {
                lemma_find_scheme_sep(s@);
            }
            let start = i + 3;
            let ghost rest = s@.skip(start as int);
            let mut j: usize = start;
            proof {
                assert(rest.skip(0) =~= rest);
                assert(spec_authority_end(rest) >= 0) by {
                    lemma_authority_end(rest);
                }
            }
            while j < len
                invariant
                    len == s@.len(),
                    start <= j <= len,
                    rest == s@.skip(start as int),
                    start == i + 3,
                    i + 3 <= len,
                    spec_authority_end(rest) == j - start + spec_authority_end(
                        rest.skip(j - start),
                    ),
                ensures
                    len == s@.len(),
                    start <= j <= len,
                    spec_authority_end(rest) == j - start,
                decreases len - j,
            {
                let ghost pending = rest.skip(j - start);
                proof {
                    assert(pending[0] == s@[j as int]);
                }
                let c = s.get_char(j);
                if c == '/' || c == '?' || c == '#' {
                    proof {
                        assert(spec_authority_end(pending) == 0);
                        assert(spec_authority_end(rest) == j - start);
                    }
                    break ;
                }
                proof {
                    assert(spec_authority_end(pending) == 1 + spec_authority_end(
                        pending.drop_first(),
                    ));
                    assert(pending.drop_first() =~= rest.skip(j - start + 1));
                }
                j = j + 1;
            }
            proof {
                assert(rest.take(j - start) =~= s@.subrange(start as int, j as int));
            }
            Some(substring(s, start, j))
        },
    }
}

/// The trust authority of an id (see `spec_trust_authority`).
pub fn trust_authority_of(s: &str) -> (r: Option<String>)
    ensures
        match r {
            Some(a) => spec_trust_authority(s@) == Some(a@),
            None => spec_trust_authority(s@) is None,
        },
{
    if starts_with(s, "_:") {
        let len = s.unicode_len();
        proof {
            reveal_strlit("_:");
        }
        let rest = substring(s, 2, len);
        authority_of(rest.as_str())
    } else {
        authority_of(s)
    }
}

/// Two optional authorities match when both are present and equal.
pub open spec fn spec_same_authority(a: Option<Seq<char>>, b: Option<Seq<char>>) -> bool {
    match (a, b) {
        (Some(x), Some(y)) => x == y,
        _ => false,
    }
}

/// The `acct:user@host` parts of a webfinger query segment of the shape
/// `resource=acct:user@host`, with exactly one `@` after the prefix.
pub open spec fn spec_acct_of_segment(seg: Seq<char>) -> Option<(Seq<char>, Seq<char>)> {
    if spec_has_prefix(seg, "resource=acct:"@) {
        let rest = seg.skip("resource=acct:"@.len() as int);
        match spec_find_char(rest, '@') {
            None => None,
            Some(j) => {
                let host = rest.skip(j + 1);
                if spec_find_char(host, '@') is None {
                    Some((rest.take(j), host))
                } else {
                    None
                }
            },
        }
    } else {
        None
    }
}

/// Parse one `resource=acct:user@host` segment.
pub fn acct_of_segment(seg: &str) -> (r: Option<(String, String)>)
    ensures
        match r {
            Some(p) => spec_acct_of_segment(seg@) == Some((p.0@, p.1@)),
            None => spec_acct_of_segment(seg@) is None,
        },
{
    proof {
        reveal_strlit("resource=acct:");
    }
    if !starts_with(seg, "resource=acct:") {
        return None;
    }
    let len = seg.unicode_len();
    let rest = substring(seg, 14, len);
    proof {
        assert(("resource=acct:")@.len() == 14);
        assert(rest@ =~= seg@.skip(14));
    }
    match find_char(rest.as_str(), '@') {
        None => None,
        Some(j) => {
            proof {
                lemma_find_char(rest@, '@');
            }
            let rlen = rest.unicode_len();
            let user = substring(rest.as_str(), 0, j);
            let host = substring(rest.as_str(), j + 1, rlen);
            proof {
                assert(user@ =~= rest@.take(j as int));
                assert(host@ =~= rest@.skip(j + 1));
            }
            match find_char(host.as_str(), '@') {
                None => Some((user, host)),
                Some(_) => None,
            }
        },
    }
}

/// The first `resource=acct:` segment of an `&`-separated query, parsed.
pub open spec fn spec_extract_acct(q: Seq<char>) -> Option<(Seq<char>, Seq<char>)>
    decreases q.len(),
{
    match spec_find_char(q, '&') {
        None => spec_acct_of_segment(q),
        Some(i) => if 0 <= i < q.len() {
            match spec_acct_of_segment(q.take(i)) {
                Some(p) => Some(p),
                None => spec_extract_acct(q.skip(i + 1)),
            }
        } else {
            None
        },
    }
}

/// Walk the `&`-separated segments of a query for `resource=acct:user@host`.
pub fn extract_acct(query: &str) -> (r: Option<(String, String)>)
    ensures
        match r {
            Some(p) => spec_extract_acct(query@) == Some((p.0@, p.1@)),
            None => spec_extract_acct(query@) is None,
        },
    decreases query@.len(),
{
    let len = query.unicode_len();
    match find_char(query, '&') {
        None => acct_of_segment(query),
        Some(i) => {
            proof {
                lemma_find_char(query@, '&');
            }
            let seg = substring(query, 0, i);
            proof {
                assert(seg@ =~= query@.take(i as int));
            }
            match acct_of_segment(seg.as_str()) {
                Some(p) => Some(p),
                None => {
                    let tail = substring(query, i + 1, len);
                    proof {
                        assert(tail@ =~= query@.skip(i + 1));
                    }
                    extract_acct(tail.as_str())
                },
            }
        },
    }
}

/// Rewrite `acct:user@host` to the conventional key IRI
/// `https://host/users/user#public-key`; any other id passes unchanged.
pub open spec fn spec_key_id_target(key_id: Seq<char>) -> Seq<char> {
    if spec_has_prefix(key_id, "acct:"@) {
        match spec_acct_of_segment("resource="@ + key_id) {
            Some(p) => "https://"@ + p.1 + "/users/"@ + p.0 + "#public-key"@,
            None => key_id,
        }
    } else {
        key_id
    }
}

/// Apply the `acct:` rewrite to a signature `keyId`.
pub fn key_id_target(key_id: &str) -> (r: String)
    ensures
        r@ == spec_key_id_target(key_id@),
{
    proof {
        reveal_strlit("acct:");
        reveal_strlit("resource=");
        reveal_strlit("resource=acct:");
    }
    if !starts_with(key_id, "acct:") {
        return key_id.to_owned();
    }
    let prefixed = crate::strutil::concat_str("resource=", key_id);
    proof {
        assert(prefixed@ =~= "resource="@ + key_id@);
        assert(spec_has_prefix(prefixed@, "resource=acct:"@)) by {
            assert(prefixed@.subrange(0, 14) =~= "resource=acct:"@) by {
                assert(spec_has_prefix(key_id@, "acct:"@));
                assert(key_id@.subrange(0, 5) =~= "acct:"@);
                assert forall|k: int| 0 <= k < 14 implies prefixed@.subrange(0, 14)[k]
                    == "resource=acct:"@[k] by {
                    if k < 9 {
                        assert(prefixed@[k] == "resource="@[k]);
                    } else {
                        assert(prefixed@[k] == key_id@[k - 9]);
                        assert(key_id@[k - 9] == key_id@.subrange(0, 5)[k - 9]);
                    }
                }
            }
        }
    }
    match acct_of_segment(prefixed.as_str()) {
        Some((user, host)) => {
            let mut out = String::from_str("https://");
            out.append(host.as_str());
            out.append("/users/");
            out.append(user.as_str());
            out.append("#public-key");
            proof {
                reveal_strlit("https://");
                reveal_strlit("/users/");
                reveal_strlit("#public-key");
            }
            out
        },
        None => key_id.to_owned(),
    }
}

} // verus!
