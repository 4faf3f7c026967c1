//! Verified helpers over `&str` and `String`.
//!
//! `vstd` views a string as a `Seq<char>`; these helpers give executable
//! equality, prefix tests and slicing with contracts over that view.

use vstd::prelude::*;

verus! {

/// Character-by-character equality of two string slices.
pub fn str_eq(a: &str, b: &str) -> (r: bool)
    ensures
        r == (a@ == b@),
{
    let alen = a.unicode_len();
    let blen = b.unicode_len();
    if alen != blen {
        proof {
            assert(a@ != b@) by {
                assert(a@.len() != b@.len());
            }
        }
        return false;
    }
    let mut i: usize = 0;
    while i < alen
        invariant
            alen == a@.len(),
            blen == b@.len(),
            alen == blen,
            i <= alen,
            forall|j: int| 0 <= j < i ==> a@[j] == b@[j],
        decreases alen - i,
    {
        if a.get_char(i) != b.get_char(i) {
            assert(a@[i as int] != b@[i as int]);
            return false;
        }
        i = i + 1;
    }
    proof {
        assert(a@ =~= b@);
    }
    true
}

/// True iff `p@` is a prefix of `s@`.
pub open spec fn spec_has_prefix(s: Seq<char>, p: Seq<char>) -> bool {
    s.len() >= p.len() && s.subrange(0, p.len() as int) == p
}

/// Prefix test over the character views.
pub fn starts_with(s: &str, p: &str) -> (r: bool)
    ensures
        r == spec_has_prefix(s@, p@),
{
    let slen = s.unicode_len();
    let plen = p.unicode_len();
    if slen < plen {
        return false;
    }
    let mut i: usize = 0;
    while i < plen
        invariant
            slen == s@.len(),
            plen == p@.len(),
            plen <= slen,
            i <= plen,
            forall|j: int| 0 <= j < i ==> s@[j] == p@[j],
        decreases plen - i,
    {
        if s.get_char(i) != p.get_char(i) {
            assert(s@[i as int] != p@[i as int]);
            assert(!spec_has_prefix(s@, p@)) by {
                if spec_has_prefix(s@, p@) {
                    assert(s@.subrange(0, p@.len() as int)[i as int] == p@[i as int]);
                }
            }
            return false;
        }
        i = i + 1;
    }
    proof {
        assert(s@.subrange(0, p@.len() as int) =~= p@);
    }
    true
}

/// Index of the first occurrence of `c` in `s@`, if any.
pub open spec fn spec_find_char(s: Seq<char>, c: char) -> Option<int>
    decreases s.len(),
{
    if s.len() == 0 {
        None
    } else if s[0] == c {
        Some(0int)
    } else {
        match spec_find_char(s.drop_first(), c) {
            None => None,
            Some(i) => Some(i + 1),
        }
    }
}

/// The first match of `spec_find_char` is an occurrence, and nothing before it is.
pub proof fn lemma_find_char(s: Seq<char>, c: char)
    ensures
        match spec_find_char(s, c) {
            Some(i) => 0 <= i < s.len() && s[i] == c && forall|j: int| 0 <= j < i ==> s[j] != c,
            None => forall|j: int| 0 <= j < s.len() ==> s[j] != c,
        },
    decreases s.len(),
{
    if s.len() > 0 {
        lemma_find_char(s.drop_first(), c);
        if s[0] != c {
            match spec_find_char(s.drop_first(), c) {
                Some(i) => {
                    assert(s.drop_first()[i] == c);
                    assert(forall|j: int| 0 <= j < i ==> s.drop_first()[j] != c);
                    assert(forall|j: int| 1 <= j < i + 1 ==> s[j] == s.drop_first()[j - 1]);
                },
                None => {
                    assert(forall|j: int| 1 <= j < s.len() ==> s[j] == s.drop_first()[j - 1]);
                },
            }
        }
    }
}

/// Scan for the first occurrence of a character.
pub fn find_char(s: &str, c: char) -> (r: Option<usize>)
    ensures
        match r {
            Some(i) => spec_find_char(s@, c) == Some(i as int),
            None => spec_find_char(s@, c) == None::<int>,
        },
{
    let len = s.unicode_len();
    let mut i: usize = 0;
    while i < len
        invariant
            len == s@.len(),
            i <= len,
            forall|j: int| 0 <= j < i ==> s@[j] != c,
        decreases len - i,
    {
        if s.get_char(i) == c {
            proof {
                lemma_find_char(s@, c);
                match spec_find_char(s@, c) {
                    Some(k) => {
                        if k < i as int {
                            assert(s@[k] != c);
                        }
                        if k > i as int {
                            assert(s@[i as int] != c);
                        }
                    },
                    None => {
                        assert(s@[i as int] != c);
                    },
                }
            }
            return Some(i);
        }
        i = i + 1;
    }
    proof {
        lemma_find_char(s@, c);
        if let Some(k) = spec_find_char(s@, c) {
            assert(s@[k] != c);
        }
    }
    None
}

/// Copy a slice of the characters of `s` into an owned `String`.
pub fn substring(s: &str, from: usize, to: usize) -> (r: String)
    requires
        from <= to <= s@.len(),
    ensures
        r@ == s@.subrange(from as int, to as int),
{
    let piece = s.substring_char(from, to);
    piece.to_owned()
}

/// Concatenate two string slices into an owned `String`.
pub fn concat_str(a: &str, b: &str) -> (r: String)
    ensures
        r@ == a@ + b@,
{
    let mut out = a.to_owned();
    out.append(b);
    out
}

/// The decimal digit character for a value below ten.
pub open spec fn spec_digit(d: int) -> char {
    if d == 0 {
        '0'
    } else if d == 1 {
        '1'
    } else if d == 2 {
        '2'
    } else if d == 3 {
        '3'
    } else if d == 4 {
        '4'
    } else if d == 5 {
        '5'
    } else if d == 6 {
        '6'
    } else if d == 7 {
        '7'
    } else if d == 8 {
        '8'
    } else {
        '9'
    }
}

/// The decimal form of a natural number.
pub open spec fn spec_dec(n: nat) -> Seq<char>
    decreases n,
{
    if n < 10 {
        seq![spec_digit(n as int)]
    } else {
        spec_dec(n / 10).push(spec_digit((n % 10) as int))
    }
}

/// Write a number in decimal.
pub fn u64_to_dec(n: u64) -> (r: String)
    ensures
        r@ == spec_dec(n as nat),
    decreases n,
{
    let digits = "0123456789";
    proof {
        reveal_strlit("0123456789");
    }
    if n < 10 {
        let piece = digits.substring_char((n % 10) as usize, (n % 10) as usize + 1);
        proof {
            assert(piece@ =~= seq![spec_digit(n as int)]);
        }
        piece.to_owned()
    } else {
        let mut out = u64_to_dec(n / 10);
        let d = (n % 10) as usize;
        let piece = digits.substring_char(d, d + 1);
        out.append(piece);
        proof {
            assert(piece@ =~= seq![spec_digit((n % 10) as int)]);
            assert(out@ =~= spec_dec((n / 10) as nat).push(spec_digit((n % 10) as int)));
        }
        out
    }
}

/// The numeric value of a decimal digit character.
pub open spec fn spec_digit_val(c: char) -> Option<int> {
    if c == '0' {
        Some(0int)
    } else if c == '1' {
        Some(1int)
    } else if c == '2' {
        Some(2int)
    } else if c == '3' {
        Some(3int)
    } else if c == '4' {
        Some(4int)
    } else if c == '5' {
        Some(5int)
    } else if c == '6' {
        Some(6int)
    } else if c == '7' {
        Some(7int)
    } else if c == '8' {
        Some(8int)
    } else if c == '9' {
        Some(9int)
    } else {
        None
    }
}

/// The number a non-empty digit string names; `None` on any other string.
pub open spec fn spec_parse_dec(s: Seq<char>) -> Option<nat>
    decreases s.len(),
{
    if s.len() == 0 {
        None
    } else if s.len() == 1 {
        match spec_digit_val(s[0]) {
            Some(d) => Some(d as nat),
            None => None,
        }
    } else {
        match (spec_parse_dec(s.drop_last()), spec_digit_val(s.last())) {
            (Some(v), Some(d)) => Some((v * 10 + d) as nat),
            _ => None,
        }
    }
}

/// A parsed string's prefixes parse to values no larger than the whole.
proof fn lemma_parse_dec_prefix(s: Seq<char>, m: int)
    requires
        1 <= m <= s.len(),
        spec_parse_dec(s) is Some,
    ensures
        spec_parse_dec(s.take(m)) is Some,
        spec_parse_dec(s.take(m))->0 <= spec_parse_dec(s)->0,
    decreases s.len() - m,
{
    if m == s.len() {
        assert(s.take(m) =~= s);
    } else {
        assert(s.drop_last().take(m) =~= s.take(m));
        lemma_parse_dec_prefix(s.drop_last(), m);
    }
}

/// Read a decimal number; `None` on the empty string, a non-digit, or a
/// value beyond `u64`.
pub fn dec_to_u64(s: &str) -> (r: Option<u64>)
    ensures
        match r {
            Some(n) => spec_parse_dec(s@) == Some(n as nat),
            None => spec_parse_dec(s@) is None || spec_parse_dec(s@)->0 > u64::MAX as nat,
        },
{
    let len = s.unicode_len();
    if len == 0 {
        return None;
    }
    let mut acc: u64 = 0;
    let mut i: usize = 0;
    while i < len
        invariant
            len == s@.len(),
            1 <= len,
            i <= len,
            i == 0 ==> acc == 0,
            i >= 1 ==> spec_parse_dec(s@.take(i as int)) == Some(acc as nat),
        decreases len - i,
    {
        let c = s.get_char(i);
        let d: u64 = if c >= '0' && c <= '9' {
            (c as u32 - 48) as u64
        } else {
            proof {
                assert(spec_digit_val(s@[i as int]) is None);
                if spec_parse_dec(s@) is Some {
                    lemma_parse_dec_prefix(s@, i + 1);
                    assert(s@.take(i + 1).last() == s@[i as int]);
                    assert(s@.take(i + 1).drop_last() =~= s@.take(i as int));
                }
            }
            return None;
        };
        proof {
            assert(spec_digit_val(s@[i as int]) == Some(d as int));
        }
        if acc > (u64::MAX - d) / 10 {
            proof {
                assert(acc * 10 + d > u64::MAX) by (nonlinear_arith)
                    requires
                        acc > (u64::MAX - d) / 10,
                        d <= 9,
                ;
                assert(spec_parse_dec(s@.take(i + 1)) is Some ==> spec_parse_dec(
                    s@.take(i + 1),
                )->0 > u64::MAX as nat) by {
                    assert(s@.take(i + 1).last() == s@[i as int]);
                    assert(s@.take(i + 1).drop_last() =~= s@.take(i as int));
                    if i == 0 {
                        assert(acc == 0);
                        assert(acc <= (u64::MAX - d) / 10);
                    }
                }
                if spec_parse_dec(s@) is Some {
                    lemma_parse_dec_prefix(s@, i + 1);
                }
            }
            return None;
        }
        proof {
            assert(acc * 10 + d <= u64::MAX) by (nonlinear_arith)
                requires
                    acc <= (u64::MAX - d) / 10,
                    d <= 9,
            ;
            assert(s@.take(i + 1).last() == s@[i as int]);
            assert(s@.take(i + 1).drop_last() =~= s@.take(i as int));
        }
        acc = acc * 10 + d;
        i = i + 1;
    }
    proof {
        assert(s@.take(len as int) =~= s@);
    }
    Some(acc)
}

} // verus!
