//! Character-level string helpers: equality, prefix and substring tests,
//! and decimal formatting, all specified over `Seq<char>` views.
use vstd::prelude::*;
use vstd::string::*;

verus! {

/// `p` is a prefix of `s`.
pub open spec fn is_prefix_of(p: Seq<char>, s: Seq<char>) -> bool {
    p.len() <= s.len() && s.subrange(0, p.len() as int) == p
}

/// `n` occurs as a contiguous run somewhere in `s`.
pub open spec fn has_substring(s: Seq<char>, n: Seq<char>) -> bool {
    exists|i: int|
        0 <= i && i + n.len() <= s.len() && #[trigger] s.subrange(i, i + n.len() as int) == n
}

/// Character-for-character string equality.
pub fn str_eq(a: &str, b: &str) -> (r: bool)
    ensures
        r == (a@ == b@),
{
    let alen = a.unicode_len();
    let blen = b.unicode_len();
    if alen != blen {
        return false;
    }
    let mut i: usize = 0;
    while i < alen
        invariant
            i <= alen,
            alen == a@.len(),
            alen == blen,
            blen == b@.len(),
            forall|j: int| 0 <= j < i ==> a@[j] == b@[j],
        decreases alen - i,
    {
        if a.get_char(i) != b.get_char(i) {
            return false;
        }
        i = i + 1;
    }
    proof {
        assert(a@ =~= b@);
    }
    true
}

/// Whether `p` is a prefix of `s`.
pub fn starts_with(s: &str, p: &str) -> (r: bool)
    ensures
        r == is_prefix_of(p@, s@),
{
    let slen = s.unicode_len();
    let plen = p.unicode_len();
    if plen > slen {
        return false;
    }
    let mut i: usize = 0;
    while i < plen
        invariant
            i <= plen,
            plen == p@.len(),
            slen == s@.len(),
            plen <= slen,
            forall|j: int| 0 <= j < i ==> s@[j] == p@[j],
        decreases plen - i,
    {
        if s.get_char(i) != p.get_char(i) {
            proof {
                assert(s@.subrange(0, p@.len() as int)[i as int] == s@[i as int]);
            }
            return false;
        }
        i = i + 1;
    }
    proof {
        assert(s@.subrange(0, p@.len() as int) =~= p@);
    }
    true
}

/// Whether `s` and `n` agree on the run of `n.len()` characters starting at `pos` in `s`.
fn matches_at(s: &str, n: &str, pos: usize) -> (r: bool)
    requires
        pos + n@.len() <= s@.len(),
    ensures
        r == (s@.subrange(pos as int, pos + n@.len() as int) == n@),
{
    let slen = s.unicode_len();
    let nlen = n.unicode_len();
    let mut i: usize = 0;
    while i < nlen
        invariant
            i <= nlen,
            nlen == n@.len(),
            slen == s@.len(),
            pos + nlen <= slen,
            forall|j: int| 0 <= j < i ==> s@[pos + j] == n@[j],
        decreases nlen - i,
    {
        if s.get_char(pos + i) != n.get_char(i) {
            proof {
                assert(s@.subrange(pos as int, pos + n@.len() as int)[i as int] == s@[pos + i]);
            }
            return false;
        }
        i = i + 1;
    }
    proof {
        assert(s@.subrange(pos as int, pos + n@.len() as int) =~= n@);
    }
    true
}

/// Substring search for `n` inside `s`.
pub fn contains_sub(s: &str, n: &str) -> (r: bool)
    ensures
        r == has_substring(s@, n@),
{
    let slen = s.unicode_len();
    let nlen = n.unicode_len();
    if nlen > slen {
        return false;
    }
    if nlen == 0 {
        proof {
            assert(s@.subrange(0, 0 + n@.len() as int) =~= n@);
        }
        return true;
    }
    let mut i: usize = 0;
    while i <= slen - nlen
        invariant
            0 < nlen <= slen,
            slen == s@.len(),
            nlen == n@.len(),
            i <= slen - nlen + 1,
            forall|j: int|
                0 <= j < i ==> #[trigger] s@.subrange(j, j + n@.len() as int) != n@,
        decreases slen - i,
    {
        if matches_at(s, n, i) {
            return true;
        }
        i = i + 1;
    }
    false
}

/// The digit character for a value below ten.
pub open spec fn digit_char(d: int) -> char {
    if d == 0 {
        '0'
    } else if d == 1 {
        '1'
    } else if d == 2 {
        '2'
    } else if d == 3 {
        '3'
    } else if d == 4 {
        '4'
    } else if d == 5 {
        '5'
    } else if d == 6 {
        '6'
    } else if d == 7 {
        '7'
    } else if d == 8 {
        '8'
    } else {
        '9'
    }
}

/// The decimal digit string of `n`, most significant digit first.
pub open spec fn dec_chars(n: nat) -> Seq<char>
    decreases n,
{
    if n < 10 {
        seq![digit_char(n as int)]
    } else {
        dec_chars(n / 10) + seq![digit_char((n % 10) as int)]
    }
}

/// One decimal digit as a string slice.
fn digit_str(d: usize) -> (r: &'static str)
    requires
        d < 10,
    ensures
        r@ == seq![digit_char(d as int)],
{
    let r = if d == 0 {
        "0"
    } else if d == 1 {
        "1"
    } else if d == 2 {
        "2"
    } else if d == 3 {
        "3"
    } else if d == 4 {
        "4"
    } else if d == 5 {
        "5"
    } else if d == 6 {
        "6"
    } else if d == 7 {
        "7"
    } else if d == 8 {
        "8"
    } else {
        "9"
    };
    proof {
        reveal_strlit("0");
        reveal_strlit("1");
        reveal_strlit("2");
        reveal_strlit("3");
        reveal_strlit("4");
        reveal_strlit("5");
        reveal_strlit("6");
        reveal_strlit("7");
        reveal_strlit("8");
        reveal_strlit("9");
        assert(r@ =~= seq![digit_char(d as int)]);
    }
    r
}

/// Formats `n` in decimal.
pub fn usize_to_string(n: usize) -> (r: String)
    ensures
        r@ == dec_chars(n as nat),
    decreases n,
{
    if n < 10 {
        let s = digit_str(n);
        s.to_owned()
    } else {
        let mut r = usize_to_string(n / 10);
        r.append(digit_str(n % 10));
        r
    }
}

/// Whether `k` occurs in the list, compared character for character.
pub fn list_contains(v: &Vec<String>, k: &str) -> (r: bool)
    ensures
        r == v.deep_view().contains(k@),
{
    let n = v.len();
    let mut i: usize = 0;
    while i < n
        invariant
            n == v@.len(),
            i <= n,
            forall|j: int| 0 <= j < i ==> v.deep_view()[j] != k@,
        decreases n - i,
    {
        if str_eq(v[i].as_str(), k) {
            proof {
                assert(v.deep_view()[i as int] == k@);
            }
            return true;
        }
        i = i + 1;
    }
    proof {
        if v.deep_view().contains(k@) {
            let j = choose|j: int| 0 <= j < v.deep_view().len() && v.deep_view()[j] == k@;
        }
    }
    false
}

/// Appending to a common prefix is injective in the appended part.
pub proof fn lemma_append_inj(p: Seq<char>, a: Seq<char>, b: Seq<char>)
    requires
        p + a == p + b,
    ensures
        a == b,
{
    assert(a =~= (p + a).skip(p.len() as int));
    assert(b =~= (p + b).skip(p.len() as int));
}

} // verus!
