//! Verified helpers for the character-level string work the library does:
//! equality, substring search, ASCII case folding and space trimming.

use vstd::prelude::*;

verus! {

/// Relies on alloc's `String::push`: appends exactly the given character.
#[verifier::external_body]
pub(crate) fn push_char(s: &mut String, c: char)
    ensures
        final(s)@ == old(s)@.push(c),
{
    s.push(c);
}

/// View of an optional owned string as an optional character sequence.
pub open spec fn opt_str_view(o: &Option<String>) -> Option<Seq<char>> {
    match o {
        Some(s) => Some(s@),
        None => None,
    }
}

/// Character-for-character equality of two string slices.
pub fn str_eq(a: &str, b: &str) -> (r: bool)
    ensures
        r == (a@ == b@),
{
    let alen = a.unicode_len();
    let blen = b.unicode_len();
    if alen != blen {
        proof {
            assert(a@ != b@) by {
                assert(a@.len() != b@.len());
            }
        }
        return false;
    }
    let mut i: usize = 0;
    while i < alen
        invariant
            alen == a@.len(),
            alen == b@.len(),
            i <= alen,
            forall|k: int| 0 <= k < i ==> a@[k] == b@[k],
        decreases alen - i,
    {
        if a.get_char(i) != b.get_char(i) {
            return false;
        }
        i += 1;
    }
    proof {
        assert(a@ =~= b@);
    }
    true
}

/// Equality of optional strings, `None` equal only to `None`.
pub fn opt_str_eq(a: &Option<String>, b: &Option<String>) -> (r: bool)
    ensures
        r == (opt_str_view(a) == opt_str_view(b)),
{
    match (a, b) {
        (Some(x), Some(y)) => str_eq(x.as_str(), y.as_str()),
        (None, None) => true,
        _ => false,
    }
}

/// Whether `n` occurs as a contiguous substring of `h`.
pub open spec fn contains_seq(h: Seq<char>, n: Seq<char>) -> bool {
    exists|k: int|
        0 <= k && k + n.len() <= h.len() && #[trigger] h.subrange(k, k + n.len() as int) == n
}

/// Whether `p` is a prefix of `s`.
pub open spec fn starts_with_seq(s: Seq<char>, p: Seq<char>) -> bool {
    p.len() <= s.len() && s.subrange(0, p.len() as int) == p
}

fn match_at(h: &str, n: &str, k: usize) -> (r: bool)
    requires
        k + n@.len() <= h@.len(),
    ensures
        r == (h@.subrange(k as int, k + n@.len() as int) == n@),
{
    let nlen = n.unicode_len();
    let hlen = h.unicode_len();
    let mut j: usize = 0;
    while j < nlen
        invariant
            nlen == n@.len(),
            hlen == h@.len(),
            k + nlen <= hlen,
            j <= nlen,
            forall|t: int| 0 <= t < j ==> h@[k + t] == n@[t],
        decreases nlen - j,
    {
        if h.get_char(k + j) != n.get_char(j) {
            proof {
                assert(h@.subrange(k as int, k + n@.len() as int)[j as int] == h@[k + j]);
            }
            return false;
        }
        j += 1;
    }
    proof {
        assert(h@.subrange(k as int, k + n@.len() as int) =~= n@);
    }
    true
}

/// Substring search by scanning every candidate offset.
pub fn str_contains(h: &str, n: &str) -> (r: bool)
    ensures
        r == contains_seq(h@, n@),
{
    let hlen = h.unicode_len();
    let nlen = n.unicode_len();
    if nlen > hlen {
        return false;
    }
    if nlen == 0 {
        proof {
            assert(h@.subrange(0, 0 + n@.len() as int) =~= n@);
        }
        return true;
    }
    let last = hlen - nlen;
    let mut k: usize = 0;
    while k <= last
        invariant
            hlen == h@.len(),
            nlen == n@.len(),
            1 <= nlen <= hlen,
            last == hlen - nlen,
            k <= last + 1,
            forall|t: int|
                0 <= t < k ==> #[trigger] h@.subrange(t, t + n@.len() as int) != n@,
        decreases last + 1 - k,
    {
        if match_at(h, n, k) {
            return true;
        }
        k += 1;
    }
    false
}

/// Prefix test.
pub fn str_starts_with(s: &str, p: &str) -> (r: bool)
    ensures
        r == starts_with_seq(s@, p@),
{
    let plen = p.unicode_len();
    if plen > s.unicode_len() {
        return false;
    }
    match_at(s, p, 0)
}

/// ASCII lower-casing of one character; anything outside `A`..`Z` is kept.
pub open spec fn lower_char(c: char) -> char {
    if 'A' <= c && c <= 'Z' {
        ((c as int) + 32) as char
    } else {
        c
    }
}

/// ASCII lower-casing of a character sequence.
pub open spec fn lower_seq(s: Seq<char>) -> Seq<char> {
    s.map_values(|c: char| lower_char(c))
}

fn lower_char_exec(c: char) -> (r: char)
    ensures
        r == lower_char(c),
{
    if 'A' <= c && c <= 'Z' {
        let u: u32 = c as u32;
        let b: u8 = (u + 32) as u8;
        proof {
            assert((u + 32) as u8 == u + 32) by (bit_vector)
                requires
                    65 <= u <= 90,
            ;
        }
        b as char
    } else {
        c
    }
}

/// ASCII lower-casing of a whole string.
pub fn to_ascii_lowercase(s: &str) -> (r: String)
    ensures
        r@ == lower_seq(s@),
{
    let len = s.unicode_len();
    let mut out = String::new();
    let mut i: usize = 0;
    while i < len
        invariant
            len == s@.len(),
            i <= len,
            out@ == lower_seq(s@.subrange(0, i as int)),
        decreases len - i,
    {
        let c = lower_char_exec(s.get_char(i));
        push_char(&mut out, c);
        proof {
            assert(out@ =~= lower_seq(s@.subrange(0, i + 1 as int))) by {
                assert(s@.subrange(0, i + 1 as int).map_values(|c: char| lower_char(c))
                    =~= s@.subrange(0, i as int).map_values(|c: char| lower_char(c)).push(
                    lower_char(s@[i as int])));
            }
        }
        i += 1;
    }
    proof {
        assert(s@.subrange(0, s@.len() as int) =~= s@);
    }
    out
}

/// Whether `c` occurs in `s`.
pub open spec fn contains_char(s: Seq<char>, c: char) -> bool {
    exists|i: int| 0 <= i < s.len() && s[i] == c
}

pub fn str_contains_char(s: &str, c: char) -> (r: bool)
    ensures
        r == contains_char(s@, c),
{
    let len = s.unicode_len();
    let mut i: usize = 0;
    while i < len
        invariant
            len == s@.len(),
            i <= len,
            forall|k: int| 0 <= k < i ==> s@[k] != c,
        decreases len - i,
    {
        if s.get_char(i) == c {
            return true;
        }
        i += 1;
    }
    false
}

/// Drop leading spaces.
pub open spec fn trim_left(s: Seq<char>) -> Seq<char>
    decreases s.len(),
{
    if s.len() > 0 && s[0] == ' ' {
        trim_left(s.drop_first())
    } else {
        s
    }
}

/// Drop trailing spaces.
pub open spec fn trim_right(s: Seq<char>) -> Seq<char>
    decreases s.len(),
{
    if s.len() > 0 && s.last() == ' ' {
        trim_right(s.drop_last())
    } else {
        s
    }
}

/// Drop leading and trailing spaces.
pub open spec fn trim_spaces(s: Seq<char>) -> Seq<char> {
    trim_right(trim_left(s))
}

proof fn lemma_trim_left_at(s: Seq<char>, i: int)
    requires
        0 <= i <= s.len(),
        forall|j: int| 0 <= j < i ==> s[j] == ' ',
        i < s.len() ==> s[i] != ' ',
    ensures
        trim_left(s) =~= s.subrange(i, s.len() as int),
    decreases i,
{
    if i > 0 {
        lemma_trim_left_at(s.drop_first(), i - 1);
        assert(s.drop_first().subrange(i - 1, s.drop_first().len() as int) =~= s.subrange(
            i, s.len() as int));
    } else {
        if s.len() > 0 && s[0] == ' ' {
            assert(false);
        }
        assert(s.subrange(0, s.len() as int) =~= s);
    }
}

proof fn lemma_trim_right_at(s: Seq<char>, j: int)
    requires
        0 <= j <= s.len(),
        forall|k: int| j <= k < s.len() ==> s[k] == ' ',
        j > 0 ==> s[j - 1] != ' ',
    ensures
        trim_right(s) =~= s.subrange(0, j),
    decreases s.len() - j,
{
    if j < s.len() {
        lemma_trim_right_at(s.drop_last(), j);
        assert(s.drop_last().subrange(0, j) =~= s.subrange(0, j));
    } else {
        if s.len() > 0 && s.last() == ' ' {
            assert(false);
        }
        assert(s.subrange(0, s.len() as int) =~= s);
    }
}

/// Copy of `s` with leading and trailing spaces removed.
pub fn trim_spaces_exec(s: &str) -> (r: String)
    ensures
        r@ == trim_spaces(s@),
{
    let len = s.unicode_len();
    let mut a: usize = 0;
    while a < len && s.get_char(a) == ' '
        invariant
            len == s@.len(),
            a <= len,
            forall|j: int| 0 <= j < a ==> s@[j] == ' ',
        decreases len - a,
    {
        a += 1;
    }
    proof {
        lemma_trim_left_at(s@, a as int);
    }
    if a == len {
        proof {
            assert(trim_left(s@) =~= Seq::<char>::empty());
            assert(trim_spaces(s@) =~= Seq::<char>::empty());
        }
        return String::new();
    }
    let mut b: usize = len - 1;
    while s.get_char(b) == ' '
        invariant
            len == s@.len(),
            a < len,
            a <= b < len,
            s@[a as int] != ' ',
            forall|k: int| b < k < len ==> s@[k] == ' ',
        decreases b,
    {
        b -= 1;
    }
    proof {
        let t = s@.subrange(a as int, len as int);
        lemma_trim_right_at(t, b + 1 - a);
        assert(t.subrange(0, b + 1 - a) =~= s@.subrange(a as int, b + 1));
    }
    s.substring_char(a, b + 1).to_owned()
}

} // verus!
