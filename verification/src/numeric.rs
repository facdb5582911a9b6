//! Fixed-point numeric text handling.
//!
//! The annotation stream carries times and confidences as decimal strings
//! ("12.34", "0.9973").  The library reads them into whole scaled integers
//! (milliseconds for times, millionths for confidences) so that every later
//! comparison is exact.  A decimal string here is a run of ASCII digits with
//! at most one dot, at least one digit, and at most twelve integral digits;
//! anything else does not parse and the item carrying it is skipped.

use vstd::prelude::*;

verus! {

pub open spec fn is_ascii_digit(c: char) -> bool {
    '0' <= c && c <= '9'
}

pub open spec fn digit_val(c: char) -> int {
    c as int - 48
}

pub open spec fn digit_char(d: int) -> char {
    (48 + d) as char
}

pub open spec fn all_digits(s: Seq<char>) -> bool {
    forall|i: int| 0 <= i < s.len() ==> is_ascii_digit(#[trigger] s[i])
}

/// Value of a digit string read most-significant first.
pub open spec fn digits_val(s: Seq<char>) -> int
    decreases s.len(),
{
    if s.len() == 0 {
        0
    } else {
        digits_val(s.drop_last()) * 10 + digit_val(s.last())
    }
}

pub open spec fn pow10(n: nat) -> int
    decreases n,
{
    if n == 0 {
        1
    } else {
        10 * pow10((n - 1) as nat)
    }
}

/// Index of the first `.` in `s`, or `s.len()` if there is none.
pub open spec fn first_dot(s: Seq<char>) -> int
    decreases s.len(),
{
    if s.len() == 0 {
        0
    } else if s[0] == '.' {
        0
    } else {
        1 + first_dot(s.drop_first())
    }
}

pub open spec fn int_digits(s: Seq<char>) -> Seq<char> {
    s.subrange(0, first_dot(s))
}

pub open spec fn frac_digits(s: Seq<char>) -> Seq<char> {
    if first_dot(s) < s.len() {
        s.subrange(first_dot(s) + 1, s.len() as int)
    } else {
        Seq::empty()
    }
}

/// The shape of decimal strings the library reads.
pub open spec fn is_decimal_string(s: Seq<char>) -> bool {
    &&& all_digits(int_digits(s))
    &&& all_digits(frac_digits(s))
    &&& int_digits(s).len() + frac_digits(s).len() > 0
    &&& int_digits(s).len() <= 12
}

/// `k`-th fractional digit, reading missing places as zero.
pub open spec fn padded_digit(frac: Seq<char>, k: int) -> int {
    if 0 <= k < frac.len() {
        digit_val(frac[k])
    } else {
        0
    }
}

/// Value of the first `k` fractional places, zero-padded on the right.
pub open spec fn frac_val(frac: Seq<char>, k: nat) -> int
    decreases k,
{
    if k == 0 {
        0
    } else {
        frac_val(frac, (k - 1) as nat) * 10 + padded_digit(frac, k - 1)
    }
}

/// The whole number of `scale`-place units a decimal string denotes,
/// truncating fractional places beyond `scale`.
pub open spec fn decimal_scaled(s: Seq<char>, scale: nat) -> int {
    digits_val(int_digits(s)) * pow10(scale) + frac_val(frac_digits(s), scale)
}

/// Parse result: the scaled value, or nothing when the string is not a
/// decimal string of the accepted shape.
pub open spec fn parse_scaled(s: Seq<char>, scale: nat) -> Option<u64> {
    if is_decimal_string(s) {
        Some(decimal_scaled(s, scale) as u64)
    } else {
        None
    }
}

/// Seconds text to whole milliseconds.
pub open spec fn parse_ms(s: Seq<char>) -> Option<u64> {
    parse_scaled(s, 3)
}

/// Confidence text to millionths.
pub open spec fn parse_millionths(s: Seq<char>) -> Option<u64> {
    parse_scaled(s, 6)
}

pub proof fn lemma_first_dot_bounds(s: Seq<char>)
    ensures
        0 <= first_dot(s) <= s.len(),
        first_dot(s) < s.len() ==> s[first_dot(s)] == '.',
        forall|j: int| 0 <= j < first_dot(s) ==> s[j] != '.',
    decreases s.len(),
{
    if s.len() > 0 && s[0] != '.' {
        lemma_first_dot_bounds(s.drop_first());
        assert forall|j: int| 0 <= j < first_dot(s) implies s[j] != '.' by {
            if j > 0 {
                assert(s.drop_first()[j - 1] == s[j]);
            }
        }
        if first_dot(s) < s.len() {
            assert(s.drop_first()[first_dot(s) - 1] == s[first_dot(s)]);
        }
    }
}

/// A position marked as the first dot by a scan really is `first_dot`.
pub proof fn lemma_first_dot_is(s: Seq<char>, d: int)
    requires
        0 <= d <= s.len(),
        d < s.len() ==> s[d] == '.',
        forall|j: int| 0 <= j < d ==> s[j] != '.',
    ensures
        first_dot(s) == d,
    decreases s.len(),
{
    if s.len() > 0 && s[0] != '.' {
        lemma_first_dot_is(s.drop_first(), d - 1);
    }
}

pub proof fn lemma_digits_val_bound(s: Seq<char>)
    requires
        all_digits(s),
    ensures
        0 <= digits_val(s) < pow10(s.len()),
    decreases s.len(),
{
    if s.len() > 0 {
        assert(all_digits(s.drop_last()));
        lemma_digits_val_bound(s.drop_last());
        assert(0 <= digit_val(s.last()) <= 9);
    }
}

pub proof fn lemma_frac_val_bound(frac: Seq<char>, k: nat)
    requires
        all_digits(frac),
    ensures
        0 <= frac_val(frac, k) < pow10(k),
    decreases k,
{
    if k > 0 {
        lemma_frac_val_bound(frac, (k - 1) as nat);
    }
}

pub proof fn lemma_pow10_le(m: nat, n: nat)
    requires
        m <= n,
    ensures
        1 <= pow10(m) <= pow10(n),
    decreases n,
{
    if n > 0 {
        if m == n {
            lemma_pow10_le((m - 1) as nat, (n - 1) as nat);
        } else {
            lemma_pow10_le(m, (n - 1) as nat);
        }
    }
}

fn digit_of(c: char) -> (d: u64)
    requires
        is_ascii_digit(c),
    ensures
        d == digit_val(c),
        d <= 9,
{
    let u: u32 = c as u32;
    u as u64 - 48
}

/// Read a decimal string as a whole number of `scale`-place units.
/// Returns nothing when the text is not of the accepted shape.
pub fn parse_decimal_scaled(s: &str, scale: usize) -> (r: Option<u64>)
    requires
        scale <= 6,
    ensures
        r == parse_scaled(s@, scale as nat),
{
    let len = s.unicode_len();
    // First pass: locate the single dot and refuse other non-digits.
    let mut i: usize = 0;
    let mut dot: usize = len;
    let mut seen_dot = false;
    while i < len
        invariant
            len == s@.len(),
            i <= len,
            !seen_dot ==> dot == len && (forall|j: int| 0 <= j < i ==> s@[j] != '.'
                && is_ascii_digit(s@[j])),
            seen_dot ==> dot < i <= len && s@[dot as int] == '.'
                && (forall|j: int| 0 <= j < dot ==> s@[j] != '.' && is_ascii_digit(s@[j]))
                && (forall|j: int| dot < j < i ==> is_ascii_digit(s@[j])),
        decreases len - i,
    {
        let c = s.get_char(i);
        if c == '.' {
            if seen_dot {
                proof {
                    lemma_first_dot_is(s@, dot as int);
                    assert(frac_digits(s@)[i - dot - 1] == s@[i as int]);
                    assert(!is_decimal_string(s@));
                }
                return None;
            }
            seen_dot = true;
            dot = i;
        } else if !('0' <= c && c <= '9') {
            proof {
                lemma_first_dot_bounds(s@);
                if i < first_dot(s@) {
                    assert(int_digits(s@)[i as int] == s@[i as int]);
                    assert(!is_decimal_string(s@));
                } else if first_dot(s@) < i {
                    assert(frac_digits(s@)[i - first_dot(s@) - 1] == s@[i as int]);
                    assert(!is_decimal_string(s@));
                } else {
                    assert(s@[first_dot(s@)] == '.');
                    assert(false);
                }
            }
            return None;
        }
        i += 1;
    }
    proof {
        lemma_first_dot_is(s@, if seen_dot { dot as int } else { len as int });
    }
    let int_len = dot;
    let frac_len = if seen_dot {
        len - dot - 1
    } else {
        0
    };
    if int_len + frac_len == 0 || int_len > 12 {
        proof {
            assert(int_digits(s@).len() == int_len);
            assert(frac_digits(s@).len() == frac_len);
        }
        return None;
    }
    proof {
        assert(int_digits(s@).len() == int_len);
        assert(frac_digits(s@).len() == frac_len);
        assert forall|j: int| 0 <= j < int_digits(s@).len() implies is_ascii_digit(
            #[trigger] int_digits(s@)[j]) by {
            assert(int_digits(s@)[j] == s@[j]);
        }
        assert forall|j: int| 0 <= j < frac_digits(s@).len() implies is_ascii_digit(
            #[trigger] frac_digits(s@)[j]) by {
            assert(frac_digits(s@)[j] == s@[dot + 1 + j]);
        }
        assert(is_decimal_string(s@));
    }
    // Second pass: the integral digits.
    let mut acc: u64 = 0;
    let mut j: usize = 0;
    while j < int_len
        invariant
            len == s@.len(),
            int_len == int_digits(s@).len(),
            int_len <= 12,
            int_len <= len,
            all_digits(int_digits(s@)),
            j <= int_len,
            acc == digits_val(int_digits(s@).subrange(0, j as int)),
            acc < pow10(j as nat),
        decreases int_len - j,
    {
        proof {
            lemma_first_dot_bounds(s@);
            assert(int_digits(s@)[j as int] == s@[j as int]);
            assert(int_digits(s@).subrange(0, j + 1).drop_last() =~= int_digits(
                s@).subrange(0, j as int));
            assert(all_digits(int_digits(s@).subrange(0, j + 1)));
            lemma_digits_val_bound(int_digits(s@).subrange(0, j + 1));
            lemma_pow10_le((j + 1) as nat, 12);
            assert(pow10(12) == 1000000000000) by {
                reveal_with_fuel(pow10, 13);
            }
        }
        let d = digit_of(s.get_char(j));
        acc = acc * 10 + d;
        j += 1;
    }
    proof {
        assert(int_digits(s@).subrange(0, int_len as int) =~= int_digits(s@));
        lemma_pow10_le(int_len as nat, 12);
        assert(pow10(12) == 1000000000000) by {
            reveal_with_fuel(pow10, 13);
        }
    }
    // Third pass: exactly `scale` fractional places, zero-padded.
    let mut k: usize = 0;
    while k < scale
        invariant
            len == s@.len(),
            scale <= 6,
            int_len == int_digits(s@).len(),
            frac_len == frac_digits(s@).len(),
            seen_dot ==> dot == first_dot(s@) && dot < len,
            !seen_dot ==> frac_len == 0,
            frac_len == 0 || dot + 1 + frac_len == len,
            all_digits(frac_digits(s@)),
            all_digits(int_digits(s@)),
            k <= scale,
            digits_val(int_digits(s@)) < pow10(12),
            acc == digits_val(int_digits(s@)) * pow10(k as nat) + frac_val(
                frac_digits(s@), k as nat),
            acc < pow10((12 + k) as nat),
        decreases scale - k,
    {
        let d: u64 = if k < frac_len {
            proof {
                assert(frac_digits(s@)[k as int] == s@[dot + 1 + k]);
            }
            digit_of(s.get_char(dot + 1 + k))
        } else {
            0
        };
        proof {
            lemma_first_dot_bounds(s@);
            assert(d == padded_digit(frac_digits(s@), k as int));
            assert(all_digits(int_digits(s@)));
            lemma_digits_val_bound(int_digits(s@));
            lemma_frac_val_bound(frac_digits(s@), (k + 1) as nat);
            assert(digits_val(int_digits(s@)) * pow10((k + 1) as nat) == (digits_val(
                int_digits(s@)) * pow10(k as nat)) * 10) by (nonlinear_arith)
                requires
                    pow10((k + 1) as nat) == 10 * pow10(k as nat),
            ;
            assert(digits_val(int_digits(s@)) * pow10((k + 1) as nat) + frac_val(
                frac_digits(s@), (k + 1) as nat) < pow10((12 + k + 1) as nat)) by {
                lemma_bound_step(digits_val(int_digits(s@)), frac_digits(s@), (
                k + 1) as nat);
            }
            assert(pow10((12 + k + 1) as nat) <= pow10(18)) by {
                lemma_pow10_le((12 + k + 1) as nat, 18);
            }
            assert(pow10(18) == 1000000000000000000) by {
                reveal_with_fuel(pow10, 19);
            }
        }
        acc = acc * 10 + d;
        k += 1;
    }
    Some(acc)
}

proof fn lemma_bound_step(iv: int, frac: Seq<char>, k: nat)
    requires
        0 <= iv < pow10(12),
        all_digits(frac),
        k >= 1,
    ensures
        iv * pow10(k) + frac_val(frac, k) < pow10((12 + k) as nat),
{
    lemma_frac_val_bound(frac, k);
    lemma_pow10_le(k, k);
    assert(iv * pow10(k) <= (pow10(12) - 1) * pow10(k)) by (nonlinear_arith)
        requires
            0 <= iv <= pow10(12) - 1,
            pow10(k) >= 1,
    ;
    assert(pow10((12 + k) as nat) == pow10(12) * pow10(k)) by {
        lemma_pow10_mul(12, k);
    }
    assert((pow10(12) - 1) * pow10(k) + pow10(k) == pow10(12) * pow10(k))
        by (nonlinear_arith);
}

proof fn lemma_pow10_mul(m: nat, n: nat)
    ensures
        pow10((m + n) as nat) == pow10(m) * pow10(n),
    decreases m,
{
    if m == 0 {
    } else {
        lemma_pow10_mul((m - 1) as nat, n);
        assert(pow10((m + n) as nat) == 10 * pow10((m - 1 + n) as nat));
        assert(10 * (pow10((m - 1) as nat) * pow10(n)) == (10 * pow10((m - 1) as nat))
            * pow10(n)) by (nonlinear_arith);
    }
}

/// Decimal text of a non-negative number, most significant digit first.
pub open spec fn dec_str(n: int) -> Seq<char>
    decreases n,
{
    if n < 10 {
        seq![digit_char(n)]
    } else {
        dec_str(n / 10).push(digit_char(n % 10))
    }
}

fn digit_char_of(d: u64) -> (c: char)
    requires
        d <= 9,
    ensures
        c == digit_char(d as int),
{
    let b: u8 = 48 + d as u8;
    proof {
        assert(48 + (d as u8) == 48 + d) by (bit_vector)
            requires
                d <= 9,
        ;
    }
    b as char
}

/// Append the decimal text of `n` to `out`.
pub fn push_u64(out: &mut String, n: u64)
    ensures
        final(out)@ == old(out)@ + dec_str(n as int),
    decreases n,
{
    if n < 10 {
        crate::strutil::push_char(out, digit_char_of(n));
    } else {
        push_u64(out, n / 10);
        crate::strutil::push_char(out, digit_char_of(n % 10));
    }
}

/// Decimal text of `n` as an owned string.
pub fn u64_to_string(n: u64) -> (r: String)
    ensures
        r@ == dec_str(n as int),
{
    let mut out = String::new();
    push_u64(&mut out, n);
    proof {
        assert(Seq::<char>::empty() + dec_str(n as int) =~= dec_str(n as int));
    }
    out
}

} // verus!
