//! ISBN-13 validation: a 13-digit string whose weighted digit sum is a
//! multiple of ten becomes the 64-bit identifier used for books.
use vstd::prelude::*;
use vstd::string::is_ascii;

verus! {

broadcast use vstd::string::is_ascii_spec_bytes;

/// Number of characters in an ISBN-13.
pub const ISBN_LEN: usize = 13;

pub open spec fn is_digit(c: char) -> bool {
    '0' <= c && c <= '9'
}

pub open spec fn digit_value(c: char) -> int {
    c as int - '0' as int
}

pub open spec fn all_digits(s: Seq<char>) -> bool {
    forall|i: int| 0 <= i < s.len() ==> is_digit(#[trigger] s[i])
}

/// Weight of the digit at position `i`: 1 at even positions, 3 at odd ones.
pub open spec fn weight(i: int) -> int {
    if i % 2 == 0 {
        1
    } else {
        3
    }
}

/// Weighted sum of the first `n` digits of `s`.
pub open spec fn weighted_sum(s: Seq<char>, n: nat) -> int
    decreases n,
{
    if n == 0 {
        0
    } else {
        weighted_sum(s, (n - 1) as nat) + weight(n - 1) * digit_value(s[n - 1])
    }
}

/// The first `n` digits of `s` read as a decimal number, most significant first.
pub open spec fn decimal_value(s: Seq<char>, n: nat) -> int
    decreases n,
{
    if n == 0 {
        0
    } else {
        decimal_value(s, (n - 1) as nat) * 10 + digit_value(s[n - 1])
    }
}

pub open spec fn pow10(n: nat) -> int
    decreases n,
{
    if n == 0 {
        1
    } else {
        10 * pow10((n - 1) as nat)
    }
}

/// A well-formed ISBN-13: thirteen ASCII digits with a valid check digit.
pub open spec fn valid_isbn13(s: Seq<char>) -> bool {
    &&& s.len() == 13
    &&& all_digits(s)
    &&& weighted_sum(s, 13) % 10 == 0
}

proof fn lemma_decimal_bound(s: Seq<char>, n: nat)
    requires
        n <= s.len(),
        forall|i: int| 0 <= i < n ==> is_digit(#[trigger] s[i]),
    ensures
        0 <= decimal_value(s, n) < pow10(n),
    decreases n,
{
    if n > 0 {
        lemma_decimal_bound(s, (n - 1) as nat);
        let d = decimal_value(s, (n - 1) as nat);
        let p = pow10((n - 1) as nat);
        let v = digit_value(s[n - 1]);
        assert(0 <= v <= 9);
        assert(0 <= d * 10 + v < 10 * p) by (nonlinear_arith)
            requires
                0 <= d < p,
                0 <= v <= 9,
        ;
    }
}

/// Parses an ISBN-13 string into its numeric identifier.
///
/// Returns `None` unless `s` is exactly thirteen ASCII digits whose weighted
/// sum (weights 1, 3, 1, 3, ...) is a multiple of ten.
pub fn parse_isbn(s: &str) -> (r: Option<i64>)
    ensures
        r is Some <==> valid_isbn13(s@),
        r is Some ==> r->0 as int == decimal_value(s@, 13),
{
    if !s.is_ascii() {
        proof {
            if s@.len() == 13 && all_digits(s@) {
                assert(is_ascii(s));
            }
        }
        return None;
    }
    let b = s.as_bytes();
    assert(b@ =~= Seq::new(s@.len(), |i: int| s@[i] as u8));
    if b.len() != ISBN_LEN {
        return None;
    }
    let mut sum: u32 = 0;
    let mut i: usize = 0;
    while i < ISBN_LEN
        invariant
            b@.len() == 13,
            s@.len() == 13,
            is_ascii(s),
            b@ =~= Seq::new(s@.len(), |i: int| s@[i] as u8),
            i <= 13,
            forall|j: int| 0 <= j < i ==> is_digit(#[trigger] s@[j]),
            sum as int == weighted_sum(s@, i as nat),
            sum <= 27 * i,
        decreases 13 - i,
    {
        let c = b[i];
        assert(c == s@[i as int] as u8);
        assert((s@[i as int] as u32) < 128);
        if c < 48u8 || c > 57u8 {
            assert(!is_digit(s@[i as int]));
            return None;
        }
        let w: u32 = if i % 2 == 0 { 1 } else { 3 };
        sum = sum + w * (c - 48u8) as u32;
        i = i + 1;
    }
    if sum % 10 != 0 {
        return None;
    }
    let mut value: i64 = 0;
    let mut k: usize = 0;
    while k < ISBN_LEN
        invariant
            b@.len() == 13,
            s@.len() == 13,
            all_digits(s@),
            b@ =~= Seq::new(s@.len(), |i: int| s@[i] as u8),
            k <= 13,
            value as int == decimal_value(s@, k as nat),
            0 <= value < pow10(k as nat),
        decreases 13 - k,
    {
        assert((s@[k as int] as u32) < 128);
        let d = (b[k] - 48u8) as i64;
        proof {
            lemma_decimal_bound(s@, (k + 1) as nat);
            reveal_with_fuel(pow10, 14);
            assert(pow10((k + 1) as nat) <= pow10(13)) by {
                lemma_pow10_mono((k + 1) as nat, 13);
            }
        }
        value = value * 10 + d;
        k = k + 1;
    }
    Some(value)
}

proof fn lemma_pow10_mono(a: nat, b: nat)
    requires
        a <= b,
    ensures
        pow10(a) <= pow10(b),
    decreases b,
{
    if a < b {
        lemma_pow10_mono(a, (b - 1) as nat);
        lemma_pow10_pos((b - 1) as nat);
    }
}

proof fn lemma_pow10_pos(n: nat)
    ensures
        pow10(n) >= 1,
    decreases n,
{
    if n > 0 {
        lemma_pow10_pos((n - 1) as nat);
    }
}

} // verus!
