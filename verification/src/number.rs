//! Numeric literals of the metadata block: unsigned integers and decimals.

use vstd::prelude::*;
use crate::text::copy_range;

verus! {

/// Whether `b` is an ASCII digit (bytes 48 to 57).
pub open spec fn is_digit(b: u8) -> bool {
    48 <= b && b <= 57
}

/// Whether `s` is one or more ASCII digits.
pub open spec fn all_digits(s: Seq<u8>) -> bool {
    s.len() > 0 && forall|i: int| 0 <= i < s.len() ==> is_digit(#[trigger] s[i])
}

/// The number that a run of digits spells in base ten.
pub open spec fn digits_value(s: Seq<u8>) -> nat
    decreases s.len(),
{
    if s.len() == 0 {
        0
    } else {
        (digits_value(s.drop_last()) * 10 + (s.last() - 48)) as nat
    }
}

/// The `u32` that `s` spells: one or more digits whose value fits.
pub open spec fn u32_literal(s: Seq<u8>) -> Option<u32> {
    if all_digits(s) && digits_value(s) <= u32::MAX {
        Some(digits_value(s) as u32)
    } else {
        None
    }
}

/// A longer run of digits never spells less than its own beginning.
pub proof fn lemma_prefix_value(s: Seq<u8>, k: int)
    requires
        all_digits(s),
        0 <= k <= s.len(),
    ensures
        digits_value(s.subrange(0, k)) <= digits_value(s),
    decreases s.len() - k,
{
    if k == s.len() {
        assert(s.subrange(0, k) =~= s);
    } else {
        lemma_prefix_value(s, k + 1);
        let longer = s.subrange(0, k + 1);
        assert(longer.drop_last() =~= s.subrange(0, k));
        assert(is_digit(s[k]));
        assert(longer.last() == s[k]);
    }
}

/// Reads an unsigned integer: digits only, no sign, no blanks.
pub fn parse_u32(s: &[u8]) -> (r: Option<u32>)
    ensures
        r == u32_literal(s@),
{
    let n: usize = s.len();
    if n == 0 {
        return None;
    }
    let mut acc: u64 = 0;
    let mut i: usize = 0;
    while i < n
        invariant
            n == s@.len(),
            i <= n,
            acc == digits_value(s@.subrange(0, i as int)),
            acc <= u32::MAX,
            forall|j: int| 0 <= j < i ==> is_digit(#[trigger] s@[j]),
        decreases n - i,
    {
        let b: u8 = s[i];
        if b < 48 || b > 57 {
            return None;
        }
        let next: u64 = acc * 10 + (b - 48) as u64;
        proof {
            let longer = s@.subrange(0, i + 1);
            assert(longer.drop_last() =~= s@.subrange(0, i as int));
            assert(longer.last() == b);
            assert(next == digits_value(longer));
        }
        if next > 0xFFFF_FFFF {
            proof {
                if all_digits(s@) {
                    lemma_prefix_value(s@, i + 1);
                }
            }
            return None;
        }
        acc = next;
        i = i + 1;
    }
    proof {
        assert(s@.subrange(0, n as int) =~= s@);
    }
    Some(acc as u32)
}

/// A non-negative decimal number, kept exactly as written: `units` before
/// the point, and after it `fraction` written in `fraction_digits` digits.
/// `4.0` is units 4, fraction 0 in one digit; `2` is units 2 and no
/// fraction digits.
#[derive(Debug, Clone, Copy, PartialEq, Eq, Structural)]
pub struct Decimal {
    pub units: u32,
    pub fraction: u32,
    pub fraction_digits: usize,
}

/// The position of the first decimal point (byte 46) at or after `i`, or
/// the length of `s` if there is none.
pub open spec fn point_from(s: Seq<u8>, i: int) -> int
    decreases s.len() - i,
{
    if 0 <= i < s.len() && s[i] != 46 {
        point_from(s, i + 1)
    } else {
        i
    }
}

/// The decimal that `s` spells: digits, or digits, a point and digits, with
/// each run of digits fitting a `u32` and the number of fraction digits a
/// `usize`.
pub open spec fn decimal_literal(s: Seq<u8>) -> Option<Decimal> {
    let p = point_from(s, 0);
    if p >= s.len() {
        match u32_literal(s) {
            Some(units) => Some(Decimal { units, fraction: 0, fraction_digits: 0 }),
            None => None,
        }
    } else {
        let after = s.subrange(p + 1, s.len() as int);
        match (u32_literal(s.subrange(0, p)), u32_literal(after)) {
            (Some(units), Some(fraction)) => if after.len() <= usize::MAX {
                Some(Decimal { units, fraction, fraction_digits: after.len() as usize })
            } else {
                None
            },
            _ => None,
        }
    }
}

/// Ten to the power `k`.
pub open spec fn pow10(k: nat) -> nat
    decreases k,
{
    if k == 0 {
        1
    } else {
        10 * pow10((k - 1) as nat)
    }
}

/// Whether the fraction of a decimal fits its digits: no fraction where
/// there are no digits, else a fraction below ten to their number.
pub open spec fn exact(d: Decimal) -> bool {
    if d.fraction_digits == 0 {
        d.fraction == 0
    } else {
        d.fraction < pow10(d.fraction_digits as nat)
    }
}

/// A run of digits is worth less than ten to its length.
pub proof fn lemma_value_bound(s: Seq<u8>)
    requires
        s.len() > 0 ==> all_digits(s),
    ensures
        digits_value(s) < pow10(s.len()),
    decreases s.len(),
{
    if s.len() > 0 {
        let head = s.drop_last();
        assert(is_digit(s[s.len() - 1]));
        assert forall|i: int| 0 <= i < head.len() implies is_digit(#[trigger] head[i]) by {
            assert(head[i] == s[i]);
        }
        lemma_value_bound(head);
    }
}

/// The first point at or after `i` stands between `i` and the end.
pub proof fn lemma_point_bounds(s: Seq<u8>, i: int)
    requires
        0 <= i <= s.len(),
    ensures
        i <= point_from(s, i) <= s.len(),
    decreases s.len() - i,
{
    if i < s.len() && s[i] != 46 {
        lemma_point_bounds(s, i + 1);
    }
}

/// Every decimal that the parser reads is exact.
pub proof fn lemma_literal_is_exact(s: Seq<u8>)
    requires
        decimal_literal(s) is Some,
    ensures
        exact(decimal_literal(s).unwrap()),
{
    let p = point_from(s, 0);
    lemma_point_bounds(s, 0);
    if p < s.len() {
        let tail = s.subrange(p + 1, s.len() as int);
        lemma_value_bound(tail);
    }
}

impl Decimal {
    /// The whole number `units`.
    pub fn whole(units: u32) -> (r: Decimal)
        ensures
            r == (Decimal { units, fraction: 0, fraction_digits: 0 }),
            exact(r),
    {
        Decimal { units, fraction: 0, fraction_digits: 0 }
    }
}

/// Reads a decimal literal: digits, optionally followed by a point and more
/// digits. No sign, no exponent.
pub fn parse_decimal(s: &[u8]) -> (r: Option<Decimal>)
    ensures
        r == decimal_literal(s@),
        r matches Some(d) ==> exact(d),
{
    let n: usize = s.len();
    proof {
        if decimal_literal(s@) is Some {
            lemma_literal_is_exact(s@);
        }
    }
    let mut p: usize = 0;
    while p < n && s[p] != 46
        invariant
            n == s@.len(),
            p <= n,
            point_from(s@, 0) == point_from(s@, p as int),
        decreases n - p,
    {
        p = p + 1;
    }
    if p >= n {
        match parse_u32(s) {
            Some(units) => Some(Decimal::whole(units)),
            None => None,
        }
    } else {
        let before = copy_range(s, 0, p);
        let after = copy_range(s, p + 1, n);
        match (parse_u32(before.as_slice()), parse_u32(after.as_slice())) {
            (Some(units), Some(fraction)) => Some(
                Decimal { units, fraction, fraction_digits: n - p - 1 },
            ),
            _ => None,
        }
    }
}

} // verus!
