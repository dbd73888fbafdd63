//! The pixel-text codec: seven characters per pixel, one marker character
//! followed by two hex digits for each of red, green and blue.

use vstd::prelude::*;
use crate::error::DmiError;

verus! {

/// Characters per pixel in pixel text.
pub const GROUP_LEN: usize = 7;

/// The value of a hex digit (`0`-`9` are bytes 48 to 57, `a`-`f` 97 to 102,
/// `A`-`F` 65 to 70), or `None` for any other byte.
pub open spec fn hex_value(b: u8) -> Option<u8> {
    if 48u8 <= b && b <= 57u8 {
        Some((b - 48u8) as u8)
    } else if 97u8 <= b && b <= 102u8 {
        Some((b - 97u8 + 10) as u8)
    } else if 65u8 <= b && b <= 70u8 {
        Some((b - 65u8 + 10) as u8)
    } else {
        None
    }
}

/// Whether the group that starts at `start` holds six hex digits after its
/// marker character.
pub open spec fn group_ok(text: Seq<u8>, start: int) -> bool {
    forall|k: int| 1 <= k < 7 ==> (#[trigger] hex_value(text[start + k])) is Some
}

/// The byte that two hex digits spell, high digit first.
pub open spec fn hex_pair(hi: u8, lo: u8) -> u8
    recommends
        hex_value(hi) is Some,
        hex_value(lo) is Some,
{
    (hex_value(hi).unwrap() * 16 + hex_value(lo).unwrap()) as u8
}

/// Byte `j` of the decoded buffer: channel `j % 3` of pixel `j / 3`.
pub open spec fn channel_at(text: Seq<u8>, j: int) -> u8 {
    let at = (j / 3) * 7 + 1 + 2 * (j % 3);
    hex_pair(text[at], text[at + 1])
}

/// The RGB buffer that well-formed pixel text stands for.
pub open spec fn decoded(text: Seq<u8>) -> Seq<u8> {
    Seq::new((3 * (text.len() / 7)) as nat, |j: int| channel_at(text, j))
}

/// The start of the first group that is not six hex digits after its marker,
/// looking at the groups that start at `start` or later; `None` if all are.
pub open spec fn first_bad_group(text: Seq<u8>, start: int) -> Option<int>
    decreases text.len() - start,
{
    if start < 0 || start + 7 > text.len() {
        None
    } else if !group_ok(text, start) {
        Some(start)
    } else {
        first_bad_group(text, start + 7)
    }
}

/// What decoding `text` gives: the buffer, or the offset that the error
/// reports.
pub open spec fn decode_outcome(text: Seq<u8>) -> Result<Seq<u8>, int> {
    if text.len() % 7 != 0 {
        Err(text.len() as int)
    } else {
        match first_bad_group(text, 0) {
            Some(at) => Err(at),
            None => Ok(decoded(text)),
        }
    }
}

/// Reads one hex digit.
pub fn hex_digit(b: u8) -> (r: Option<u8>)
    ensures
        r == hex_value(b),
        r matches Some(v) ==> v < 16,
{
    if 48u8 <= b && b <= 57u8 {
        Some(b - 48u8)
    } else if 97u8 <= b && b <= 102u8 {
        Some(b - 97u8 + 10)
    } else if 65u8 <= b && b <= 70u8 {
        Some(b - 65u8 + 10)
    } else {
        None
    }
}

/// Decodes pixel text into a flat RGB buffer, three bytes per group.
///
/// Fails if the length is not a multiple of seven, or at the first group
/// that holds something other than hex digits after its marker.
pub fn decode_pixels(text: &[u8]) -> (r: Result<Vec<u8>, DmiError>)
    ensures
        match r {
            Ok(bytes) => decode_outcome(text@) == Ok::<Seq<u8>, int>(bytes@),
            Err(e) => e matches DmiError::InvalidPixelData { offset }
                && decode_outcome(text@) == Err::<Seq<u8>, int>(offset as int),
        },
        text@.len() % 7 == 0 && r is Ok ==> r.unwrap()@.len() == 3 * text@.len() / 7,
        text@.len() % 7 != 0 ==> r is Err,
{
    let n: usize = text.len();
    if n % GROUP_LEN != 0 {
        return Err(DmiError::InvalidPixelData { offset: n });
    }
    let mut out: Vec<u8> = Vec::new();
    let mut start: usize = 0;
    while start < n
        invariant
            n == text@.len(),
            n % 7 == 0,
            start % 7 == 0,
            start <= n,
            first_bad_group(text@, 0) == first_bad_group(text@, start as int),
            out@.len() == 3 * (start / 7),
            forall|j: int| 0 <= j < out@.len() ==> out@[j] == channel_at(text@, j),
        decreases n - start,
    {
        let mut k: usize = 0;
        while k < 3
            invariant
                n == text@.len(),
                start % 7 == 0,
                start + 7 <= n,
                k <= 3,
                n % 7 == 0,
                first_bad_group(text@, 0) == first_bad_group(text@, start as int),
                out@.len() == 3 * (start / 7) + k,
                forall|j: int| 0 <= j < out@.len() ==> out@[j] == channel_at(text@, j),
                forall|m: int| 1 <= m < 1 + 2 * k ==> (#[trigger] hex_value(text@[start + m])) is Some,
            decreases 3 - k,
        {
            let at: usize = start + 1 + 2 * k;
            let hi = hex_digit(text[at]);
            let lo = hex_digit(text[at + 1]);
            match (hi, lo) {
                (Some(h), Some(l)) => {
                    proof {
                        let j = out@.len() as int;
                        assert(j / 3 == start / 7 && j % 3 == k) by (nonlinear_arith)
                            requires
                                j == 3 * (start / 7) + k,
                                0 <= k < 3,
                        ;
                        assert((j / 3) * 7 == start) by (nonlinear_arith)
                            requires
                                j / 3 == start / 7,
                                start % 7 == 0,
                        ;
                    }
                    out.push(h * 16 + l);
                },
                _ => {
                    proof {
                        assert(hex_value(text@[start + (1 + 2 * k)]) is None || hex_value(
                            text@[start + (2 + 2 * k)],
                        ) is None);
                        assert(!group_ok(text@, start as int));
                        assert(first_bad_group(text@, start as int) == Some(start as int));
                    }
                    return Err(DmiError::InvalidPixelData { offset: start });
                },
            }
            assert forall|m: int| 1 <= m < 1 + 2 * (k + 1) implies (#[trigger] hex_value(
                text@[start + m],
            )) is Some by {
                if m == 1 + 2 * k {
                } else if m == 2 + 2 * k {
                }
            }
            k = k + 1;
        }
        assert(group_ok(text@, start as int));
        proof {
            assert(3 * ((start + 7) / 7) == 3 * (start / 7) + 3) by (nonlinear_arith)
                requires
                    start % 7 == 0,
            ;
        }
        start = start + GROUP_LEN;
    }
    proof {
        assert(out@.len() == 3 * (n / 7));
        assert(out@ =~= decoded(text@));
        assert(3 * (n / 7) == 3 * n / 7) by (nonlinear_arith)
            requires
                n % 7 == 0,
        ;
    }
    Ok(out)
}

} // verus!
