//! Scoring arithmetic and the high-score codec. The score is a `u32` counter
//! that grows by the colliding obstacle's size rounded to whole pixels and
//! saturates instead of wrapping. The persisted store is the plain decimal
//! ASCII text of the high score; anything else decodes to 0.

use vstd::prelude::*;

use crate::shape::MILLI;
use crate::shape::SIZE_LIMIT;

verus! {

/// Clamps a mathematical sum back into `u32`.
pub open spec fn sat32(v: int) -> int {
    if v > u32::MAX {
        u32::MAX as int
    } else {
        v
    }
}

/// An obstacle's score value: its edge length rounded to the nearest whole
/// pixel (sizes are stored in millipixels).
pub open spec fn spec_score_value(size: int) -> int {
    (size + (MILLI as int) / 2) / (MILLI as int)
}

/// Saturating chains collapse: adding one increment after a saturated sum
/// lands where the whole sum would have landed.
pub proof fn lemma_sat32_chain(base: int, inc: int)
    requires
        0 <= base,
        0 <= inc,
    ensures
        sat32(sat32(base) + inc) == sat32(base + inc),
{
}

/// Rounds an obstacle size to whole pixels, the amount the score grows by
/// when that obstacle is shot.
pub fn score_value(size: i64) -> (r: u32)
    requires
        0 < size <= SIZE_LIMIT,
    ensures
        r == spec_score_value(size as int),
{
    (((size as u64) + (MILLI as u64) / 2) / (MILLI as u64)) as u32
}

/// Adds a collision's value to the score, saturating at `u32::MAX` rather
/// than wrapping.
pub fn add_score(score: u32, inc: u32) -> (r: u32)
    ensures
        r == sat32(score + inc),
{
    if score > u32::MAX - inc {
        u32::MAX
    } else {
        score + inc
    }
}

/// Whether a byte is a decimal digit.
pub open spec fn is_digit(b: u8) -> bool {
    48 <= b <= 57
}

/// Whether every byte of the text is a decimal digit.
pub open spec fn all_digits(s: Seq<u8>) -> bool {
    forall|i: int| 0 <= i < s.len() ==> is_digit(#[trigger] s[i])
}

/// The number a string of digit bytes denotes, most significant first.
pub open spec fn digits_value(s: Seq<u8>) -> int
    decreases s.len(),
{
    if s.len() == 0 {
        0
    } else {
        digits_value(s.drop_last()) * 10 + (s.last() - 48)
    }
}

/// What loading the high-score store yields: the denoted number when the
/// text is pure decimal ASCII that fits a `u32`, and 0 for everything else
/// (empty or missing store, stray bytes, overflow).
pub open spec fn spec_parse_high_score(s: Seq<u8>) -> int {
    if s.len() > 0 && all_digits(s) && digits_value(s) <= u32::MAX {
        digits_value(s)
    } else {
        0
    }
}

/// The decimal ASCII text of a non-negative number: no sign, no padding, no
/// leading zero except for 0 itself.
pub open spec fn spec_format_high_score(n: int) -> Seq<u8>
    decreases n,
{
    if n < 10 {
        seq![(n + 48) as u8]
    } else {
        spec_format_high_score(n / 10).push((n % 10 + 48) as u8)
    }
}

/// A digit string denotes a non-negative number.
pub proof fn lemma_digits_value_nonneg(s: Seq<u8>)
    requires
        all_digits(s),
    ensures
        digits_value(s) >= 0,
    decreases s.len(),
{
    if s.len() > 0 {
        assert(all_digits(s.drop_last())) by {
            assert(forall|i: int|
                0 <= i < s.drop_last().len() ==> s.drop_last()[i] == #[trigger] s[i]);
        }
        lemma_digits_value_nonneg(s.drop_last());
    }
}

/// Extending a digit string by one byte multiplies its value by ten and adds
/// the new digit.
pub proof fn lemma_digits_value_step(s: Seq<u8>, i: int)
    requires
        0 <= i < s.len(),
    ensures
        digits_value(s.subrange(0, i + 1)) == digits_value(s.subrange(0, i)) * 10 + (s[i] - 48),
{
    let t = s.subrange(0, i + 1);
    assert(t.drop_last() =~= s.subrange(0, i));
    assert(t.last() == s[i]);
}

/// A digit string's value only grows as more digits are read: the value of a
/// prefix never exceeds the value of the whole.
pub proof fn lemma_digits_value_prefix_le(s: Seq<u8>, i: int)
    requires
        all_digits(s),
        0 <= i <= s.len(),
    ensures
        digits_value(s.subrange(0, i)) <= digits_value(s),
    decreases s.len() - i,
{
    if i == s.len() {
        assert(s.subrange(0, i) =~= s);
    } else {
        assert(all_digits(s.subrange(0, i))) by {
            assert(forall|k: int|
                0 <= k < s.subrange(0, i).len() ==> s.subrange(0, i)[k] == #[trigger] s[k]);
        }
        lemma_digits_value_nonneg(s.subrange(0, i));
        lemma_digits_value_step(s, i);
        lemma_digits_value_prefix_le(s, i + 1);
    }
}

/// Decodes the high-score store: the denoted number for pure decimal ASCII
/// that fits a `u32`, and 0 for an empty, corrupt or overflowing text.
pub fn parse_high_score(data: &Vec<u8>) -> (r: u32)
    ensures
        r == spec_parse_high_score(data@),
{
    if data.len() == 0 {
        return 0;
    }
    let mut acc: u32 = 0;
    let mut i: usize = 0;
    while i < data.len()
        invariant
            0 <= i <= data@.len(),
            all_digits(data@.subrange(0, i as int)),
            acc == digits_value(data@.subrange(0, i as int)),
        decreases data@.len() - i,
    {
        let b = data[i];
        if b < 48 || b > 57 {
            assert(!all_digits(data@));
            return 0;
        }
        let next: u64 = (acc as u64) * 10 + ((b - 48) as u64);
        proof {
            lemma_digits_value_step(data@, i as int);
        }
        if next > u32::MAX as u64 {
            proof {
                if all_digits(data@) {
                    lemma_digits_value_prefix_le(data@, i as int + 1);
                    assert(digits_value(data@) > u32::MAX);
                }
            }
            return 0;
        }
        acc = next as u32;
        i = i + 1;
    }
    proof {
        assert(data@.subrange(0, i as int) =~= data@);
    }
    acc
}

/// Encodes a high score as plain decimal ASCII, the store's format.
pub fn format_high_score(n: u32) -> (r: Vec<u8>)
    ensures
        r@ == spec_format_high_score(n as int),
    decreases n,
{
    if n < 10 {
        let mut v: Vec<u8> = Vec::new();
        v.push((n as u8) + 48);
        proof {
            assert(v@ =~= spec_format_high_score(n as int));
        }
        v
    } else {
        let mut v = format_high_score(n / 10);
        v.push(((n % 10) as u8) + 48);
        proof {
            assert(v@ =~= spec_format_high_score(n as int));
        }
        v
    }
}

/// The encoded text of any number is pure decimal ASCII denoting that
/// number.
pub proof fn lemma_format_digits(n: int)
    requires
        0 <= n,
    ensures
        all_digits(spec_format_high_score(n)),
        spec_format_high_score(n).len() > 0,
        digits_value(spec_format_high_score(n)) == n,
    decreases n,
{
    if n < 10 {
        let s = spec_format_high_score(n);
        assert(s.len() == 1);
        assert(s.last() == (n + 48) as u8);
        assert(s.drop_last() =~= Seq::<u8>::empty());
        assert(digits_value(Seq::<u8>::empty()) == 0);
        assert(digits_value(s) == digits_value(s.drop_last()) * 10 + (s.last() - 48));
        assert(digits_value(s) == n);
    } else {
        lemma_format_digits(n / 10);
        let s = spec_format_high_score(n);
        let p = spec_format_high_score(n / 10);
        assert(s.drop_last() =~= p);
        assert(digits_value(s) == (n / 10) * 10 + n % 10);
        assert((n / 10) * 10 + n % 10 == n) by (nonlinear_arith);
        assert(forall|i: int| 0 <= i < s.len() - 1 ==> s[i] == #[trigger] p[i]);
        assert(is_digit(s.last()));
    }
}

/// The high-score round trip: the store text written for a score decodes to
/// that same score, for every `u32` value.
pub proof fn lemma_high_score_round_trip(n: u32)
    ensures
        spec_parse_high_score(spec_format_high_score(n as int)) == n,
{
    lemma_format_digits(n as int);
}

} // verus!
