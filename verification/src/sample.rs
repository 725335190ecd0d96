//! Samples as IEEE 754 single precision bit patterns.
//!
//! The sign is the top bit, and for numbers the rest orders as the magnitude
//! does: infinity has the pattern `0x7f80_0000`, and what lies above is not a
//! number. That is all that silence, comparison of magnitudes and limiting
//! need, so these are exact here without any floating point.

use vstd::prelude::*;

verus! {

/// Positive zero.
pub const SILENCE: u32 = 0;

/// One.
pub const UNITY: u32 = 0x3f80_0000;

/// Weight of the sign bit.
pub const SIGN: u32 = 0x8000_0000;

/// Positive infinity.
pub const INFINITY: u32 = 0x7f80_0000;

/// The pattern without its sign.
pub open spec fn magnitude(x: u32) -> u32 {
    if x >= SIGN {
        (x - SIGN) as u32
    } else {
        x
    }
}

/// Whether the pattern is not a number.
pub open spec fn is_nan(x: u32) -> bool {
    magnitude(x) > INFINITY
}

/// Whether the pattern is a number other than the infinities.
pub open spec fn is_finite(x: u32) -> bool {
    magnitude(x) < INFINITY
}

/// Whether the pattern is a number below zero (negative zero is not).
pub open spec fn is_below_zero(x: u32) -> bool {
    SIGN < x && !is_nan(x)
}

/// A gain has to be finite and not below zero.
pub open spec fn valid_gain(x: u32) -> bool {
    is_finite(x) && !is_below_zero(x)
}

/// The value limited to the range from minus one to one.
pub open spec fn limited(x: u32) -> u32 {
    if is_nan(x) || magnitude(x) <= UNITY {
        x
    } else if x >= SIGN {
        (SIGN + UNITY) as u32
    } else {
        UNITY
    }
}

/// Largest magnitude among the numbers of `s`, zero where there is none.
pub open spec fn peak_of(s: Seq<u32>) -> u32
    decreases s.len(),
{
    if s.len() == 0 {
        0
    } else {
        let before = peak_of(s.drop_last());
        if !is_nan(s.last()) && magnitude(s.last()) > before {
            magnitude(s.last())
        } else {
            before
        }
    }
}

/// The pattern without its sign.
pub fn abs_bits(x: u32) -> (r: u32)
    ensures
        r == magnitude(x),
{
    if x >= SIGN {
        x - SIGN
    } else {
        x
    }
}

/// Decides whether `x` may serve as a gain.
pub fn gain_is_valid(x: u32) -> (r: bool)
    ensures
        r == valid_gain(x),
{
    x < INFINITY || x == SIGN
}

/// Limits every sample to the range from minus one to one.
pub fn limit(data: Vec<u32>) -> (r: Vec<u32>)
    ensures
        r@ == data@.map_values(|x: u32| limited(x)),
{
    let mut out: Vec<u32> = Vec::with_capacity(data.len());
    let mut i: usize = 0;
    while i < data.len()
        invariant
            i <= data@.len(),
            out@ == data@.take(i as int).map_values(|x: u32| limited(x)),
        decreases data@.len() - i,
    {
        let x: u32 = data[i];
        let m: u32 = abs_bits(x);
        let y: u32 = if m > INFINITY || m <= UNITY {
            x
        } else if x >= SIGN {
            SIGN + UNITY
        } else {
            UNITY
        };
        out.push(y);
        i = i + 1;
        assert(data@.take(i as int) == data@.take(i - 1).push(x));
        assert(out@ =~= data@.take(i as int).map_values(|x: u32| limited(x)));
    }
    assert(data@.take(i as int) == data@);
    out
}

/// Finds the peak of a chunk.
pub fn peak(data: &[u32]) -> (r: u32)
    ensures
        r == peak_of(data@),
{
    let mut best: u32 = 0;
    let mut i: usize = 0;
    while i < data.len()
        invariant
            i <= data@.len(),
            best == peak_of(data@.take(i as int)),
        decreases data@.len() - i,
    {
        let m: u32 = abs_bits(data[i]);
        if m <= INFINITY && m > best {
            best = m;
        }
        i = i + 1;
        assert(data@.take(i as int).drop_last() == data@.take(i - 1));
    }
    assert(data@.take(i as int) == data@);
    best
}

/// The peak is the largest magnitude: no number in the data exceeds it, and it
/// is zero or the magnitude of one of them.
pub proof fn law_peak_is_largest(s: Seq<u32>)
    ensures
        forall|i: int| 0 <= i < s.len() && !is_nan(#[trigger] s[i]) ==> magnitude(s[i]) <= peak_of(s),
        peak_of(s) == 0 || exists|i: int|
            0 <= i < s.len() && !is_nan(#[trigger] s[i]) && magnitude(s[i]) == peak_of(s),
    decreases s.len(),
{
    if s.len() > 0 {
        let front = s.drop_last();
        law_peak_is_largest(front);
        assert forall|i: int| 0 <= i < s.len() && !is_nan(#[trigger] s[i]) implies magnitude(s[i])
            <= peak_of(s) by {
            if i < front.len() {
                assert(front[i] == s[i]);
            }
        }
        if peak_of(s) == peak_of(front) {
            if peak_of(front) != 0 {
                let i = choose|i: int|
                    0 <= i < front.len() && !is_nan(#[trigger] front[i]) && magnitude(front[i])
                        == peak_of(front);
                assert(s[i] == front[i]);
            }
        } else {
            assert(s[s.len() - 1] == s.last());
        }
    }
}

/// Limited samples have a peak of at most one.
pub proof fn law_limited_peak(s: Seq<u32>)
    ensures
        peak_of(s.map_values(|x: u32| limited(x))) <= UNITY,
    decreases s.len(),
{
    let t = s.map_values(|x: u32| limited(x));
    if s.len() > 0 {
        law_limited_peak(s.drop_last());
        assert(t.drop_last() =~= s.drop_last().map_values(|x: u32| limited(x)));
        assert(t.last() == limited(s.last()));
    }
}

/// The peak of silence, of either sign, is zero.
pub proof fn law_silent_peak(s: Seq<u32>)
    requires
        forall|i: int| 0 <= i < s.len() ==> magnitude(#[trigger] s[i]) == 0,
    ensures
        peak_of(s) == 0,
    decreases s.len(),
{
    if s.len() > 0 {
        assert forall|i: int| 0 <= i < s.len() - 1 implies magnitude(
            #[trigger] s.drop_last()[i],
        ) == 0 by {
            assert(s.drop_last()[i] == s[i]);
        }
        law_silent_peak(s.drop_last());
        assert(magnitude(s[s.len() - 1]) == 0);
    }
}

} // verus!
