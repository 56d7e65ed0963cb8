//! Ranks of doubles.
//!
//! A double is handed over as its 64-bit pattern: a sign bit, eleven bits of
//! exponent, fifty-two bits of fraction. Its rank is the pattern without the
//! sign bit, negated where the sign bit is set. Ranks then run in the order
//! of the reals that the patterns stand for, both zeros share rank 0, and
//! the two infinities take the least and the greatest rank there is.

use vstd::prelude::*;
use vstd::arithmetic::power2::{
    lemma_pow2_pos,
    lemma_pow2_strictly_increases,
    lemma_pow2_unfold,
    pow2,
};

verus! {

/// The sign bit.
pub const SIGN: u64 = 0x8000_0000_0000_0000;

/// The pattern of positive infinity: every exponent bit, no fraction bit.
pub const INFINITE: u64 = 0x7ff0_0000_0000_0000;

/// Two to the number of fraction bits.
pub const FRACTION: u64 = 0x0010_0000_0000_0000;

/// The pattern without its sign bit.
pub open spec fn magnitude(bits: u64) -> u64 {
    if bits >= SIGN {
        (bits - SIGN) as u64
    } else {
        bits
    }
}

/// Whether the pattern stands for a real or an infinity.
pub open spec fn is_number(bits: u64) -> bool {
    magnitude(bits) <= INFINITE
}

/// Whether the pattern stands for a real.
pub open spec fn is_finite(bits: u64) -> bool {
    magnitude(bits) < INFINITE
}

/// Whether `k` is the rank of some pattern.
pub open spec fn is_rank(k: i64) -> bool {
    k == i64::MIN || k == i64::MAX || -INFINITE < k < INFINITE
}

pub open spec fn spec_from_bits(bits: u64) -> Option<i64> {
    if magnitude(bits) > INFINITE {
        None
    } else if magnitude(bits) == INFINITE {
        Some(
            if bits >= SIGN {
                i64::MIN
            } else {
                i64::MAX
            },
        )
    } else if bits >= SIGN {
        Some((-magnitude(bits)) as i64)
    } else {
        Some(magnitude(bits) as i64)
    }
}

pub open spec fn spec_to_bits(k: i64) -> Option<u64> {
    if k == i64::MAX {
        Some(INFINITE)
    } else if k == i64::MIN {
        Some((SIGN + INFINITE) as u64)
    } else if 0 <= k < INFINITE {
        Some(k as u64)
    } else if -INFINITE < k < 0 {
        Some((SIGN - k) as u64)
    } else {
        None
    }
}

/// What a pattern without sign stands for, times two to the 1074th, which
/// makes it a whole number: the fraction alone where the exponent is zero,
/// else the fraction with a leading one, doubled once for each step of the
/// exponent above one.
pub open spec fn scaled_magnitude(m: u64) -> int {
    let exponent = m / FRACTION;
    let fraction = m % FRACTION;
    if exponent == 0 {
        fraction as int
    } else {
        (FRACTION + fraction) * pow2((exponent - 1) as nat)
    }
}

/// What a finite pattern stands for, times two to the 1074th.
pub open spec fn scaled_value(bits: u64) -> int {
    if bits >= SIGN {
        -scaled_magnitude(magnitude(bits))
    } else {
        scaled_magnitude(magnitude(bits))
    }
}

/// The rank of the double with the pattern `bits`, or none where the
/// pattern is not a number.
pub fn from_bits(bits: u64) -> (k: Option<i64>)
    ensures
        k == spec_from_bits(bits),
        k is None <==> !is_number(bits),
        k matches Some(r) ==> is_rank(r),
        k matches Some(r) ==> (is_finite(bits) <==> i64::MIN < r < i64::MAX),
{
    let negative = bits >= SIGN;
    let magnitude = if negative { bits - SIGN } else { bits };
    if magnitude > INFINITE {
        None
    } else if magnitude == INFINITE {
        Some(if negative { i64::MIN } else { i64::MAX })
    } else if negative {
        Some(-(magnitude as i64))
    } else {
        Some(magnitude as i64)
    }
}

/// The pattern of the double with rank `k`, or none where `k` is the rank
/// of nothing. Rank 0 gives the zero without sign.
pub fn to_bits(k: i64) -> (bits: Option<u64>)
    ensures
        bits == spec_to_bits(k),
        bits is None <==> !is_rank(k),
        bits matches Some(b) ==> spec_from_bits(b) == Some(k),
{
    if k == i64::MAX {
        Some(INFINITE)
    } else if k == i64::MIN {
        Some(SIGN + INFINITE)
    } else if 0 <= k && k < INFINITE as i64 {
        Some(k as u64)
    } else if -(INFINITE as i64) < k && k < 0 {
        Some(SIGN + ((-k) as u64))
    } else {
        None
    }
}

/// A pattern comes back from its rank as it was, but for the zero with the
/// sign bit, which comes back without it.
pub proof fn lemma_round_trip(bits: u64)
    requires
        is_number(bits),
    ensures
        spec_to_bits(spec_from_bits(bits).unwrap()) == Some(
            if bits == SIGN {
                0
            } else {
                bits
            },
        ),
{
}

/// Without sign, a greater pattern stands for a greater real.
pub proof fn lemma_magnitudes_in_order(a: u64, b: u64)
    requires
        a < b,
    ensures
        0 <= scaled_magnitude(a) < scaled_magnitude(b),
{
    let ea = a / FRACTION;
    let fa = a % FRACTION;
    let eb = b / FRACTION;
    let fb = b % FRACTION;
    if ea == eb {
        if ea > 0 {
            let p = pow2((ea - 1) as nat);
            lemma_pow2_pos((ea - 1) as nat);
            assert((FRACTION + fa) * p < (FRACTION + fb) * p) by (nonlinear_arith)
                requires
                    fa < fb,
                    p > 0,
            ;
            assert(0 <= (FRACTION + fa) * p) by (nonlinear_arith)
                requires
                    fa >= 0,
                    p > 0,
            ;
        }
    } else {
        assert(ea < eb);
        let top = FRACTION * pow2(ea as nat);
        let pb = pow2((eb - 1) as nat);
        lemma_pow2_pos(ea as nat);
        lemma_pow2_pos((eb - 1) as nat);
        if ea == 0 {
            assert(pow2(0) == 1) by {
                lemma_pow2_unfold(1);
                vstd::arithmetic::power2::lemma2_to64();
            }
            assert(scaled_magnitude(a) < top);
        } else {
            let pa = pow2((ea - 1) as nat);
            lemma_pow2_pos((ea - 1) as nat);
            lemma_pow2_unfold(ea as nat);
            assert(pow2(ea as nat) == 2 * pa);
            assert((FRACTION + fa) * pa < FRACTION * (2 * pa)) by (nonlinear_arith)
                requires
                    0 <= fa < FRACTION,
                    pa > 0,
            ;
            assert(0 <= (FRACTION + fa) * pa) by (nonlinear_arith)
                requires
                    fa >= 0,
                    pa > 0,
            ;
        }
        if ea < eb - 1 {
            lemma_pow2_strictly_increases(ea as nat, (eb - 1) as nat);
        }
        assert(top <= (FRACTION + fb) * pb) by (nonlinear_arith)
            requires
                top == FRACTION * pow2(ea as nat),
                pow2(ea as nat) <= pb,
                fb >= 0,
                pb > 0,
        ;
    }
}

/// Ranks order the finite doubles as their values do: the rank of one is
/// below, at or above the rank of another exactly where its value is.
pub proof fn lemma_ranks_in_order(a: u64, b: u64)
    requires
        is_finite(a),
        is_finite(b),
    ensures
        spec_from_bits(a).unwrap() < spec_from_bits(b).unwrap() <==> scaled_value(a) < scaled_value(
            b,
        ),
        spec_from_bits(a).unwrap() == spec_from_bits(b).unwrap() <==> scaled_value(a)
            == scaled_value(b),
{
    let ma = magnitude(a);
    let mb = magnitude(b);
    if ma < mb {
        lemma_magnitudes_in_order(ma, mb);
    } else if mb < ma {
        lemma_magnitudes_in_order(mb, ma);
    }
    if ma > 0 {
        lemma_magnitudes_in_order(0, ma);
    }
    if mb > 0 {
        lemma_magnitudes_in_order(0, mb);
    }
    assert(scaled_magnitude(0) == 0);
}

} // verus!
