//! Numeric labels of volumes and chapters.
//!
//! A label is a finite number in IEEE 754 single precision. The library never
//! computes with such a number: it holds the bit pattern and orders labels by
//! an integer key that rises and falls with the number.

use vstd::arithmetic::power2::{
    lemma_pow2_pos, lemma_pow2_strictly_increases, lemma_pow2_unfold, pow2,
};
use vstd::prelude::*;

verus! {

/// The bit that holds the sign.
pub const SIGN_BIT: u32 = 0x8000_0000;

/// The magnitude bits of the two infinities; every greater magnitude is not a number.
pub const INFINITE_MAGNITUDE: u32 = 0x7F80_0000;

/// The bit pattern without its sign bit.
pub open spec fn magnitude(bits: u32) -> int {
    if bits >= SIGN_BIT {
        bits - SIGN_BIT
    } else {
        bits as int
    }
}

/// The bit pattern stands for a finite number: neither an infinity nor not a number.
pub open spec fn is_finite_bits(bits: u32) -> bool {
    magnitude(bits) < INFINITE_MAGNITUDE
}

/// The integer by which a bit pattern is ordered: the magnitude, negated
/// where the sign bit is set. Both zeros have the key zero.
pub open spec fn order_key(bits: u32) -> int {
    if bits >= SIGN_BIT {
        -magnitude(bits)
    } else {
        magnitude(bits)
    }
}

/// The number of bit patterns with one exponent: two to the power of 23.
pub const FRACTIONS: u32 = 0x80_0000;

/// The absolute value of the number with the magnitude bits `m`, counted
/// in units of two to the power of -149, the smallest positive number of
/// the format. With the exponent field zero the fraction counts as it
/// stands; else the fraction, with the hidden bit before it, is doubled
/// once for each step of the exponent above one.
pub open spec fn scale(m: int) -> int {
    if m / (FRACTIONS as int) == 0 {
        m % (FRACTIONS as int)
    } else {
        (FRACTIONS + m % (FRACTIONS as int)) * pow2((m / (FRACTIONS as int) - 1) as nat)
    }
}

/// The number that a finite bit pattern stands for, counted in units of two
/// to the power of -149.
pub open spec fn scaled_value(bits: u32) -> int {
    if bits >= SIGN_BIT {
        -scale(magnitude(bits))
    } else {
        scale(magnitude(bits))
    }
}

/// Greater magnitude bits stand for a greater absolute value.
pub proof fn lemma_scale_rises(low: int, high: int)
    requires
        0 <= low < high,
    ensures
        0 <= scale(low) < scale(high),
{
    let k = FRACTIONS as int;
    let (el, fl) = (low / k, low % k);
    let (eh, fh) = (high / k, high % k);
    assert(el <= eh);
    assert(0 <= fl < k && 0 <= fh < k);
    if el > 0 {
        lemma_pow2_pos((el - 1) as nat);
        let p = pow2((el - 1) as nat) as int;
        assert(0 <= (k + fl) * p) by (nonlinear_arith)
            requires
                0 <= fl,
                k > 0,
                p > 0,
        ;
    }
    if el == eh {
        assert(fl < fh);
        if el > 0 {
            let p = pow2((el - 1) as nat) as int;
            assert((k + fl) * p < (k + fh) * p) by (nonlinear_arith)
                requires
                    fl < fh,
                    p > 0,
            ;
        }
    } else {
        lemma_pow2_pos((eh - 1) as nat);
        let ph = pow2((eh - 1) as nat) as int;
        assert(k * ph <= (k + fh) * ph) by (nonlinear_arith)
            requires
                0 <= fh,
                ph > 0,
        ;
        if el == 0 {
            assert(k <= k * ph) by (nonlinear_arith)
                requires
                    k > 0,
                    ph >= 1,
            ;
        } else {
            let pl = pow2((el - 1) as nat) as int;
            lemma_pow2_unfold(el as nat);
            if el < eh - 1 {
                lemma_pow2_strictly_increases(el as nat, (eh - 1) as nat);
            }
            assert(2 * pl <= ph);
            assert((k + fl) * pl < k * ph) by (nonlinear_arith)
                requires
                    0 <= fl < k,
                    pl > 0,
                    2 * pl <= ph,
            ;
        }
    }
}

/// The keys of two bit patterns stand to each other as the numbers do that
/// the patterns stand for: the key is smaller where the number is smaller,
/// and equal where the number is equal.
pub proof fn lemma_key_orders_as_number(a: u32, b: u32)
    ensures
        order_key(a) < order_key(b) <==> scaled_value(a) < scaled_value(b),
        order_key(a) == order_key(b) <==> scaled_value(a) == scaled_value(b),
{
    let (ma, mb) = (magnitude(a), magnitude(b));
    assert(scale(0) == 0);
    if ma < mb {
        lemma_scale_rises(ma, mb);
    } else if mb < ma {
        lemma_scale_rises(mb, ma);
    }
    if 0 < ma {
        lemma_scale_rises(0, ma);
    }
    if 0 < mb {
        lemma_scale_rises(0, mb);
    }
}

/// The rank that an absent label has: below the key of every label.
pub const ABSENT_RANK: i32 = -0x8000_0000;

/// The finite numeric label of a volume or a chapter.
#[derive(Clone, Copy, Debug)]
pub struct Label {
    bits: u32,
}

impl View for Label {
    type V = int;

    /// The key by which labels are ordered and compared.
    closed spec fn view(&self) -> int {
        order_key(self.bits)
    }
}

impl Label {
    #[verifier::type_invariant]
    spec fn finite(self) -> bool {
        is_finite_bits(self.bits)
    }

    /// The bit pattern that the label was made from.
    pub closed spec fn spec_bits(self) -> u32 {
        self.bits
    }

    /// The label with the given bit pattern, if the pattern stands for a
    /// finite number.
    pub fn from_bits(bits: u32) -> (label: Option<Label>)
        ensures
            label is Some <==> is_finite_bits(bits),
            label matches Some(l) ==> l.spec_bits() == bits && l@ == order_key(bits),
    {
        let magnitude = if bits >= SIGN_BIT {
            bits - SIGN_BIT
        } else {
            bits
        };
        if magnitude < INFINITE_MAGNITUDE {
            Some(Label { bits })
        } else {
            None
        }
    }

    /// The bit pattern that the label was made from.
    pub fn to_bits(&self) -> (bits: u32)
        ensures
            bits == self.spec_bits(),
            is_finite_bits(bits),
            order_key(bits) == self@,
    {
        proof {
            use_type_invariant(self);
        }
        self.bits
    }

    /// The key by which labels are ordered and compared: it is smaller,
    /// equal or greater as the number is.
    pub fn key(&self) -> (key: i32)
        ensures
            key == self@,
            -(INFINITE_MAGNITUDE as int) < key < INFINITE_MAGNITUDE,
    {
        proof {
            use_type_invariant(self);
        }
        if self.bits >= SIGN_BIT {
            let magnitude = self.bits - SIGN_BIT;
            -(magnitude as i32)
        } else {
            self.bits as i32
        }
    }
}

/// The rank by which an optional label is ordered: an absent label ranks
/// below every label, labels rank by their keys.
pub open spec fn rank(label: Option<Label>) -> int {
    match label {
        Some(l) => l@,
        None => ABSENT_RANK as int,
    }
}

/// The key of every label lies above the rank of an absent one.
pub proof fn lemma_key_above_absent(label: Label)
    ensures
        (ABSENT_RANK as int) < label@ < -(ABSENT_RANK as int),
{
}

/// The rank of an optional label.
pub fn rank_of(label: &Option<Label>) -> (r: i32)
    ensures
        r == rank(*label),
{
    match label {
        Some(l) => l.key(),
        None => ABSENT_RANK,
    }
}

} // verus!
