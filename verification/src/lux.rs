//! Light levels, and the order in which they stand.
//!
//! A level is an IEEE 754 double, carried as its bit pattern. The order of
//! levels is a matter of the patterns alone; what a pattern is worth as a
//! number is stated by [`Lux::scaled`].

use vstd::prelude::*;

verus! {

/// The weight of the sign bit.
pub const SIGN: u64 = 0x8000_0000_0000_0000;

/// The pattern of positive infinity. Patterns above it, the sign bit left
/// out, are not numbers.
pub const INFINITY: u64 = 0x7ff0_0000_0000_0000;

/// The weight of the lowest exponent bit.
pub const FRACTION: u64 = 0x0010_0000_0000_0000;

/// A light level in lux, as the bit pattern of a double.
#[derive(Clone, Copy, Debug, PartialEq, Eq, Structural)]
pub struct Lux {
    pub bits: u64,
}

/// The number that a pattern without sign is worth, in units of the smallest
/// positive double.
pub open spec fn magnitude_value(magnitude: nat) -> nat {
    let exponent = magnitude / FRACTION as nat;
    let fraction = magnitude % FRACTION as nat;
    if exponent == 0 {
        fraction
    } else {
        (FRACTION as nat + fraction) * vstd::arithmetic::power2::pow2((exponent - 1) as nat)
    }
}

impl Lux {
    pub open spec fn is_negative(self) -> bool {
        self.bits >= SIGN
    }

    /// The pattern without the sign bit.
    pub open spec fn magnitude(self) -> nat {
        if self.is_negative() {
            (self.bits - SIGN) as nat
        } else {
            self.bits as nat
        }
    }

    pub open spec fn is_nan(self) -> bool {
        self.magnitude() > INFINITY
    }

    pub open spec fn is_finite(self) -> bool {
        self.magnitude() < INFINITY
    }

    /// The place of a number among numbers. Both zeros have the same place.
    pub open spec fn rank(self) -> int {
        if self.is_negative() {
            -(self.magnitude() as int)
        } else {
            self.magnitude() as int
        }
    }

    /// The place of a pattern among all patterns, numbers or not.
    pub open spec fn total_rank(self) -> int {
        if self.is_negative() {
            -1 - self.magnitude()
        } else {
            self.magnitude() as int
        }
    }

    /// The number in units of the smallest positive double.
    pub open spec fn scaled(self) -> int {
        if self.is_negative() {
            -(magnitude_value(self.magnitude()) as int)
        } else {
            magnitude_value(self.magnitude()) as int
        }
    }

    /// Whether the level is a number that is at most `other`.
    pub open spec fn le(self, other: Lux) -> bool {
        !self.is_nan() && !other.is_nan() && self.rank() <= other.rank()
    }

    /// Whether the level can be a reading: finite and not below zero.
    pub open spec fn is_reading(self) -> bool {
        self.is_finite() && self.rank() >= 0
    }

    fn unsigned(self) -> (r: u64)
        ensures
            r == self.magnitude(),
    {
        if self.bits >= SIGN {
            self.bits - SIGN
        } else {
            self.bits
        }
    }

    /// Whether the level is a number that is at most `other`.
    pub fn at_most(self, other: Lux) -> (r: bool)
        ensures
            r == self.le(other),
    {
        let a: u64 = self.unsigned();
        let b: u64 = other.unsigned();
        if a > INFINITY || b > INFINITY {
            false
        } else if self.bits >= SIGN {
            other.bits < SIGN || b <= a
        } else if other.bits >= SIGN {
            a == 0 && b == 0
        } else {
            a <= b
        }
    }

    /// Whether the level is finite and not below zero.
    pub fn is_valid_reading(self) -> (r: bool)
        ensures
            r == self.is_reading(),
            r <==> self.bits < 0x7ff0_0000_0000_0000 || self.bits == 0x8000_0000_0000_0000,
    {
        let a: u64 = self.unsigned();
        a < INFINITY && (self.bits < SIGN || a == 0)
    }

    /// Whether the pattern comes before that of `other` among all patterns.
    pub fn comes_before(self, other: Lux) -> (r: bool)
        ensures
            r == (self.total_rank() < other.total_rank()),
    {
        if self.bits >= SIGN {
            other.bits < SIGN || other.bits < self.bits
        } else {
            other.bits < SIGN && self.bits < other.bits
        }
    }
}

/// A pattern is known by its place among all patterns.
pub proof fn total_rank_is_injective(a: Lux, b: Lux)
    ensures
        a.total_rank() == b.total_rank() <==> a == b,
{
}

/// Of two patterns without sign the greater is worth more.
proof fn magnitude_value_is_monotonic(a: nat, b: nat)
    requires
        a < b,
    ensures
        magnitude_value(a) < magnitude_value(b),
{
    let unit = FRACTION as nat;
    let ea = a / unit;
    let eb = b / unit;
    let fa = a % unit;
    let fb = b % unit;
    assert(a == ea * unit + fa && b == eb * unit + fb && fa < unit && fb < unit) by {
        vstd::arithmetic::div_mod::lemma_fundamental_div_mod(a as int, unit as int);
        vstd::arithmetic::div_mod::lemma_fundamental_div_mod(b as int, unit as int);
        assert(ea * unit == unit * ea && eb * unit == unit * eb) by (nonlinear_arith);
    }
    assert(ea <= eb) by (nonlinear_arith)
        requires
            a == ea * unit + fa,
            b == eb * unit + fb,
            fa < unit,
            fb < unit,
            a < b,
    ;
    if ea == eb {
        assert(fa < fb);
        if ea > 0 {
            let p = vstd::arithmetic::power2::pow2((ea - 1) as nat);
            vstd::arithmetic::power2::lemma_pow2_pos((ea - 1) as nat);
            assert((unit + fa) * p < (unit + fb) * p) by (nonlinear_arith)
                requires
                    fa < fb,
                    p > 0,
            ;
        }
    } else {
        let q = vstd::arithmetic::power2::pow2((eb - 1) as nat);
        vstd::arithmetic::power2::lemma_pow2_pos((eb - 1) as nat);
        assert(unit * q <= (unit + fb) * q) by (nonlinear_arith)
            requires
                fb >= 0,
                q > 0,
        ;
        if ea == 0 {
            assert(unit <= unit * q) by (nonlinear_arith)
                requires
                    q > 0,
            ;
        } else {
            let p = vstd::arithmetic::power2::pow2((ea - 1) as nat);
            vstd::arithmetic::power2::lemma_pow2_pos((ea - 1) as nat);
            vstd::arithmetic::power2::lemma_pow2_unfold(ea);
            assert(vstd::arithmetic::power2::pow2(ea) == 2 * p);
            if ea < eb - 1 {
                vstd::arithmetic::power2::lemma_pow2_strictly_increases(ea, (eb - 1) as nat);
            }
            assert(2 * p <= q);
            assert((unit + fa) * p < unit * q) by (nonlinear_arith)
                requires
                    fa < unit,
                    p > 0,
                    2 * p <= q,
            ;
        }
    }
}

/// The order of levels is the order of the numbers that they are.
pub proof fn order_is_numeric(a: Lux, b: Lux)
    requires
        a.is_finite(),
        b.is_finite(),
    ensures
        a.le(b) <==> a.scaled() <= b.scaled(),
{
    let m = a.magnitude();
    let n = b.magnitude();
    if m < n {
        magnitude_value_is_monotonic(m, n);
    } else if n < m {
        magnitude_value_is_monotonic(n, m);
    }
    if m > 0 {
        magnitude_value_is_monotonic(0, m);
    }
    if n > 0 {
        magnitude_value_is_monotonic(0, n);
    }
    assert(magnitude_value(0) == 0);
}

/// What the bit patterns of levels say. Patterns up to that of positive infinity
/// stand for numbers in the order of the patterns, and patterns from that of minus
/// zero up to that of negative infinity for their negatives; no other pattern is a
/// number. A reading is finite and not below zero. In the order of all patterns
/// the negative ones come first, the largest of them ahead.
pub proof fn levels_by_pattern(a: Lux, b: Lux)
    ensures
        a.is_reading() <==> a.bits < 0x7ff0_0000_0000_0000 || a.bits == 0x8000_0000_0000_0000,
        a.is_nan() <==> 0x7ff0_0000_0000_0000 < a.bits < 0x8000_0000_0000_0000 || a.bits
            > 0xfff0_0000_0000_0000,
        a.bits <= 0x7ff0_0000_0000_0000 && b.bits <= 0x7ff0_0000_0000_0000 ==> (a.le(b)
            <==> a.bits <= b.bits),
        a.bits <= 0x7ff0_0000_0000_0000 && 0x8000_0000_0000_0000 <= b.bits
            <= 0xfff0_0000_0000_0000 ==> b.le(a) && (a.le(b) <==> a.bits == 0 && b.bits
            == 0x8000_0000_0000_0000),
        0x8000_0000_0000_0000 <= a.bits <= 0xfff0_0000_0000_0000 && 0x8000_0000_0000_0000 <= b.bits
            <= 0xfff0_0000_0000_0000 ==> (a.le(b) <==> b.bits <= a.bits),
        a.is_nan() ==> !a.le(b) && !b.le(a),
        a.bits < 0x8000_0000_0000_0000 && b.bits < 0x8000_0000_0000_0000 ==> (a.total_rank()
            < b.total_rank() <==> a.bits < b.bits),
        a.bits < 0x8000_0000_0000_0000 && b.bits >= 0x8000_0000_0000_0000 ==> b.total_rank()
            < a.total_rank(),
        a.bits >= 0x8000_0000_0000_0000 && b.bits >= 0x8000_0000_0000_0000 ==> (a.total_rank()
            < b.total_rank() <==> b.bits < a.bits),
{
}

} // verus!
