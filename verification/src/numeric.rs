//! Fixed-width integer semantics: a value tagged with a bit width and a
//! signedness, conversions between such types under the checked, wrapping and
//! saturating policies, and same-type arithmetic under the checked, wrapping,
//! saturating and overflowing policies.
//!
//! The mathematical model is two's complement: a (width, signedness) pair
//! describes the interval of representable integers, and wrapping reduces a
//! mathematical result modulo `2^N` before reinterpreting it in the target
//! signedness.

use vstd::prelude::*;
use vstd::arithmetic::div_mod::lemma_mod_bound;
use vstd::arithmetic::div_mod::lemma_mod_multiples_vanish;
use vstd::arithmetic::div_mod::lemma_mul_mod_noop_general;
use vstd::arithmetic::div_mod::lemma_small_mod;

verus! {

/// Bit width of a fixed-width integer type.
#[derive(Clone, Copy, PartialEq, Eq, Structural, Debug)]
pub enum Width {
    W8,
    W16,
    W32,
    W64,
}

/// `2^N`, where `N` is the number of bits of the width.
pub open spec fn width_modulus(w: Width) -> int {
    match w {
        Width::W8 => 0x100,
        Width::W16 => 0x1_0000,
        Width::W32 => 0x1_0000_0000,
        Width::W64 => 0x1_0000_0000_0000_0000,
    }
}

/// Smallest value representable with the given width and signedness.
pub open spec fn type_min(w: Width, signed: bool) -> int {
    if signed {
        -(width_modulus(w) / 2)
    } else {
        0
    }
}

/// Largest value representable with the given width and signedness.
pub open spec fn type_max(w: Width, signed: bool) -> int {
    if signed {
        width_modulus(w) / 2 - 1
    } else {
        width_modulus(w) - 1
    }
}

/// Whether `v` is exactly representable with the given width and signedness.
pub open spec fn in_range(w: Width, signed: bool, v: int) -> bool {
    type_min(w, signed) <= v <= type_max(w, signed)
}

/// `v` reduced modulo `2^N` and reinterpreted in the target signedness: the
/// result is the unique representable value congruent to `v` modulo `2^N`.
pub open spec fn wrap_value(w: Width, signed: bool, v: int) -> int {
    let m: int = v % width_modulus(w);
    if signed && m > type_max(w, true) {
        m - width_modulus(w)
    } else {
        m
    }
}

/// `v` clamped to the representable range of the given width and signedness.
pub open spec fn clamp_value(w: Width, signed: bool, v: int) -> int {
    if v < type_min(w, signed) {
        type_min(w, signed)
    } else if v > type_max(w, signed) {
        type_max(w, signed)
    } else {
        v
    }
}

/// Runtime value of `width_modulus`.
pub fn width_modulus_exec(w: Width) -> (m: i128)
    ensures
        m == width_modulus(w),
{
    match w {
        Width::W8 => 0x100,
        Width::W16 => 0x1_0000,
        Width::W32 => 0x1_0000_0000,
        Width::W64 => 0x1_0000_0000_0000_0000,
    }
}

/// Runtime value of `type_min`.
pub fn type_min_exec(w: Width, signed: bool) -> (r: i128)
    ensures
        r == type_min(w, signed),
{
    if signed {
        match w {
            Width::W8 => -0x80,
            Width::W16 => -0x8000,
            Width::W32 => -0x8000_0000,
            Width::W64 => -0x8000_0000_0000_0000,
        }
    } else {
        0
    }
}

/// Runtime value of `type_max`.
pub fn type_max_exec(w: Width, signed: bool) -> (r: i128)
    ensures
        r == type_max(w, signed),
{
    if signed {
        match w {
            Width::W8 => 0x7F,
            Width::W16 => 0x7FFF,
            Width::W32 => 0x7FFF_FFFF,
            Width::W64 => 0x7FFF_FFFF_FFFF_FFFF,
        }
    } else {
        match w {
            Width::W8 => 0xFF,
            Width::W16 => 0xFFFF,
            Width::W32 => 0xFFFF_FFFF,
            Width::W64 => 0xFFFF_FFFF_FFFF_FFFF,
        }
    }
}

/// Adding `2^66` to a value does not change its residue modulo `2^N`,
/// because every supported width divides `2^66`.
proof fn lemma_shift_mod(v: int, w: Width)
    ensures
        (v + 0x4_0000_0000_0000_0000) % width_modulus(w) == v % width_modulus(w),
{
    match w {
        Width::W8 => {
            lemma_mod_multiples_vanish(0x4_0000_0000_0000_00, v, 0x100);
        },
        Width::W16 => {
            lemma_mod_multiples_vanish(0x4_0000_0000_0000, v, 0x1_0000);
        },
        Width::W32 => {
            lemma_mod_multiples_vanish(0x4_0000_0000, v, 0x1_0000_0000);
        },
        Width::W64 => {
            lemma_mod_multiples_vanish(4, v, 0x1_0000_0000_0000_0000);
        },
    }
}

/// A wrapped value is always representable in the target type.
pub proof fn lemma_wrap_in_range(w: Width, signed: bool, v: int)
    ensures
        in_range(w, signed, wrap_value(w, signed, v)),
{
    lemma_mod_bound(v, width_modulus(w));
}

/// Wrapping leaves a value unchanged when it is already representable.
pub proof fn lemma_wrap_identity(w: Width, signed: bool, v: int)
    requires
        in_range(w, signed, v),
    ensures
        wrap_value(w, signed, v) == v,
{
    let m: int = width_modulus(w);
    if v >= 0 {
        lemma_small_mod(v as nat, m as nat);
    } else {
        lemma_mod_multiples_vanish(1, v, m);
        lemma_small_mod((v + m) as nat, m as nat);
    }
}

/// Wrapping preserves the residue modulo `2^N`.
pub proof fn lemma_wrap_congruent(w: Width, signed: bool, v: int)
    ensures
        wrap_value(w, signed, v) % width_modulus(w) == v % width_modulus(w),
{
    let m: int = width_modulus(w);
    let m0: int = v % m;
    lemma_mod_bound(v, m);
    lemma_small_mod(m0 as nat, m as nat);
    if signed && m0 > type_max(w, true) {
        lemma_mod_multiples_vanish(-1, m0, m);
    }
}

/// Law: within one width, a wrapping conversion is reversible. Converting a
/// representable value to any signedness interpretation of the same width
/// and wrapping it back to the original type yields the original value.
pub proof fn lemma_wrapping_round_trip(w: Width, s1: bool, s2: bool, v: int)
    requires
        in_range(w, s1, v),
    ensures
        wrap_value(w, s1, wrap_value(w, s2, v)) == v,
{
    lemma_wrap_congruent(w, s2, v);
    lemma_wrap_identity(w, s1, v);
}

/// A fixed-width integer value: a bit width, a signedness, and a value. The
/// invariant `wf` says the value lies in the representable range of that
/// (width, signedness) pair; every operation below preserves it.
#[derive(Clone, Copy, PartialEq, Eq, Structural, Debug)]
pub struct FixedInt {
    pub width: Width,
    pub signed: bool,
    pub value: i128,
}

impl FixedInt {
    /// The value lies in the representable range of its width and signedness.
    pub open spec fn wf(self) -> bool {
        in_range(self.width, self.signed, self.value as int)
    }

    /// Two values share a type when width and signedness agree.
    pub open spec fn same_type(self, other: FixedInt) -> bool {
        self.width == other.width && self.signed == other.signed
    }

    /// Builds a fixed-width value, if and only if `value` is representable
    /// with the given width and signedness.
    pub fn new(width: Width, signed: bool, value: i128) -> (r: Option<FixedInt>)
        ensures
            in_range(width, signed, value as int) ==> r == Some(
                FixedInt { width, signed, value },
            ),
            !in_range(width, signed, value as int) ==> r is None,
    {
        let lo: i128 = type_min_exec(width, signed);
        let hi: i128 = type_max_exec(width, signed);
        if lo <= value && value <= hi {
            Some(FixedInt { width, signed, value })
        } else {
            None
        }
    }

    /// Checked conversion: returns the same value in the target type if and
    /// only if it is exactly representable there, and nothing otherwise.
    pub fn convert_checked(&self, width: Width, signed: bool) -> (r: Option<FixedInt>)
        requires
            self.wf(),
        ensures
            in_range(width, signed, self.value as int) ==> r == Some(
                FixedInt { width, signed, value: self.value },
            ),
            !in_range(width, signed, self.value as int) ==> r is None,
    {
        let lo: i128 = type_min_exec(width, signed);
        let hi: i128 = type_max_exec(width, signed);
        if lo <= self.value && self.value <= hi {
            Some(FixedInt { width, signed, value: self.value })
        } else {
            None
        }
    }

    /// Wrapping conversion: reduces the value modulo `2^N` of the target
    /// width and reinterprets it in the target signedness. Widening a
    /// representable value is the identity (sign extension changes nothing
    /// about the mathematical value); narrowing keeps the low `N` bits.
    pub fn convert_wrapping(&self, width: Width, signed: bool) -> (r: FixedInt)
        requires
            self.wf(),
        ensures
            r.width == width,
            r.signed == signed,
            r.wf(),
            r.value == wrap_value(width, signed, self.value as int),
    {
        let value: i128 = wrap_exec(width, signed, self.value);
        proof {
            lemma_wrap_in_range(width, signed, self.value as int);
        }
        FixedInt { width, signed, value }
    }

    /// Saturating conversion: clamps the value to the target range when it
    /// is out of range, and passes it through unchanged otherwise.
    pub fn convert_saturating(&self, width: Width, signed: bool) -> (r: FixedInt)
        requires
            self.wf(),
        ensures
            r.width == width,
            r.signed == signed,
            r.wf(),
            r.value == clamp_value(width, signed, self.value as int),
    {
        let lo: i128 = type_min_exec(width, signed);
        let hi: i128 = type_max_exec(width, signed);
        let value: i128 = if self.value < lo {
            lo
        } else if self.value > hi {
            hi
        } else {
            self.value
        };
        FixedInt { width, signed, value }
    }
}

impl FixedInt {
    /// Checked addition: returns the exact sum if and only if it is
    /// representable in the shared type, and nothing otherwise.
    pub fn checked_add(&self, other: &FixedInt) -> (r: Option<FixedInt>)
        requires
            self.wf(),
            other.wf(),
            self.same_type(*other),
        ensures
            in_range(self.width, self.signed, self.value + other.value) ==> r == Some(
                FixedInt {
                    width: self.width,
                    signed: self.signed,
                    value: (self.value + other.value) as i128,
                },
            ),
            !in_range(self.width, self.signed, self.value + other.value) ==> r is None,
    {
        let sum: i128 = self.value + other.value;
        let lo: i128 = type_min_exec(self.width, self.signed);
        let hi: i128 = type_max_exec(self.width, self.signed);
        if lo <= sum && sum <= hi {
            Some(FixedInt { width: self.width, signed: self.signed, value: sum })
        } else {
            None
        }
    }

    /// Saturating addition: the exact sum when representable, otherwise the
    /// nearest bound of the shared type. The result never exceeds the type's
    /// maximum nor falls below its minimum.
    pub fn saturating_add(&self, other: &FixedInt) -> (r: FixedInt)
        requires
            self.wf(),
            other.wf(),
            self.same_type(*other),
        ensures
            r.width == self.width,
            r.signed == self.signed,
            r.wf(),
            r.value == clamp_value(self.width, self.signed, self.value + other.value),
    {
        let sum: i128 = self.value + other.value;
        let lo: i128 = type_min_exec(self.width, self.signed);
        let hi: i128 = type_max_exec(self.width, self.signed);
        let value: i128 = if sum < lo {
            lo
        } else if sum > hi {
            hi
        } else {
            sum
        };
        FixedInt { width: self.width, signed: self.signed, value }
    }

    /// Overflowing addition: the sum wrapped modulo `2^N`, paired with a flag
    /// that is true if and only if the mathematical sum fell outside the
    /// type's range.
    pub fn overflowing_add(&self, other: &FixedInt) -> (r: (FixedInt, bool))
        requires
            self.wf(),
            other.wf(),
            self.same_type(*other),
        ensures
            r.0.width == self.width,
            r.0.signed == self.signed,
            r.0.wf(),
            r.0.value == wrap_value(self.width, self.signed, self.value + other.value),
            r.1 == !in_range(self.width, self.signed, self.value + other.value),
    {
        let exact: i128 = self.value + other.value;
        let value: i128 = wrap_exec(self.width, self.signed, exact);
        let lo: i128 = type_min_exec(self.width, self.signed);
        let hi: i128 = type_max_exec(self.width, self.signed);
        let overflowed: bool = exact < lo || exact > hi;
        proof {
            lemma_wrap_in_range(self.width, self.signed, exact as int);
        }
        (FixedInt { width: self.width, signed: self.signed, value }, overflowed)
    }

    /// Overflowing subtraction: the difference wrapped modulo `2^N`, paired
    /// with a flag that is true if and only if the mathematical difference
    /// fell outside the type's range.
    pub fn overflowing_sub(&self, other: &FixedInt) -> (r: (FixedInt, bool))
        requires
            self.wf(),
            other.wf(),
            self.same_type(*other),
        ensures
            r.0.width == self.width,
            r.0.signed == self.signed,
            r.0.wf(),
            r.0.value == wrap_value(self.width, self.signed, self.value - other.value),
            r.1 == !in_range(self.width, self.signed, self.value - other.value),
    {
        let exact: i128 = self.value - other.value;
        let value: i128 = wrap_exec(self.width, self.signed, exact);
        let lo: i128 = type_min_exec(self.width, self.signed);
        let hi: i128 = type_max_exec(self.width, self.signed);
        let overflowed: bool = exact < lo || exact > hi;
        proof {
            lemma_wrap_in_range(self.width, self.signed, exact as int);
        }
        (FixedInt { width: self.width, signed: self.signed, value }, overflowed)
    }

    /// Wrapping multiplication: the mathematical product reduced modulo
    /// `2^N` and reinterpreted in the shared signedness.
    pub fn wrapping_mul(&self, other: &FixedInt) -> (r: FixedInt)
        requires
            self.wf(),
            other.wf(),
            self.same_type(*other),
        ensures
            r.width == self.width,
            r.signed == self.signed,
            r.wf(),
            r.value == wrap_value(self.width, self.signed, self.value * other.value),
    {
        let m: i128 = width_modulus_exec(self.width);
        let au: i128 = wrap_exec(self.width, false, self.value);
        let bu: i128 = wrap_exec(self.width, false, other.value);
        proof {
            lemma_mod_bound(self.value as int, m as int);
            lemma_mod_bound(other.value as int, m as int);
            assert((au as u128) * (bu as u128) < 0x1_0000_0000_0000_0000_0000_0000_0000_0000)
                by (nonlinear_arith)
                requires
                    0 <= au < 0x1_0000_0000_0000_0000,
                    0 <= bu < 0x1_0000_0000_0000_0000,
            ;
        }
        let p: u128 = (au as u128) * (bu as u128);
        let pm: u128 = p % (m as u128);
        proof {
            lemma_mul_mod_noop_general(self.value as int, other.value as int, m as int);
            lemma_mod_bound((au as int) * (bu as int), m as int);
            lemma_wrap_in_range(self.width, self.signed, self.value * other.value);
        }
        let r0: i128 = pm as i128;
        let value: i128 = if self.signed {
            let hi: i128 = type_max_exec(self.width, true);
            if r0 > hi {
                r0 - m
            } else {
                r0
            }
        } else {
            r0
        };
        FixedInt { width: self.width, signed: self.signed, value }
    }

    /// Overflowing multiplication: the product wrapped modulo `2^N`, paired
    /// with a flag that is true if and only if the mathematical product fell
    /// outside the type's range.
    pub fn overflowing_mul(&self, other: &FixedInt) -> (r: (FixedInt, bool))
        requires
            self.wf(),
            other.wf(),
            self.same_type(*other),
        ensures
            r.0.width == self.width,
            r.0.signed == self.signed,
            r.0.wf(),
            r.0.value == wrap_value(self.width, self.signed, self.value * other.value),
            r.1 == !in_range(self.width, self.signed, self.value * other.value),
    {
        let wrapped: FixedInt = self.wrapping_mul(other);
        let overflowed: bool;
        if self.signed {
            proof {
                assert(-0x4000_0000_0000_0000_0000_0000_0000_0000 <= self.value * other.value
                    <= 0x4000_0000_0000_0000_0000_0000_0000_0000) by (nonlinear_arith)
                    requires
                        -0x8000_0000_0000_0000 <= self.value <= 0x7FFF_FFFF_FFFF_FFFF,
                        -0x8000_0000_0000_0000 <= other.value <= 0x7FFF_FFFF_FFFF_FFFF,
                ;
            }
            let p: i128 = self.value * other.value;
            let lo: i128 = type_min_exec(self.width, true);
            let hi: i128 = type_max_exec(self.width, true);
            overflowed = p < lo || p > hi;
        } else {
            proof {
                assert((self.value as u128) * (other.value as u128)
                    < 0x1_0000_0000_0000_0000_0000_0000_0000_0000) by (nonlinear_arith)
                    requires
                        0 <= self.value < 0x1_0000_0000_0000_0000,
                        0 <= other.value < 0x1_0000_0000_0000_0000,
                ;
                assert(self.value * other.value >= 0) by (nonlinear_arith)
                    requires
                        self.value >= 0,
                        other.value >= 0,
                ;
            }
            let p: u128 = (self.value as u128) * (other.value as u128);
            let hi: i128 = type_max_exec(self.width, false);
            overflowed = p > (hi as u128);
        }
        (wrapped, overflowed)
    }

    /// Population count: the number of set bits in the two's-complement
    /// representation of the value, independent of its signedness
    /// interpretation.
    pub fn count_ones(&self) -> (r: u64)
        requires
            self.wf(),
        ensures
            r == ones(wrap_value(self.width, false, self.value as int) as nat),
    {
        let start: i128 = wrap_exec(self.width, false, self.value);
        proof {
            lemma_wrap_in_range(self.width, false, self.value as int);
            lemma_ones_le(start as nat);
        }
        let mut u: u128 = start as u128;
        let mut c: u64 = 0;
        while u > 0
            invariant
                c + ones(u as nat) == ones(start as nat),
                ones(start as nat) <= 0xFFFF_FFFF_FFFF_FFFF,
            decreases u,
        {
            let bit: u64 = (u % 2) as u64;
            c = c + bit;
            u = u / 2;
        }
        c
    }
}

/// The number of ones in the binary representation of a natural number.
pub open spec fn ones(n: nat) -> nat
    decreases n,
{
    if n == 0 {
        0
    } else {
        (n % 2) + ones(n / 2)
    }
}

/// The population count of a natural number never exceeds the number itself.
proof fn lemma_ones_le(n: nat)
    ensures
        ones(n) <= n,
    decreases n,
{
    if n > 0 {
        lemma_ones_le(n / 2);
    }
}

/// Reduces `v` modulo `2^N` of the width and reinterprets the residue in the
/// requested signedness, entirely in nonnegative arithmetic: `v` is shifted
/// by `2^66` (a multiple of every supported modulus) before the division.
fn wrap_exec(w: Width, signed: bool, v: i128) -> (r: i128)
    requires
        -0x2_0000_0000_0000_0000 <= v <= 0x2_0000_0000_0000_0000,
    ensures
        r == wrap_value(w, signed, v as int),
{
    let m: i128 = width_modulus_exec(w);
    let shifted: i128 = v + 0x4_0000_0000_0000_0000;
    let u: u128 = shifted as u128;
    let mu: u128 = m as u128;
    let r0u: u128 = u % mu;
    proof {
        lemma_shift_mod(v as int, w);
        lemma_mod_bound(shifted as int, m as int);
    }
    let r0: i128 = r0u as i128;
    if signed {
        let hi: i128 = type_max_exec(w, true);
        if r0 > hi {
            r0 - m
        } else {
            r0
        }
    } else {
        r0
    }
}

} // verus!
