//! Floating-point values carried as their IEEE 754 bit patterns.
//!
//! The compositor only stores, forwards and compares these values, so it keeps the bits and
//! states what the `==` of the two formats means on them.

use vstd::prelude::*;
use vstd::arithmetic::power2::{lemma_pow2_adds, lemma_pow2_pos, lemma_pow2_strictly_increases, lemma2_to64, pow2};

verus! {

/// A single-precision value, by its bits.
#[derive(Clone, Copy, Debug, PartialEq, Eq, Structural)]
pub struct F32 {
    pub bits: u32,
}

/// A double-precision value, by its bits.
#[derive(Clone, Copy, Debug, PartialEq, Eq, Structural)]
pub struct F64 {
    pub bits: u64,
}

impl F32 {
    /// The bits without the sign.
    pub open spec fn magnitude(self) -> int {
        self.bits as int % 0x8000_0000
    }

    pub open spec fn is_nan_spec(self) -> bool {
        self.magnitude() > 0x7f80_0000
    }

    /// IEEE equality: no NaN equals anything, and the two zeros are equal.
    pub open spec fn same_spec(self, other: F32) -> bool {
        !self.is_nan_spec() && !other.is_nan_spec() && (self.bits == other.bits || (
        self.magnitude() == 0 && other.magnitude() == 0))
    }

    pub open spec fn one_spec() -> F32 {
        F32 { bits: 0x3f80_0000 }
    }

    /// The value `1.0`.
    pub fn one() -> (r: F32)
        ensures
            r == F32::one_spec(),
    {
        F32 { bits: 0x3f80_0000 }
    }

    pub fn is_nan(self) -> (r: bool)
        ensures
            r == self.is_nan_spec(),
    {
        self.bits % 0x8000_0000 > 0x7f80_0000
    }

    pub fn same(self, other: F32) -> (r: bool)
        ensures
            r == self.same_spec(other),
    {
        !self.is_nan() && !other.is_nan() && (self.bits == other.bits || (self.bits % 0x8000_0000
            == 0 && other.bits % 0x8000_0000 == 0))
    }
}

/// The double-precision bits of the positive integer `v`, whose highest set bit is `k`.
pub open spec fn positive_f64_bits(v: int, k: nat) -> int {
    (1023 + k) * pow2(52) + (v - pow2(k)) * pow2((52 - k) as nat)
}

/// Whether `bits` is the double-precision pattern of the integer `v`.
pub open spec fn encodes(bits: u64, v: int) -> bool {
    if v == 0 {
        bits == 0
    } else {
        let size = if v < 0 { -v } else { v };
        let sign: int = if v < 0 { 0x8000_0000_0000_0000 } else { 0 };
        exists|k: nat|
            k <= 31 && #[trigger] pow2(k) <= size < 2 * pow2(k) && bits == sign + positive_f64_bits(
                size,
                k,
            )
    }
}

/// An integer has one double-precision pattern.
pub proof fn encoding_is_unique(a: u64, b: u64, v: int)
    requires
        encodes(a, v),
        encodes(b, v),
    ensures
        a == b,
{
    if v != 0 {
        let size = if v < 0 { -v } else { v };
        let sign: int = if v < 0 { 0x8000_0000_0000_0000 } else { 0 };
        let i = choose|k: nat|
            k <= 31 && #[trigger] pow2(k) <= size < 2 * pow2(k) && a == sign + positive_f64_bits(
                size,
                k,
            );
        let j = choose|k: nat|
            k <= 31 && #[trigger] pow2(k) <= size < 2 * pow2(k) && b == sign + positive_f64_bits(
                size,
                k,
            );
        if i != j {
            let low = if i < j { i } else { j };
            let high = if i < j { j } else { i };
            lemma2_to64();
            lemma_pow2_adds(1, low);
            if low + 1 < high {
                lemma_pow2_strictly_increases(low + 1, high);
            }
        }
    }
}

impl F64 {
    pub open spec fn magnitude(self) -> int {
        self.bits as int % 0x8000_0000_0000_0000
    }

    pub open spec fn is_nan_spec(self) -> bool {
        self.magnitude() > 0x7ff0_0000_0000_0000
    }

    /// IEEE equality: no NaN equals anything, and the two zeros are equal.
    pub open spec fn same_spec(self, other: F64) -> bool {
        !self.is_nan_spec() && !other.is_nan_spec() && (self.bits == other.bits || (
        self.magnitude() == 0 && other.magnitude() == 0))
    }

    /// The value `0.0`.
    pub fn zero() -> (r: F64)
        ensures
            r == (F64 { bits: 0 }),
            encodes(r.bits, 0),
    {
        F64 { bits: 0 }
    }

    pub fn is_nan(self) -> (r: bool)
        ensures
            r == self.is_nan_spec(),
    {
        self.bits % 0x8000_0000_0000_0000 > 0x7ff0_0000_0000_0000
    }

    pub fn same(self, other: F64) -> (r: bool)
        ensures
            r == self.same_spec(other),
    {
        !self.is_nan() && !other.is_nan() && (self.bits == other.bits || (self.bits
            % 0x8000_0000_0000_0000 == 0 && other.bits % 0x8000_0000_0000_0000 == 0))
    }

    /// The value that equals the integer `v`.
    pub open spec fn from_i32_spec(v: i32) -> F64 {
        F64 { bits: choose|bits: u64| encodes(bits, v as int) }
    }

    pub fn from_i32(v: i32) -> (r: F64)
        ensures
            encodes(r.bits, v as int),
            r == F64::from_i32_spec(v),
            !r.is_nan_spec(),
    {
        let r = F64::encode(v);
        proof {
            encoding_is_unique(r.bits, F64::from_i32_spec(v).bits, v as int);
        }
        r
    }

    fn encode(v: i32) -> (r: F64)
        ensures
            encodes(r.bits, v as int),
            !r.is_nan_spec(),
    {
        if v == 0 {
            return F64 { bits: 0 };
        }
        let size: u64 = if v < 0 { (-(v as i64)) as u64 } else { v as u64 };
        let mut k: u64 = 0;
        let mut top: u64 = 1;
        let mut unit: u64 = 0x10_0000_0000_0000;
        proof {
            lemma2_to64();
            lemma_pow2_adds(32, 20);
        }
        while 2 * top <= size
            invariant
                1 <= size <= 0x8000_0000,
                k <= 31,
                top == pow2(k as nat),
                1 <= top <= size,
                unit == pow2((52 - k) as nat),
                pow2(31) == 0x8000_0000,
                pow2(32) == 0x1_0000_0000,
                pow2(1) == 2,
            decreases size - top,
        {
            proof {
                lemma_pow2_adds(1, k as nat);
                lemma_pow2_adds(1, (51 - k) as nat);
                if k >= 31 {
                    assert(top == 0x8000_0000);
                }
                assert(pow2((52 - k) as nat) == 2 * pow2((51 - k) as nat));
            }
            k = k + 1;
            top = top * 2;
            unit = unit / 2;
        }
        let rest: u64 = size - top;
        proof {
            lemma2_to64();
            lemma_pow2_adds(32, 20);
            lemma_pow2_adds(k as nat, (52 - k) as nat);
            lemma_pow2_pos((52 - k) as nat);
            let t = top as int;
            let u = unit as int;
            assert(t * u == 0x10_0000_0000_0000);
            assert(0 <= rest * unit < 0x10_0000_0000_0000) by (nonlinear_arith)
                requires
                    0 <= rest < top,
                    top * unit == 0x10_0000_0000_0000,
                    unit > 0,
            ;
            assert((1023 + k) * pow2(52) == (1023 + k) * 0x10_0000_0000_0000);
        }
        let bits: u64 = (1023 + k) * 0x10_0000_0000_0000 + rest * unit;
        proof {
            assert(bits == positive_f64_bits(size as int, k as nat));
            assert(pow2(k as nat) <= size < 2 * pow2(k as nat));
        }
        if v < 0 {
            F64 { bits: bits + 0x8000_0000_0000_0000 }
        } else {
            F64 { bits }
        }
    }
}

/// Equality of single-precision values is symmetric, and reflexive on all but NaN.
pub proof fn f32_equality(a: F32, b: F32)
    ensures
        a.same_spec(b) == b.same_spec(a),
        a.same_spec(a) == !a.is_nan_spec(),
{
}

/// Equality of double-precision values is symmetric, and reflexive on all but NaN.
pub proof fn f64_equality(a: F64, b: F64)
    ensures
        a.same_spec(b) == b.same_spec(a),
        a.same_spec(a) == !a.is_nan_spec(),
{
}

} // verus!
