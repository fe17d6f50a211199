//! The quantization adapter: every supported scalar representation is a
//! fixed-layout bit pattern together with a fixed-point numeric reading.
//!
//! Half-precision scalars are carried as 16-bit patterns; converting
//! between the pattern and the scalar is pure bit reinterpretation, never
//! a value conversion. The numeric reading ([`VectorType::to_int`])
//! reports the scalar's value multiplied by [`SCALAR_SCALE`], rounded
//! towards zero, so that the builtin distance kernels can work in plain
//! integer arithmetic.

use vstd::prelude::*;
use vstd::arithmetic::power2::pow2;
use vstd::arithmetic::power2::lemma2_to64;
use vstd::arithmetic::power2::lemma2_to64_rest;
use vstd::arithmetic::power2::lemma_pow2_strictly_increases;
use crate::ScalarKind;
use crate::SCALAR_SCALE;
use crate::SCALAR_VALUE_BOUND;

verus! {

/// Capability set of a supported scalar representation: its binary
/// layout, its storage bit pattern, and its fixed-point numeric value.
pub trait VectorType: Copy + Sized {
    /// The bit pattern under which this scalar is stored and serialized.
    spec fn spec_bits(self) -> u64;

    /// The scalar that a stored bit pattern stands for; only the low
    /// bits named by the layout are read.
    spec fn spec_from_bits(bits: u64) -> Self;

    /// The numeric value of this scalar multiplied by [`SCALAR_SCALE`],
    /// rounded towards zero.
    spec fn spec_int(self) -> int;

    /// The binary layout of this scalar representation.
    spec fn spec_quant_type() -> ScalarKind;

    /// Reports which binary layout the engine should expect.
    fn quant_type() -> (k: ScalarKind)
        ensures
            k == Self::spec_quant_type(),
    ;

    /// The storage bit pattern of this scalar.
    fn to_bits(self) -> (b: u64)
        ensures
            b == self.spec_bits(),
            b <= 0xFFFF_FFFF_FFFF_FFFFu64,
    ;

    /// The scalar stored under the given bit pattern.
    fn from_bits(bits: u64) -> (s: Self)
        ensures
            s == Self::spec_from_bits(bits),
    ;

    /// The fixed-point numeric value of this scalar.
    fn to_int(self) -> (v: i64)
        ensures
            v == self.spec_int(),
            -SCALAR_VALUE_BOUND <= v <= SCALAR_VALUE_BOUND,
    ;

    /// Storing a scalar's bits and reading them back yields the scalar.
    proof fn lemma_bits_roundtrip(self)
        ensures
            Self::spec_from_bits(self.spec_bits()) == self,
    ;
}

/// IEEE 754 half-precision scalar, carried as its 16-bit pattern:
/// 1 sign bit, 5 exponent bits, 10 mantissa bits.
#[derive(Clone, Copy, PartialEq, Eq, Structural, Debug)]
pub struct F16 {
    /// The IEEE 754 binary16 pattern.
    pub bits: u16,
}

/// bfloat16 scalar, carried as its 16-bit pattern: 1 sign bit,
/// 8 exponent bits, 7 mantissa bits.
#[derive(Clone, Copy, PartialEq, Eq, Structural, Debug)]
pub struct BF16 {
    /// The bfloat16 pattern.
    pub bits: u16,
}

/// 2 to the `e`-th power, as a machine word.
pub fn pow2_u64(e: u64) -> (p: u64)
    requires
        e < 64,
    ensures
        p == pow2(e as nat),
{
    let mut p: u64 = 1;
    let mut i: u64 = 0;
    proof {
        lemma2_to64();
        lemma2_to64_rest();
    }
    while i < e
        invariant
            i <= e,
            e < 64,
            p == pow2(i as nat),
            pow2(e as nat) < 0x1_0000_0000_0000_0000,
        decreases e - i,
    {
        proof {
            if (i + 1) as nat != e as nat {
                lemma_pow2_strictly_increases((i + 1) as nat, e as nat);
            }
            assert(pow2((i + 1) as nat) == 2 * pow2(i as nat)) by {
                vstd::arithmetic::power2::lemma_pow2_unfold((i + 1) as nat);
            }
        }
        p = p * 2;
        i = i + 1;
    }
    p
}

/// The fixed-point value of an IEEE 754 binary16 pattern: the stored
/// magnitude is `mantissa * 2^(exponent - 25)` (with the hidden bit for
/// normal numbers), scaled by [`SCALAR_SCALE`] and rounded towards zero;
/// infinities and NaNs saturate to [`SCALAR_VALUE_BOUND`].
pub open spec fn f16_fixed(bits: u16) -> int {
    let e = ((bits >> 10) & 0x1F) as int;
    let m = (bits & 0x3FF) as int;
    let mag: int = if e == 31 {
        SCALAR_VALUE_BOUND as int
    } else if e == 0 {
        m / 256
    } else if e >= 9 {
        (1024 + m) * pow2((e - 9) as nat)
    } else {
        (1024 + m) / pow2((9 - e) as nat) as int
    };
    if bits >= 0x8000 {
        -mag
    } else {
        mag
    }
}

/// The fixed-point value of a bfloat16 pattern: the stored magnitude is
/// `mantissa * 2^(exponent - 134)` (with the hidden bit for normal
/// numbers), scaled by [`SCALAR_SCALE`], rounded towards zero, and
/// saturated at [`SCALAR_VALUE_BOUND`]; infinities and NaNs saturate too.
pub open spec fn bf16_fixed(bits: u16) -> int {
    let e = ((bits >> 7) & 0xFF) as int;
    let m = (bits & 0x7F) as int;
    let mag: int = if e == 255 {
        SCALAR_VALUE_BOUND as int
    } else if e == 0 {
        m / pow2(117) as int
    } else if e >= 118 {
        let p = (128 + m) * pow2((e - 118) as nat);
        if p > SCALAR_VALUE_BOUND as int {
            SCALAR_VALUE_BOUND as int
        } else {
            p
        }
    } else {
        (128 + m) / pow2((118 - e) as nat) as int
    };
    if bits >= 0x8000 {
        -mag
    } else {
        mag
    }
}

/// Computes [`f16_fixed`] of the given pattern.
pub fn f16_to_fixed(bits: u16) -> (v: i64)
    ensures
        v == f16_fixed(bits),
        -SCALAR_VALUE_BOUND <= v <= SCALAR_VALUE_BOUND,
{
    let e: u64 = ((bits >> 10) & 0x1F) as u64;
    let m: u64 = (bits & 0x3FF) as u64;
    proof {
        assert(((bits >> 10) & 0x1F) < 32) by (bit_vector);
        assert((bits & 0x3FF) < 1024) by (bit_vector);
        lemma2_to64();
    }
    let mag: u64 = if e == 31 {
        SCALAR_VALUE_BOUND as u64
    } else if e == 0 {
        m / 256
    } else if e >= 9 {
        let p = pow2_u64(e - 9);
        proof {
            if (e - 9) as nat != 21 {
                lemma_pow2_strictly_increases((e - 9) as nat, 21);
            }
            assert((1024 + m) * p <= 2047 * 0x200000) by (nonlinear_arith)
                requires
                    m < 1024,
                    p <= 0x200000,
            ;
        }
        (1024 + m) * p
    } else {
        (1024 + m) / pow2_u64(9 - e)
    };
    assert(mag <= SCALAR_VALUE_BOUND as u64);
    if bits >= 0x8000 {
        -(mag as i64)
    } else {
        mag as i64
    }
}

/// Computes [`bf16_fixed`] of the given pattern.
pub fn bf16_to_fixed(bits: u16) -> (v: i64)
    ensures
        v == bf16_fixed(bits),
        -SCALAR_VALUE_BOUND <= v <= SCALAR_VALUE_BOUND,
{
    let e: u64 = ((bits >> 7) & 0xFF) as u64;
    let m: u64 = (bits & 0x7F) as u64;
    proof {
        assert(((bits >> 7) & 0xFF) < 256) by (bit_vector);
        assert((bits & 0x7F) < 128) by (bit_vector);
        lemma2_to64();
        lemma2_to64_rest();
    }
    let mag: u64 = if e == 255 {
        SCALAR_VALUE_BOUND as u64
    } else if e == 0 {
        proof {
            lemma_pow2_strictly_increases(8, 117);
            assert(m as int / pow2(117) as int == 0) by (nonlinear_arith)
                requires
                    m < 256,
                    pow2(117) > 256,
            ;
        }
        0
    } else if e >= 118 {
        if e - 118 > 25 {
            proof {
                lemma_pow2_strictly_increases(25, (e - 118) as nat);
                assert((128 + m as int) * pow2((e - 118) as nat) as int
                    > SCALAR_VALUE_BOUND as int) by (nonlinear_arith)
                    requires
                        pow2((e - 118) as nat) > 0x2000000,
                        m < 128,
                        SCALAR_VALUE_BOUND == 0x1_0000_0000,
                ;
            }
            SCALAR_VALUE_BOUND as u64
        } else {
            let p = pow2_u64(e - 118);
            proof {
                if (e - 118) as nat != 25 {
                    lemma_pow2_strictly_increases((e - 118) as nat, 25);
                }
                assert((128 + m) * p <= 255 * 0x2000000) by (nonlinear_arith)
                    requires
                        m < 128,
                        p <= 0x2000000,
                ;
            }
            let raw = (128 + m) * p;
            if raw > SCALAR_VALUE_BOUND as u64 {
                SCALAR_VALUE_BOUND as u64
            } else {
                raw
            }
        }
    } else {
        if 118 - e > 8 {
            proof {
                lemma_pow2_strictly_increases(8, (118 - e) as nat);
                assert((128 + m as int) / pow2((118 - e) as nat) as int == 0)
                    by (nonlinear_arith)
                    requires
                        m < 128,
                        pow2((118 - e) as nat) > 256,
                ;
            }
            0
        } else {
            (128 + m) / pow2_u64(118 - e)
        }
    };
    assert(mag <= SCALAR_VALUE_BOUND as u64);
    if bits >= 0x8000 {
        -(mag as i64)
    } else {
        mag as i64
    }
}

impl VectorType for i8 {
    open spec fn spec_bits(self) -> u64 {
        (self as u8) as u64
    }

    open spec fn spec_from_bits(bits: u64) -> Self {
        (bits as u8) as i8
    }

    open spec fn spec_int(self) -> int {
        self as int * SCALAR_SCALE as int
    }

    open spec fn spec_quant_type() -> ScalarKind {
        ScalarKind::I8
    }

    fn quant_type() -> (k: ScalarKind) {
        ScalarKind::I8
    }

    fn to_bits(self) -> (b: u64) {
        (self as u8) as u64
    }

    fn from_bits(bits: u64) -> (s: Self) {
        (bits as u8) as i8
    }

    fn to_int(self) -> (v: i64) {
        (self as i64) * SCALAR_SCALE
    }

    proof fn lemma_bits_roundtrip(self) {
        assert((((self as u8) as u64) as u8) as i8 == self) by (bit_vector);
    }
}

impl VectorType for F16 {
    open spec fn spec_bits(self) -> u64 {
        self.bits as u64
    }

    open spec fn spec_from_bits(bits: u64) -> Self {
        F16 { bits: bits as u16 }
    }

    open spec fn spec_int(self) -> int {
        f16_fixed(self.bits)
    }

    open spec fn spec_quant_type() -> ScalarKind {
        ScalarKind::F16
    }

    fn quant_type() -> (k: ScalarKind) {
        ScalarKind::F16
    }

    fn to_bits(self) -> (b: u64) {
        self.bits as u64
    }

    fn from_bits(bits: u64) -> (s: Self) {
        F16 { bits: bits as u16 }
    }

    fn to_int(self) -> (v: i64) {
        f16_to_fixed(self.bits)
    }

    proof fn lemma_bits_roundtrip(self) {
    }
}

impl VectorType for BF16 {
    open spec fn spec_bits(self) -> u64 {
        self.bits as u64
    }

    open spec fn spec_from_bits(bits: u64) -> Self {
        BF16 { bits: bits as u16 }
    }

    open spec fn spec_int(self) -> int {
        bf16_fixed(self.bits)
    }

    open spec fn spec_quant_type() -> ScalarKind {
        ScalarKind::BF16
    }

    fn quant_type() -> (k: ScalarKind) {
        ScalarKind::BF16
    }

    fn to_bits(self) -> (b: u64) {
        self.bits as u64
    }

    fn from_bits(bits: u64) -> (s: Self) {
        BF16 { bits: bits as u16 }
    }

    fn to_int(self) -> (v: i64) {
        bf16_to_fixed(self.bits)
    }

    proof fn lemma_bits_roundtrip(self) {
    }
}

} // verus!
