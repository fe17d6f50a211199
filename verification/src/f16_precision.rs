//! Conversions between half-precision scalars and plain 16-bit
//! integers: pure bit reinterpretation, element by element, never a
//! numeric conversion.

use vstd::prelude::*;
use crate::scalar::F16;
use crate::scalar::BF16;

verus! {

/// Bit-level conversions between [`F16`] scalars and `i16` storage.
pub trait F16HalfUSearchExt {
    /// Reads a slice of `i16` storage words as half-precision scalars,
    /// keeping every bit pattern.
    fn from_i16s(slice: &[i16]) -> (r: Vec<F16>)
        ensures
            r@.len() == slice@.len(),
            forall|i: int| 0 <= i < r@.len() ==> (#[trigger] r@[i]).bits == slice@[i] as u16,
    ;

    /// Writes half-precision scalars back as `i16` storage words,
    /// keeping every bit pattern.
    fn to_i16s(slice: &[F16]) -> (r: Vec<i16>)
        ensures
            r@.len() == slice@.len(),
            forall|i: int| 0 <= i < r@.len() ==> (#[trigger] r@[i]) as u16 == slice@[i].bits,
    ;
}

impl F16HalfUSearchExt for F16 {
    fn from_i16s(slice: &[i16]) -> (r: Vec<F16>) {
        let n = slice.len();
        let mut r: Vec<F16> = Vec::new();
        let mut i: usize = 0;
        while i < n
            invariant
                0 <= i <= n,
                n == slice@.len(),
                r@.len() == i,
                forall|k: int| 0 <= k < i ==> (#[trigger] r@[k]).bits == slice@[k] as u16,
            decreases n - i,
        {
            let w = slice[i];
            r.push(F16 { bits: w as u16 });
            i = i + 1;
        }
        r
    }

    fn to_i16s(slice: &[F16]) -> (r: Vec<i16>) {
        let n = slice.len();
        let mut r: Vec<i16> = Vec::new();
        let mut i: usize = 0;
        while i < n
            invariant
                0 <= i <= n,
                n == slice@.len(),
                r@.len() == i,
                forall|k: int| 0 <= k < i ==> (#[trigger] r@[k]) as u16 == slice@[k].bits,
            decreases n - i,
        {
            let s = slice[i];
            let w = s.bits as i16;
            proof {
                let b = s.bits;
                assert((b as i16) as u16 == b) by (bit_vector);
            }
            r.push(w);
            i = i + 1;
        }
        r
    }
}

/// Bit-level conversions between [`BF16`] scalars and `i16` storage.
pub trait Bf16HalfUSearchExt {
    /// Reads a slice of `i16` storage words as bfloat16 scalars,
    /// keeping every bit pattern.
    fn from_i16s(slice: &[i16]) -> (r: Vec<BF16>)
        ensures
            r@.len() == slice@.len(),
            forall|i: int| 0 <= i < r@.len() ==> (#[trigger] r@[i]).bits == slice@[i] as u16,
    ;

    /// Writes bfloat16 scalars back as `i16` storage words, keeping
    /// every bit pattern.
    fn to_i16s(slice: &[BF16]) -> (r: Vec<i16>)
        ensures
            r@.len() == slice@.len(),
            forall|i: int| 0 <= i < r@.len() ==> (#[trigger] r@[i]) as u16 == slice@[i].bits,
    ;
}

impl Bf16HalfUSearchExt for BF16 {
    fn from_i16s(slice: &[i16]) -> (r: Vec<BF16>) {
        let n = slice.len();
        let mut r: Vec<BF16> = Vec::new();
        let mut i: usize = 0;
        while i < n
            invariant
                0 <= i <= n,
                n == slice@.len(),
                r@.len() == i,
                forall|k: int| 0 <= k < i ==> (#[trigger] r@[k]).bits == slice@[k] as u16,
            decreases n - i,
        {
            let w = slice[i];
            r.push(BF16 { bits: w as u16 });
            i = i + 1;
        }
        r
    }

    fn to_i16s(slice: &[BF16]) -> (r: Vec<i16>) {
        let n = slice.len();
        let mut r: Vec<i16> = Vec::new();
        let mut i: usize = 0;
        while i < n
            invariant
                0 <= i <= n,
                n == slice@.len(),
                r@.len() == i,
                forall|k: int| 0 <= k < i ==> (#[trigger] r@[k]) as u16 == slice@[k].bits,
            decreases n - i,
        {
            let s = slice[i];
            let w = s.bits as i16;
            proof {
                let b = s.bits;
                assert((b as i16) as u16 == b) by (bit_vector);
            }
            r.push(w);
            i = i + 1;
        }
        r
    }
}

} // verus!
