//! Complex amplitudes in integer fixed point.
//!
//! A `Complex` holds the real and imaginary part of one bin as `i64`
//! values. Twiddle factors carry the scale `SCALE` (so `SCALE` stands
//! for 1.0); sample amplitudes carry whatever scale the caller chose,
//! and a scaled multiplication divides by `SCALE` once so the sample
//! scale is preserved through the transform.

use vstd::prelude::*;

use crate::arith::{tdiv, tdiv_i64, SCALE};

verus! {

/// One complex amplitude, fixed point.
#[derive(Clone, Copy, PartialEq, Eq, Structural, Debug)]
pub struct Complex {
    pub re: i64,
    pub im: i64,
}

/// The mathematical value of a complex amplitude: a pair of unbounded
/// integers. All spec-level arithmetic works on this type, so the model
/// never overflows.
pub struct ComplexInt {
    pub re: int,
    pub im: int,
}

impl View for Complex {
    type V = ComplexInt;

    open spec fn view(&self) -> ComplexInt {
        ComplexInt { re: self.re as int, im: self.im as int }
    }
}

/// Componentwise sum.
pub open spec fn c_add(a: ComplexInt, b: ComplexInt) -> ComplexInt {
    ComplexInt { re: a.re + b.re, im: a.im + b.im }
}

/// Componentwise difference.
pub open spec fn c_sub(a: ComplexInt, b: ComplexInt) -> ComplexInt {
    ComplexInt { re: a.re - b.re, im: a.im - b.im }
}

/// Product with a factor `w` that carries the scale `SCALE`, truncated
/// back to the scale of `x`. This is the exact description of the
/// fixed-point twiddle multiplication.
pub open spec fn c_mul_scaled(w: ComplexInt, x: ComplexInt) -> ComplexInt {
    ComplexInt {
        re: tdiv(w.re * x.re - w.im * x.im, SCALE as int),
        im: tdiv(w.re * x.im + w.im * x.re, SCALE as int),
    }
}

/// Both parts of `c` have magnitude at most `b`.
pub open spec fn c_bounded(c: ComplexInt, b: int) -> bool {
    -b <= c.re <= b && -b <= c.im <= b
}

/// Every element of `s` is bounded by `b` in both parts.
pub open spec fn seq_bounded(s: Seq<ComplexInt>, b: int) -> bool {
    forall|i: int| 0 <= i < s.len() ==> c_bounded(#[trigger] s[i], b)
}

/// The mathematical values of a buffer of complex amplitudes.
pub open spec fn cseq(s: Seq<Complex>) -> Seq<ComplexInt> {
    Seq::new(s.len(), |i: int| s[i]@)
}

/// The mathematical values of a buffer of real amplitudes.
pub open spec fn iseq(s: Seq<i64>) -> Seq<int> {
    Seq::new(s.len(), |i: int| s[i] as int)
}

impl Complex {
    /// The zero amplitude.
    pub fn zero() -> (r: Complex)
        ensures
            r@ == (ComplexInt { re: 0, im: 0 }),
    {
        Complex { re: 0, im: 0 }
    }

    /// Componentwise sum.
    pub fn plus(self, o: Complex) -> (r: Complex)
        requires
            c_bounded(self@, 0x2000_0000_0000_0000),
            c_bounded(o@, 0x2000_0000_0000_0000),
        ensures
            r@ == c_add(self@, o@),
    {
        Complex { re: self.re + o.re, im: self.im + o.im }
    }

    /// Componentwise difference.
    pub fn minus(self, o: Complex) -> (r: Complex)
        requires
            c_bounded(self@, 0x2000_0000_0000_0000),
            c_bounded(o@, 0x2000_0000_0000_0000),
        ensures
            r@ == c_sub(self@, o@),
    {
        Complex { re: self.re - o.re, im: self.im - o.im }
    }

    /// Multiplication by a factor `w` that carries the scale `SCALE`.
    pub fn scaled_mul(self, w: Complex) -> (r: Complex)
        requires
            c_bounded(w@, SCALE as int),
            c_bounded(self@, 0x200_0000_0000),
        ensures
            r@ == c_mul_scaled(w@, self@),
    {
        proof {
            assert(-0x2000_0000_0000_0000 <= w@.re * self@.re <= 0x2000_0000_0000_0000)
                by (nonlinear_arith)
                requires
                    c_bounded(w@, SCALE as int),
                    c_bounded(self@, 0x200_0000_0000),
                    SCALE == 1048576,
            ;
            assert(-0x2000_0000_0000_0000 <= w@.im * self@.im <= 0x2000_0000_0000_0000)
                by (nonlinear_arith)
                requires
                    c_bounded(w@, SCALE as int),
                    c_bounded(self@, 0x200_0000_0000),
                    SCALE == 1048576,
            ;
            assert(-0x2000_0000_0000_0000 <= w@.re * self@.im <= 0x2000_0000_0000_0000)
                by (nonlinear_arith)
                requires
                    c_bounded(w@, SCALE as int),
                    c_bounded(self@, 0x200_0000_0000),
                    SCALE == 1048576,
            ;
            assert(-0x2000_0000_0000_0000 <= w@.im * self@.re <= 0x2000_0000_0000_0000)
                by (nonlinear_arith)
                requires
                    c_bounded(w@, SCALE as int),
                    c_bounded(self@, 0x200_0000_0000),
                    SCALE == 1048576,
            ;
        }
        let re_num: i64 = w.re * self.re - w.im * self.im;
        let im_num: i64 = w.re * self.im + w.im * self.re;
        Complex { re: tdiv_i64(re_num, SCALE), im: tdiv_i64(im_num, SCALE) }
    }
}

} // verus!
