//! The radix-2 decimation-in-time FFT.
//!
//! `spec_fft` is the mathematical description of the transform in exact
//! integer arithmetic: split the input by index parity, transform each
//! half, and recombine with fixed-point twiddle factors. The executable
//! kernel `fft_recursive` computes exactly that sequence. The laws at
//! the end of the module are the global facts the transform obeys: the
//! size-one transform is the identity, and the first output bin is the
//! exact sum of the inputs.

use vstd::prelude::*;

use crate::arith::{lemma_tdiv_bound, lemma_tdiv_exact, tdiv, SCALE};
use crate::complex::{
    c_add, c_bounded, c_mul_scaled, c_sub, cseq, iseq, seq_bounded, Complex, ComplexInt,
};
use crate::trig::{lemma_twiddle_bounded, lemma_twiddle_zero, twiddle, twiddle_factor};

verus! {

/// Largest block size an engine accepts. Keeps every intermediate value
/// of the transform, whose magnitude can triple per recursion level,
/// far inside `i64`.
pub const MAX_FFT_SIZE: usize = 4096;

/// Largest sample magnitude the transform accepts.
pub const INPUT_MAX: i64 = 2097152;

/// `n` is a power of two (and at least 1).
pub open spec fn is_pow2(n: nat) -> bool
    decreases n,
{
    if n == 0 {
        false
    } else if n == 1 {
        true
    } else {
        n % 2 == 0 && is_pow2(n / 2)
    }
}

/// The even-indexed elements, in order.
pub open spec fn evens(s: Seq<ComplexInt>) -> Seq<ComplexInt> {
    Seq::new(s.len() / 2, |i: int| s[2 * i])
}

/// The odd-indexed elements, in order.
pub open spec fn odds(s: Seq<ComplexInt>) -> Seq<ComplexInt> {
    Seq::new(s.len() / 2, |i: int| s[2 * i + 1])
}

/// The transform itself: the exact value of every output bin, in
/// natural frequency order. For `k` below `n/2`,
/// `out[k] = E[k] + W(k,n) * O[k]` and `out[k + n/2] = E[k] - W(k,n) * O[k]`,
/// where `E` and `O` are the transforms of the even and odd halves and
/// `W` is the fixed-point twiddle factor.
pub open spec fn spec_fft(s: Seq<ComplexInt>) -> Seq<ComplexInt>
    recommends
        is_pow2(s.len()),
    decreases s.len(),
{
    if s.len() <= 1 {
        s
    } else {
        let half = s.len() as int / 2;
        let e = spec_fft(evens(s));
        let o = spec_fft(odds(s));
        Seq::new(
            s.len(),
            |k: int|
                if k < half {
                    c_add(e[k], c_mul_scaled(twiddle(k, s.len() as int), o[k]))
                } else {
                    c_sub(e[k - half], c_mul_scaled(twiddle(k - half, s.len() as int), o[k - half]))
                },
        )
    }
}

/// The transform keeps the length.
pub proof fn lemma_spec_fft_len(s: Seq<ComplexInt>)
    ensures
        spec_fft(s).len() == s.len(),
{
}

/// Magnitude bound for the values of a transform of a block of size
/// `n`: each of the two combine terms is at most twice the bound of the
/// half-size transform, so the bound triples per level.
pub open spec fn fft_growth(n: nat, b: int) -> int
    decreases n,
{
    if n <= 1 {
        b
    } else {
        3 * fft_growth(n / 2, b)
    }
}

/// The growth bound is at least the input bound.
pub proof fn lemma_fft_growth_pos(n: nat, b: int)
    requires
        b >= 0,
    ensures
        b <= fft_growth(n, b),
    decreases n,
{
    if n > 1 {
        lemma_fft_growth_pos(n / 2, b);
    }
}

/// The growth bound is monotone in the block size.
pub proof fn lemma_fft_growth_monotone(n1: nat, n2: nat, b: int)
    requires
        b >= 0,
        n1 <= n2,
    ensures
        fft_growth(n1, b) <= fft_growth(n2, b),
    decreases n2,
{
    if n1 <= 1 {
        lemma_fft_growth_pos(n2, b);
    } else {
        lemma_fft_growth_monotone(n1 / 2, n2 / 2, b);
    }
}

/// A fixed-point product with a twiddle-sized factor at most doubles a
/// magnitude bound.
pub proof fn lemma_mul_scaled_bounded(w: ComplexInt, x: ComplexInt, b: int)
    requires
        b >= 0,
        c_bounded(w, SCALE as int),
        c_bounded(x, b),
    ensures
        c_bounded(c_mul_scaled(w, x), 2 * b),
{
    assert(-(2 * b * SCALE as int) <= w.re * x.re - w.im * x.im <= 2 * b * SCALE as int)
        by (nonlinear_arith)
        requires
            b >= 0,
            c_bounded(w, SCALE as int),
            c_bounded(x, b),
    ;
    assert(-(2 * b * SCALE as int) <= w.re * x.im + w.im * x.re <= 2 * b * SCALE as int)
        by (nonlinear_arith)
        requires
            b >= 0,
            c_bounded(w, SCALE as int),
            c_bounded(x, b),
    ;
    lemma_tdiv_bound(w.re * x.re - w.im * x.im, SCALE as int, 2 * b);
    lemma_tdiv_bound(w.re * x.im + w.im * x.re, SCALE as int, 2 * b);
}

/// Inputs bounded by `b` give transform values bounded by
/// `fft_growth(n, b)`.
pub proof fn lemma_spec_fft_bounded(s: Seq<ComplexInt>, b: int)
    requires
        b >= 0,
        is_pow2(s.len()),
        seq_bounded(s, b),
    ensures
        seq_bounded(spec_fft(s), fft_growth(s.len(), b)),
    decreases s.len(),
{
    if s.len() <= 1 {
    } else {
        let n = s.len();
        let half = n as int / 2;
        let e = spec_fft(evens(s));
        let o = spec_fft(odds(s));
        let hb = fft_growth(n / 2, b);
        assert(seq_bounded(evens(s), b));
        assert(seq_bounded(odds(s), b));
        lemma_spec_fft_bounded(evens(s), b);
        lemma_spec_fft_bounded(odds(s), b);
        lemma_spec_fft_len(evens(s));
        lemma_spec_fft_len(odds(s));
        lemma_fft_growth_pos(n / 2, b);
        assert forall|k: int| 0 <= k < n implies c_bounded(#[trigger] spec_fft(s)[k], 3 * hb) by {
            if k < half {
                lemma_twiddle_bounded(k, n as int);
                lemma_mul_scaled_bounded(twiddle(k, n as int), o[k], hb);
            } else {
                lemma_twiddle_bounded(k - half, n as int);
                lemma_mul_scaled_bounded(twiddle(k - half, n as int), o[k - half], hb);
            }
        }
    }
}

/// The growth bound of the largest accepted block is small enough that
/// every combine step fits comfortably in `i64`.
pub proof fn lemma_fft_growth_cap(n: nat)
    requires
        n <= MAX_FFT_SIZE,
    ensures
        fft_growth(n, INPUT_MAX as int) <= 0x200_0000_0000,
{
    lemma_fft_growth_monotone(n, MAX_FFT_SIZE as nat, INPUT_MAX as int);
    assert(fft_growth(4096, INPUT_MAX as int) <= 0x200_0000_0000) by {
        reveal_with_fuel(fft_growth, 14);
    }
}

/// A block of `n` zero amplitudes.
pub(crate) fn zero_block(n: usize) -> (r: Vec<Complex>)
    ensures
        r@.len() == n,
{
    let mut r: Vec<Complex> = Vec::new();
    let mut i: usize = 0;
    while i < n
        invariant
            i <= n,
            r@.len() == i,
        decreases n - i,
    {
        r.push(Complex::zero());
        i += 1;
    }
    r
}

/// Split a block of even length into its even-indexed and odd-indexed
/// halves, preserving relative order within each.
#[verifier::loop_isolation(false)]
pub(crate) fn split_parity(input: &Vec<Complex>) -> (r: (Vec<Complex>, Vec<Complex>))
    requires
        input@.len() % 2 == 0,
    ensures
        r.0@.len() == input@.len() / 2,
        r.1@.len() == input@.len() / 2,
        cseq(r.0@) == evens(cseq(input@)),
        cseq(r.1@) == odds(cseq(input@)),
{
    let half = input.len() / 2;
    let mut evens_half: Vec<Complex> = Vec::new();
    let mut odds_half: Vec<Complex> = Vec::new();
    let mut i: usize = 0;
    while i < half
        invariant
            i <= half,
            evens_half@.len() == i,
            odds_half@.len() == i,
            forall|j: int| 0 <= j < i ==> #[trigger] evens_half@[j] == input@[2 * j],
            forall|j: int| 0 <= j < i ==> #[trigger] odds_half@[j] == input@[2 * j + 1],
        decreases half - i,
    {
        evens_half.push(input[2 * i]);
        odds_half.push(input[2 * i + 1]);
        i += 1;
    }
    proof {
        assert(cseq(evens_half@) =~= evens(cseq(input@)));
        assert(cseq(odds_half@) =~= odds(cseq(input@)));
    }
    (evens_half, odds_half)
}

/// The executable transform: the reference recursive kernel. It splits
/// the input by parity into fresh buffers, transforms the halves, and
/// combines them over the full half-range of twiddle factors, writing
/// every bin of `output`.
#[verifier::loop_isolation(false)]
pub fn fft_recursive(input: &Vec<Complex>, output: &mut Vec<Complex>)
    requires
        is_pow2(input@.len()),
        input@.len() <= MAX_FFT_SIZE,
        old(output)@.len() == input@.len(),
        seq_bounded(cseq(input@), INPUT_MAX as int),
    ensures
        final(output)@.len() == input@.len(),
        cseq(final(output)@) == spec_fft(cseq(input@)),
    decreases input@.len(),
{
    let n = input.len();
    let ghost gs = cseq(input@);
    if n == 1 {
        let c = input[0];
        output.set(0, c);
        proof {
            assert(cseq(output@) =~= spec_fft(gs));
        }
        return ;
    }
    let half = n / 2;

    let (evens_in, odds_in) = split_parity(input);
    let mut evens_out: Vec<Complex> = zero_block(half);
    let mut odds_out: Vec<Complex> = zero_block(half);

    fft_recursive(&evens_in, &mut evens_out);
    fft_recursive(&odds_in, &mut odds_out);

    let ghost e = spec_fft(evens(gs));
    let ghost o = spec_fft(odds(gs));
    let ghost res = spec_fft(gs);
    let ghost hb = fft_growth((n / 2) as nat, INPUT_MAX as int);
    proof {
        lemma_spec_fft_bounded(evens(gs), INPUT_MAX as int);
        lemma_spec_fft_bounded(odds(gs), INPUT_MAX as int);
        lemma_spec_fft_len(evens(gs));
        lemma_spec_fft_len(odds(gs));
        lemma_spec_fft_len(gs);
        lemma_fft_growth_cap((n / 2) as nat);
        lemma_fft_growth_pos((n / 2) as nat, INPUT_MAX as int);
    }

    let mut k: usize = 0;
    while k < half
        invariant
            k <= half,
            output@.len() == n,
            forall|j: int| 0 <= j < k ==> #[trigger] output@[j]@ == res[j],
            forall|j: int| half <= j < half + k ==> #[trigger] output@[j]@ == res[j],
        decreases half - k,
    {
        let w = twiddle_factor(k, n);
        let ev = evens_out[k];
        let od = odds_out[k];
        proof {
            assert(ev@ == e[k as int] && od@ == o[k as int]);
            assert(c_bounded(od@, hb));
            assert(c_bounded(ev@, hb));
            lemma_mul_scaled_bounded(w@, od@, hb);
        }
        let t = od.scaled_mul(w);
        let hi = ev.plus(t);
        let lo = ev.minus(t);
        proof {
            assert(res[k as int] == c_add(
                e[k as int],
                c_mul_scaled(twiddle(k as int, n as int), o[k as int]),
            ));
            assert(res[k as int + half as int] == c_sub(
                e[k as int],
                c_mul_scaled(twiddle(k as int, n as int), o[k as int]),
            ));
        }
        output.set(k, hi);
        output.set(k + half, lo);
        k += 1;
    }
    proof {
        assert(cseq(output@) =~= res);
    }
}

/// Real amplitudes promoted to complex values with zero imaginary part.
pub open spec fn promote(s: Seq<int>) -> Seq<ComplexInt> {
    Seq::new(s.len(), |i: int| ComplexInt { re: s[i], im: 0 })
}

/// The real parts of a sequence of complex values; the imaginary parts
/// are discarded.
pub open spec fn reals_of(s: Seq<ComplexInt>) -> Seq<int> {
    Seq::new(s.len(), |i: int| s[i].re)
}

/// The real-input transform: promote, transform, keep the real parts.
/// This is deliberately the real part of each bin, not its magnitude.
pub open spec fn spec_real_fft(s: Seq<int>) -> Seq<int> {
    reals_of(spec_fft(promote(s)))
}

/// Every element of `s` has magnitude at most `b`.
pub open spec fn reals_bounded(s: Seq<int>, b: int) -> bool {
    forall|i: int| 0 <= i < s.len() ==> -b <= #[trigger] s[i] <= b
}

/// The displayable half of a spectrum: only the first `n/2` bins (DC
/// through Nyquist) carry independent information for a real input, and
/// the negative and positive components of each frequency are merged by
/// taking the absolute value of the bin's real part. An approximation
/// of the magnitude, kept as documented behavior, not a defect.
pub open spec fn spec_half_magnitudes(s: Seq<int>) -> Seq<int> {
    Seq::new(
        s.len() / 2,
        |i: int|
            if s[i] < 0 {
                -s[i]
            } else {
                s[i]
            },
    )
}

/// The displayable half of a spectrum, executable.
pub fn half_magnitudes(spectrum: &Vec<i64>) -> (r: Vec<i64>)
    requires
        forall|i: int| 0 <= i < spectrum@.len() ==> #[trigger] spectrum@[i] > i64::MIN,
    ensures
        r@.len() == spectrum@.len() / 2,
        iseq(r@) == spec_half_magnitudes(iseq(spectrum@)),
{
    let n = spectrum.len() / 2;
    let mut r: Vec<i64> = Vec::new();
    let mut i: usize = 0;
    while i < n
        invariant
            i <= n,
            n == spectrum@.len() / 2,
            r@.len() == i,
            forall|j: int| 0 <= j < spectrum@.len() ==> #[trigger] spectrum@[j] > i64::MIN,
            forall|j: int|
                0 <= j < i ==> #[trigger] r@[j] as int == spec_half_magnitudes(iseq(spectrum@))[j],
        decreases n - i,
    {
        let v = spectrum[i];
        if v < 0 {
            r.push(-v);
        } else {
            r.push(v);
        }
        i += 1;
    }
    proof {
        assert(iseq(r@) =~= spec_half_magnitudes(iseq(spectrum@)));
    }
    r
}

/// The sum of a sequence of complex values.
pub open spec fn csum(s: Seq<ComplexInt>) -> ComplexInt
    decreases s.len(),
{
    if s.len() == 0 {
        ComplexInt { re: 0, im: 0 }
    } else {
        c_add(csum(s.drop_last()), s.last())
    }
}

/// Splitting a sequence of even length by index parity splits its sum.
pub proof fn lemma_interleave_sum(s: Seq<ComplexInt>)
    requires
        s.len() % 2 == 0,
    ensures
        csum(s) == c_add(csum(evens(s)), csum(odds(s))),
    decreases s.len(),
{
    if s.len() == 0 {
        assert(evens(s) =~= Seq::<ComplexInt>::empty());
        assert(odds(s) =~= Seq::<ComplexInt>::empty());
    } else {
        reveal_with_fuel(csum, 3);
        let n = s.len() as int;
        let s2 = s.take(n - 2);
        lemma_interleave_sum(s2);
        assert(evens(s) =~= evens(s2).push(s[n - 2]));
        assert(odds(s) =~= odds(s2).push(s[n - 1]));
        assert(evens(s).drop_last() =~= evens(s2));
        assert(odds(s).drop_last() =~= odds(s2));
        assert(s.drop_last().drop_last() =~= s2);
        assert(csum(s.drop_last()) == c_add(csum(s2), s[n - 2]));
        assert(csum(evens(s)) == c_add(csum(evens(s2)), s[n - 2]));
        assert(csum(odds(s)) == c_add(csum(odds(s2)), s[n - 1]));
    }
}

/// Multiplying by the zero-angle twiddle factor is exact: the factor is
/// exactly 1 at the fixed-point scale, and the final truncation undoes
/// the scale with no loss.
pub proof fn lemma_mul_scaled_one(v: ComplexInt)
    ensures
        c_mul_scaled(ComplexInt { re: SCALE as int, im: 0 }, v) == v,
{
    assert(SCALE as int * v.re == v.re * SCALE as int) by (nonlinear_arith);
    assert(SCALE as int * v.im == v.im * SCALE as int) by (nonlinear_arith);
    lemma_tdiv_exact(v.re, SCALE as int);
    lemma_tdiv_exact(v.im, SCALE as int);
}

/// LAW (trivial base case): the transform of a single element is that
/// element, exactly.
pub proof fn lemma_fft_base(s: Seq<ComplexInt>)
    requires
        s.len() == 1,
    ensures
        spec_fft(s) == s,
{
}

/// LAW (DC bin): for every power-of-two length, bin 0 of the transform
/// is the exact sum of the inputs — every twiddle factor that touches
/// bin 0 is exactly 1, so no rounding occurs on this path.
pub proof fn lemma_fft_dc(s: Seq<ComplexInt>)
    requires
        is_pow2(s.len()),
    ensures
        spec_fft(s)[0] == csum(s),
    decreases s.len(),
{
    if s.len() == 1 {
        reveal_with_fuel(csum, 2);
        assert(s.drop_last() =~= Seq::<ComplexInt>::empty());
        assert(csum(s) == c_add(ComplexInt { re: 0, im: 0 }, s[0]));
        assert(spec_fft(s)[0] == s[0]);
    } else {
        let n = s.len() as int;
        lemma_fft_dc(evens(s));
        lemma_fft_dc(odds(s));
        lemma_spec_fft_len(evens(s));
        lemma_spec_fft_len(odds(s));
        lemma_interleave_sum(s);
        lemma_twiddle_zero(n);
        lemma_mul_scaled_one(spec_fft(odds(s))[0]);
        assert(spec_fft(s)[0] == c_add(
            spec_fft(evens(s))[0],
            c_mul_scaled(twiddle(0, n), spec_fft(odds(s))[0]),
        ));
    }
}

/// The sum of a sequence of real amplitudes.
pub open spec fn isum(s: Seq<int>) -> int
    decreases s.len(),
{
    if s.len() == 0 {
        0
    } else {
        isum(s.drop_last()) + s.last()
    }
}

/// Promotion turns the real sum into the complex sum.
pub proof fn lemma_promote_sum(s: Seq<int>)
    ensures
        csum(promote(s)) == (ComplexInt { re: isum(s), im: 0 }),
    decreases s.len(),
{
    if s.len() == 0 {
    } else {
        lemma_promote_sum(s.drop_last());
        assert(promote(s).drop_last() =~= promote(s.drop_last()));
    }
}

/// LAW (DC component): for every power-of-two length, the first bin of
/// the real-input transform is exactly the sum of the input samples.
pub proof fn lemma_real_fft_dc(s: Seq<int>)
    requires
        is_pow2(s.len()),
    ensures
        spec_real_fft(s)[0] == isum(s),
{
    lemma_fft_dc(promote(s));
    lemma_promote_sum(s);
    lemma_spec_fft_len(promote(s));
}

} // verus!
