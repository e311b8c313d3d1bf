//! Reusable transform engines.
//!
//! An engine owns two complex scratch buffers sized at construction, so
//! the steady-state loop — one `real_fft` call per rendered frame —
//! allocates nothing. Interchangeable backends stand behind the one
//! `FastFourierTransform` contract; each promises exactly the sequence
//! `spec_fft` describes, so a caller cannot tell them apart by their
//! output.

use vstd::prelude::*;

use crate::complex::{
    c_add, c_bounded, c_mul_scaled, c_sub, cseq, iseq, seq_bounded, Complex, ComplexInt,
};
use crate::errors::SpectralizerError;
use crate::fft::{
    evens, fft_growth, fft_recursive, is_pow2, lemma_fft_growth_cap, lemma_fft_growth_pos,
    lemma_mul_scaled_bounded, lemma_spec_fft_bounded, lemma_spec_fft_len, odds, promote,
    reals_bounded, reals_of, spec_fft, spec_real_fft, split_parity, zero_block, INPUT_MAX,
    MAX_FFT_SIZE,
};
use crate::trig::{lemma_twiddle_bounded, twiddle};

verus! {

/// A reusable transform engine of a fixed power-of-two block size.
///
/// `fft` transforms one complex block; `real_fft` promotes a real block
/// through the engine's own scratch buffers, transforms it, and writes
/// back the real part of every bin. Both leave the result equal to the
/// one sequence `spec_fft` describes, whatever the backend: the output
/// of a call depends on that call's input alone, never on what an
/// earlier call left in the scratch buffers.
pub trait FastFourierTransform: Sized {
    /// The engine's buffers are consistent with its size.
    spec fn valid(&self) -> bool;

    /// The fixed block size chosen at construction.
    spec fn size(&self) -> nat;

    /// The block size, executable.
    fn block_size(&self) -> (n: usize)
        requires
            self.valid(),
        ensures
            n as nat == self.size(),
    ;

    /// Transform one complex block of the engine's size.
    fn fft(&self, input: &Vec<Complex>, output: &mut Vec<Complex>)
        requires
            self.valid(),
            input@.len() == self.size(),
            old(output)@.len() == self.size(),
            seq_bounded(cseq(input@), INPUT_MAX as int),
        ensures
            final(output)@.len() == input@.len(),
            cseq(final(output)@) == spec_fft(cseq(input@)),
    ;

    /// Transform one real block of the engine's size, reusing the
    /// engine's scratch buffers; the output holds the real part of each
    /// bin.
    fn real_fft(&mut self, input: &Vec<i64>, output: &mut Vec<i64>)
        requires
            old(self).valid(),
            input@.len() == old(self).size(),
            old(output)@.len() == old(self).size(),
            reals_bounded(iseq(input@), INPUT_MAX as int),
        ensures
            final(self).valid(),
            final(self).size() == old(self).size(),
            final(output)@.len() == input@.len(),
            iseq(final(output)@) == spec_real_fft(iseq(input@)),
    ;
}

/// Whether `n` is a power of two, executable: strip factors of two and
/// see whether 1 remains.
pub fn check_pow2(n: usize) -> (r: bool)
    ensures
        r == is_pow2(n as nat),
{
    if n == 0 {
        return false;
    }
    let mut m: usize = n;
    while m > 1 && m % 2 == 0
        invariant
            1 <= m <= n,
            is_pow2(n as nat) == is_pow2(m as nat),
        decreases m,
    {
        m = m / 2;
    }
    m == 1
}

/// Fill a complex scratch block with real amplitudes, imaginary parts
/// zero.
#[verifier::loop_isolation(false)]
fn promote_block(input: &Vec<i64>, scratch: &mut Vec<Complex>)
    requires
        old(scratch)@.len() == input@.len(),
    ensures
        final(scratch)@.len() == input@.len(),
        cseq(final(scratch)@) == promote(iseq(input@)),
{
    let n = input.len();
    let mut i: usize = 0;
    while i < n
        invariant
            i <= n,
            scratch@.len() == n,
            forall|j: int|
                0 <= j < i ==> #[trigger] scratch@[j]@ == (ComplexInt {
                    re: input@[j] as int,
                    im: 0,
                }),
        decreases n - i,
    {
        let v = input[i];
        scratch.set(i, Complex { re: v, im: 0 });
        i += 1;
    }
    proof {
        assert(cseq(scratch@) =~= promote(iseq(input@)));
    }
}

/// Amplitudes in range stay in range under promotion.
proof fn lemma_promote_bounded(s: Seq<int>, b: int)
    requires
        reals_bounded(s, b),
        b >= 0,
    ensures
        seq_bounded(promote(s), b),
{
    assert forall|i: int| 0 <= i < promote(s).len() implies c_bounded(#[trigger] promote(s)[i], b)
        by {}
}

/// Copy the real part of every transformed bin into the real output
/// block; the imaginary parts are discarded.
#[verifier::loop_isolation(false)]
fn extract_reals(scratch: &Vec<Complex>, output: &mut Vec<i64>)
    requires
        old(output)@.len() == scratch@.len(),
    ensures
        final(output)@.len() == scratch@.len(),
        iseq(final(output)@) == reals_of(cseq(scratch@)),
{
    let n = scratch.len();
    let mut i: usize = 0;
    while i < n
        invariant
            i <= n,
            output@.len() == n,
            forall|j: int| 0 <= j < i ==> #[trigger] output@[j] == scratch@[j].re,
        decreases n - i,
    {
        let c = scratch[i];
        output.set(i, c.re);
        i += 1;
    }
    proof {
        assert(iseq(output@) =~= reals_of(cseq(scratch@)));
    }
}

/// The reference backend: the recursive kernel, written for clarity,
/// allocating its even and odd halves at each recursion level.
pub struct SpectralizerFFT {
    size: usize,
    complex_input_buf: Vec<Complex>,
    complex_output_buf: Vec<Complex>,
}

impl SpectralizerFFT {
    /// A new engine for blocks of `size` samples. The power-of-two
    /// invariant is checked here, once, not per call.
    pub fn new(size: usize) -> (r: SpectralizerFFT)
        requires
            is_pow2(size as nat),
            size <= MAX_FFT_SIZE,
        ensures
            r.valid(),
            r.size() == size,
    {
        SpectralizerFFT {
            size,
            complex_input_buf: zero_block(size),
            complex_output_buf: zero_block(size),
        }
    }

    /// A new engine, with the construction invariant tested at run
    /// time: refused sizes fail fast instead of building a broken
    /// engine.
    pub fn try_new(size: usize) -> (r: Result<SpectralizerFFT, SpectralizerError>)
        ensures
            match r {
                Ok(engine) => is_pow2(size as nat) && size <= MAX_FFT_SIZE && engine.valid()
                    && engine.size() == size,
                Err(e) => {
                    &&& !(is_pow2(size as nat) && size <= MAX_FFT_SIZE)
                    &&& e == SpectralizerError::NotPowerOfTwo <==> !is_pow2(size as nat)
                    &&& e == SpectralizerError::BlockTooLarge <==> (is_pow2(size as nat) && size
                        > MAX_FFT_SIZE)
                },
            },
    {
        if !check_pow2(size) {
            Err(SpectralizerError::NotPowerOfTwo)
        } else if size > MAX_FFT_SIZE {
            Err(SpectralizerError::BlockTooLarge)
        } else {
            Ok(SpectralizerFFT::new(size))
        }
    }
}

impl FastFourierTransform for SpectralizerFFT {
    closed spec fn valid(&self) -> bool {
        &&& is_pow2(self.size as nat)
        &&& self.size <= MAX_FFT_SIZE
        &&& self.complex_input_buf@.len() == self.size
        &&& self.complex_output_buf@.len() == self.size
    }

    closed spec fn size(&self) -> nat {
        self.size as nat
    }

    fn block_size(&self) -> (n: usize) {
        self.size
    }

    fn fft(&self, input: &Vec<Complex>, output: &mut Vec<Complex>) {
        fft_recursive(input, output);
    }

    fn real_fft(&mut self, input: &Vec<i64>, output: &mut Vec<i64>) {
        promote_block(input, &mut self.complex_input_buf);
        proof {
            lemma_promote_bounded(iseq(input@), INPUT_MAX as int);
        }
        fft_recursive(&self.complex_input_buf, &mut self.complex_output_buf);
        extract_reals(&self.complex_output_buf, output);
    }
}

/// The recursive kernel with a precomputed twiddle table. A transform
/// of size `n` at `stride` within a full size `N == n * stride` uses
/// the factors `twiddle(k, n) == twiddle(k * stride, N)`, so one table
/// of `N/2` factors serves every recursion level.
#[verifier::loop_isolation(false)]
fn fft_with_plan(twiddles: &Vec<Complex>, stride: usize, input: &Vec<Complex>, output: &mut Vec<
    Complex,
>)
    requires
        is_pow2(input@.len()),
        stride >= 1,
        input@.len() * stride <= MAX_FFT_SIZE,
        old(output)@.len() == input@.len(),
        seq_bounded(cseq(input@), INPUT_MAX as int),
        input@.len() >= 2 ==> 2 * twiddles@.len() == input@.len() * stride,
        input@.len() >= 2 ==> forall|j: int|
            0 <= j < twiddles@.len() ==> #[trigger] twiddles@[j]@ == crate::trig::twiddle(
                j,
                (input@.len() * stride) as int,
            ),
    ensures
        final(output)@.len() == input@.len(),
        cseq(final(output)@) == spec_fft(cseq(input@)),
    decreases input@.len(),
{
    let n = input.len();
    let ghost gs = cseq(input@);
    if n == 1 {
        let c = input[0];
        output.set(0, c);
        proof {
            assert(cseq(output@) =~= spec_fft(gs));
        }
        return ;
    }
    let half = n / 2;

    let (evens_in, odds_in) = split_parity(input);
    proof {
        assert(half * (2 * stride) == n * stride) by (nonlinear_arith)
            requires
                n % 2 == 0,
                half == n / 2,
        ;
        assert(2 * stride <= n * stride) by (nonlinear_arith)
            requires
                n >= 2,
                stride >= 1,
        ;
    }

    let mut evens_out: Vec<Complex> = zero_block(half);
    let mut odds_out: Vec<Complex> = zero_block(half);

    fft_with_plan(twiddles, 2 * stride, &evens_in, &mut evens_out);
    fft_with_plan(twiddles, 2 * stride, &odds_in, &mut odds_out);

    let ghost e = spec_fft(evens(gs));
    let ghost o = spec_fft(odds(gs));
    let ghost res = spec_fft(gs);
    let ghost hb = fft_growth((n / 2) as nat, INPUT_MAX as int);
    proof {
        lemma_spec_fft_bounded(evens(gs), INPUT_MAX as int);
        lemma_spec_fft_bounded(odds(gs), INPUT_MAX as int);
        lemma_spec_fft_len(evens(gs));
        lemma_spec_fft_len(odds(gs));
        assert(n <= n * stride) by (nonlinear_arith)
            requires
                stride >= 1,
                n >= 0,
        ;
        lemma_spec_fft_len(gs);
        lemma_fft_growth_cap((n / 2) as nat);
        lemma_fft_growth_pos((n / 2) as nat, INPUT_MAX as int);
    }

    let mut k: usize = 0;
    while k < half
        invariant
            k <= half,
            output@.len() == n,
            forall|j: int| 0 <= j < k ==> #[trigger] output@[j]@ == res[j],
            forall|j: int| half <= j < half + k ==> #[trigger] output@[j]@ == res[j],
        decreases half - k,
    {
        proof {
            assert(k * stride < twiddles@.len() && 2 * (k * stride) <= n * stride)
                by (nonlinear_arith)
                requires
                    0 <= k < half,
                    stride >= 1,
                    2 * half == n,
                    2 * twiddles@.len() == n * stride,
            ;
        }
        let w = twiddles[k * stride];
        proof {
            crate::trig::lemma_twiddle_common_factor(k as int, n as int, stride as int);
            assert((k * stride) as int == k as int * stride as int);
            assert(w@ == twiddle(k as int, n as int));
            lemma_twiddle_bounded(k as int, n as int);
        }
        let ev = evens_out[k];
        let od = odds_out[k];
        proof {
            assert(ev@ == e[k as int] && od@ == o[k as int]);
            assert(c_bounded(od@, hb));
            assert(c_bounded(ev@, hb));
            lemma_mul_scaled_bounded(w@, od@, hb);
        }
        let t = od.scaled_mul(w);
        let hi = ev.plus(t);
        let lo = ev.minus(t);
        proof {
            assert(res[k as int] == c_add(
                e[k as int],
                c_mul_scaled(twiddle(k as int, n as int), o[k as int]),
            ));
            assert(res[k as int + half as int] == c_sub(
                e[k as int],
                c_mul_scaled(twiddle(k as int, n as int), o[k as int]),
            ));
        }
        output.set(k, hi);
        output.set(k + half, lo);
        k += 1;
    }
    proof {
        assert(cseq(output@) =~= res);
    }
}

/// The performance backend: the same transform, with every twiddle
/// factor precomputed once at construction instead of recomputed on
/// every call of every recursion level.
pub struct PlannedFFT {
    size: usize,
    twiddles: Vec<Complex>,
    complex_input_buf: Vec<Complex>,
    complex_output_buf: Vec<Complex>,
}

impl PlannedFFT {
    /// A new engine for blocks of `size` samples, with its twiddle
    /// table filled at construction.
    pub fn new(size: usize) -> (r: PlannedFFT)
        requires
            is_pow2(size as nat),
            size <= MAX_FFT_SIZE,
        ensures
            r.valid(),
            r.size() == size,
    {
        let half = size / 2;
        let mut tw: Vec<Complex> = Vec::new();
        let mut k: usize = 0;
        while k < half
            invariant
                k <= half,
                half == size / 2,
                size >= 1,
                2 * size <= crate::trig::MAX_DENOM,
                tw@.len() == k,
                forall|j: int|
                    0 <= j < k ==> #[trigger] tw@[j]@ == crate::trig::twiddle(j, size as int),
            decreases half - k,
        {
            tw.push(crate::trig::twiddle_factor(k, size));
            k += 1;
        }
        PlannedFFT {
            size,
            twiddles: tw,
            complex_input_buf: zero_block(size),
            complex_output_buf: zero_block(size),
        }
    }

    /// A new engine, with the construction invariant tested at run
    /// time.
    pub fn try_new(size: usize) -> (r: Result<PlannedFFT, SpectralizerError>)
        ensures
            match r {
                Ok(engine) => is_pow2(size as nat) && size <= MAX_FFT_SIZE && engine.valid()
                    && engine.size() == size,
                Err(e) => {
                    &&& !(is_pow2(size as nat) && size <= MAX_FFT_SIZE)
                    &&& e == SpectralizerError::NotPowerOfTwo <==> !is_pow2(size as nat)
                    &&& e == SpectralizerError::BlockTooLarge <==> (is_pow2(size as nat) && size
                        > MAX_FFT_SIZE)
                },
            },
    {
        if !check_pow2(size) {
            Err(SpectralizerError::NotPowerOfTwo)
        } else if size > MAX_FFT_SIZE {
            Err(SpectralizerError::BlockTooLarge)
        } else {
            Ok(PlannedFFT::new(size))
        }
    }
}

impl FastFourierTransform for PlannedFFT {
    closed spec fn valid(&self) -> bool {
        &&& is_pow2(self.size as nat)
        &&& self.size <= MAX_FFT_SIZE
        &&& self.complex_input_buf@.len() == self.size
        &&& self.complex_output_buf@.len() == self.size
        &&& self.twiddles@.len() == self.size / 2
        &&& forall|j: int|
            0 <= j < self.twiddles@.len() ==> #[trigger] self.twiddles@[j]@ == crate::trig::twiddle(
                j,
                self.size as int,
            )
    }

    closed spec fn size(&self) -> nat {
        self.size as nat
    }

    fn block_size(&self) -> (n: usize) {
        self.size
    }

    fn fft(&self, input: &Vec<Complex>, output: &mut Vec<Complex>) {
        fft_with_plan(&self.twiddles, 1, input, output);
    }

    fn real_fft(&mut self, input: &Vec<i64>, output: &mut Vec<i64>) {
        promote_block(input, &mut self.complex_input_buf);
        proof {
            lemma_promote_bounded(iseq(input@), INPUT_MAX as int);
        }
        fft_with_plan(&self.twiddles, 1, &self.complex_input_buf, &mut self.complex_output_buf);
        extract_reals(&self.complex_output_buf, output);
    }
}

/// Every amplitude of a complex block fits the transform's range.
fn complex_block_in_range(input: &Vec<Complex>) -> (r: bool)
    ensures
        r == seq_bounded(cseq(input@), INPUT_MAX as int),
{
    let mut i: usize = 0;
    while i < input.len()
        invariant
            i <= input@.len(),
            forall|j: int| 0 <= j < i ==> c_bounded(#[trigger] input@[j]@, INPUT_MAX as int),
        decreases input@.len() - i,
    {
        let c = input[i];
        if c.re > INPUT_MAX || c.re < -INPUT_MAX || c.im > INPUT_MAX || c.im < -INPUT_MAX {
            proof {
                assert(!c_bounded(cseq(input@)[i as int], INPUT_MAX as int));
            }
            return false;
        }
        i += 1;
    }
    proof {
        assert forall|j: int| 0 <= j < cseq(input@).len() implies c_bounded(
            #[trigger] cseq(input@)[j],
            INPUT_MAX as int,
        ) by {}
    }
    true
}

/// Every amplitude of a real block fits the transform's range.
fn real_block_in_range(input: &Vec<i64>) -> (r: bool)
    ensures
        r == reals_bounded(iseq(input@), INPUT_MAX as int),
{
    let mut i: usize = 0;
    while i < input.len()
        invariant
            i <= input@.len(),
            forall|j: int| 0 <= j < i ==> -INPUT_MAX <= #[trigger] input@[j] <= INPUT_MAX,
        decreases input@.len() - i,
    {
        let v = input[i];
        if v > INPUT_MAX || v < -INPUT_MAX {
            proof {
                assert(!(-INPUT_MAX <= iseq(input@)[i as int] <= INPUT_MAX));
            }
            return false;
        }
        i += 1;
    }
    proof {
        assert forall|j: int| 0 <= j < iseq(input@).len() implies -INPUT_MAX as int <= #[trigger] iseq(
            input@,
        )[j] <= INPUT_MAX as int by {}
    }
    true
}

/// `fft` with its preconditions tested at run time: a mismatched or
/// out-of-range call fails fast and leaves the output untouched rather
/// than returning a partially written buffer.
pub fn try_fft<F: FastFourierTransform>(
    engine: &F,
    input: &Vec<Complex>,
    output: &mut Vec<Complex>,
) -> (r: Result<(), SpectralizerError>)
    requires
        engine.valid(),
    ensures
        r is Ok <==> (input@.len() == engine.size() && old(output)@.len() == engine.size()
            && seq_bounded(cseq(input@), INPUT_MAX as int)),
        r == Result::<(), SpectralizerError>::Err(SpectralizerError::LengthMismatch) <==> (
        input@.len() != engine.size() || old(output)@.len() != engine.size()),
        r == Result::<(), SpectralizerError>::Err(SpectralizerError::SampleOutOfRange) <==> (
        input@.len() == engine.size() && old(output)@.len() == engine.size() && !seq_bounded(
            cseq(input@),
            INPUT_MAX as int,
        )),
        r is Ok ==> cseq(final(output)@) == spec_fft(cseq(input@)) && final(output)@.len()
            == input@.len(),
        r is Err ==> final(output)@ == old(output)@,
{
    let n = engine.block_size();
    if input.len() != n || output.len() != n {
        return Err(SpectralizerError::LengthMismatch);
    }
    if !complex_block_in_range(input) {
        return Err(SpectralizerError::SampleOutOfRange);
    }
    engine.fft(input, output);
    Ok(())
}

/// `real_fft` with its preconditions tested at run time: a mismatched
/// or out-of-range call fails fast and leaves both the engine and the
/// output untouched.
pub fn try_real_fft<F: FastFourierTransform>(
    engine: &mut F,
    input: &Vec<i64>,
    output: &mut Vec<i64>,
) -> (r: Result<(), SpectralizerError>)
    requires
        old(engine).valid(),
    ensures
        final(engine).valid(),
        final(engine).size() == old(engine).size(),
        r is Ok <==> (input@.len() == old(engine).size() && old(output)@.len() == old(
            engine,
        ).size() && reals_bounded(iseq(input@), INPUT_MAX as int)),
        r == Result::<(), SpectralizerError>::Err(SpectralizerError::LengthMismatch) <==> (
        input@.len() != old(engine).size() || old(output)@.len() != old(engine).size()),
        r == Result::<(), SpectralizerError>::Err(SpectralizerError::SampleOutOfRange) <==> (
        input@.len() == old(engine).size() && old(output)@.len() == old(engine).size()
            && !reals_bounded(iseq(input@), INPUT_MAX as int)),
        r is Ok ==> iseq(final(output)@) == spec_real_fft(iseq(input@)) && final(output)@.len()
            == input@.len(),
        r is Err ==> final(output)@ == old(output)@ && *final(engine) == *old(engine),
{
    let n = engine.block_size();
    if input.len() != n || output.len() != n {
        return Err(SpectralizerError::LengthMismatch);
    }
    if !real_block_in_range(input) {
        return Err(SpectralizerError::SampleOutOfRange);
    }
    engine.real_fft(input, output);
    Ok(())
}

} // verus!
