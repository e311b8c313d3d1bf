//! The Hamming analysis window.
//!
//! Each sample `x[i]` of a block of `n` samples is multiplied in place
//! by `alpha - beta * cos(2*pi*i/(n-1))`, in fixed point. The endpoints
//! get exactly `alpha - beta` (the cosine of a zero or full angle is
//! exactly 1 at the fixed-point scale), every coefficient lies between
//! `alpha - beta` and `alpha + beta`, and `alpha + beta` is exactly the
//! scale, so windowing never increases a sample's magnitude.
//!
//! Windowing is not inverse-safe: applying it twice is not the
//! identity, and no inverse window is offered.

use vstd::prelude::*;

use crate::arith::{lemma_tdiv_bound, tdiv, tdiv_i64, SCALE};
use crate::errors::SpectralizerError;
use crate::fft::reals_bounded;
use crate::complex::iseq;
use crate::trig::{cos2pi, cos_sin_2pi, lemma_cos_sin_bounded, lemma_twiddle_zero, MAX_DENOM};

verus! {

/// `0.53836` at the fixed-point scale, rounded to nearest.
pub const HAMMING_ALPHA_SCALED: i64 = 564511;

/// `0.46164` at the fixed-point scale, rounded to nearest. The two
/// rounded constants still sum to exactly `SCALE`.
pub const HAMMING_BETA_SCALED: i64 = 484065;

/// Largest window length the executable trigonometry accepts.
pub const MAX_WINDOW_SIZE: usize = 131072;

/// Largest sample magnitude the in-place windowing accepts.
pub const WINDOW_INPUT_MAX: i64 = 0x200_0000_0000;

/// The window coefficient at index `i` of an `n`-sample window:
/// `alpha - beta * cos(2*pi*i/(n-1))` in fixed point.
pub open spec fn hamming_coeff(i: int, n: int) -> int
    recommends
        n >= 2,
        0 <= i < n,
{
    HAMMING_ALPHA_SCALED as int - tdiv(
        HAMMING_BETA_SCALED as int * cos2pi(i, n - 1),
        SCALE as int,
    )
}

/// A whole block after windowing: each sample multiplied by its
/// coefficient and truncated back to the sample scale.
pub open spec fn spec_hamming(s: Seq<int>) -> Seq<int>
    recommends
        s.len() >= 2,
{
    Seq::new(s.len(), |i: int| tdiv(s[i] * hamming_coeff(i, s.len() as int), SCALE as int))
}

/// LAW (window endpoints and range): both endpoint coefficients are
/// exactly `alpha - beta`, and every coefficient lies between
/// `alpha - beta` and `alpha + beta == SCALE`; the interior is largest
/// where the cosine is smallest.
pub proof fn lemma_hamming_coeff_range(i: int, n: int)
    requires
        n >= 2,
        0 <= i < n,
    ensures
        HAMMING_ALPHA_SCALED - HAMMING_BETA_SCALED <= hamming_coeff(i, n)
            <= HAMMING_ALPHA_SCALED + HAMMING_BETA_SCALED,
        HAMMING_ALPHA_SCALED as int + HAMMING_BETA_SCALED as int == SCALE as int,
        i == 0 ==> hamming_coeff(i, n) == HAMMING_ALPHA_SCALED - HAMMING_BETA_SCALED,
        i == n - 1 ==> hamming_coeff(i, n) == HAMMING_ALPHA_SCALED - HAMMING_BETA_SCALED,
{
    lemma_cos_sin_bounded(i, n - 1);
    lemma_tdiv_bound(
        HAMMING_BETA_SCALED as int * cos2pi(i, n - 1),
        SCALE as int,
        HAMMING_BETA_SCALED as int,
    );
    if i == 0 || i == n - 1 {
        lemma_twiddle_zero(n - 1);
        assert(cos2pi(i, n - 1) == SCALE as int);
        crate::arith::lemma_tdiv_exact(HAMMING_BETA_SCALED as int, SCALE as int);
        assert(HAMMING_BETA_SCALED as int * SCALE as int == HAMMING_BETA_SCALED as int * (
        SCALE as int)) by (nonlinear_arith);
    }
}

/// LAW (windowing never amplifies): because every coefficient is at
/// most the scale, the windowed block is bounded wherever the input
/// block was.
pub proof fn lemma_hamming_no_gain(s: Seq<int>, b: int)
    requires
        s.len() >= 2,
        b >= 0,
        reals_bounded(s, b),
    ensures
        reals_bounded(spec_hamming(s), b),
{
    assert forall|i: int| 0 <= i < spec_hamming(s).len() implies -b <= #[trigger] spec_hamming(
        s,
    )[i] <= b by {
        lemma_hamming_coeff_range(i, s.len() as int);
        let c = hamming_coeff(i, s.len() as int);
        assert(-(b * SCALE as int) <= s[i] * c <= b * SCALE as int) by (nonlinear_arith)
            requires
                -b <= s[i] <= b,
                0 <= c <= SCALE as int,
                b >= 0,
        ;
        lemma_tdiv_bound(s[i] * c, SCALE as int, b);
    }
}

/// One window coefficient, executable.
pub fn hamming_coefficient(i: usize, n: usize) -> (c: i64)
    requires
        2 <= n <= MAX_WINDOW_SIZE,
        i < n,
    ensures
        c == hamming_coeff(i as int, n as int),
{
    let (cv, _sv) = cos_sin_2pi(i as u64, (n - 1) as u64);
    proof {
        lemma_cos_sin_bounded(i as int, n as int - 1);
        lemma_tdiv_bound(
            HAMMING_BETA_SCALED as int * cv as int,
            SCALE as int,
            HAMMING_BETA_SCALED as int,
        );
    }
    let prod: i64 = HAMMING_BETA_SCALED * cv;
    HAMMING_ALPHA_SCALED - tdiv_i64(prod, SCALE)
}

/// Apply the Hamming window in place.
#[verifier::loop_isolation(false)]
pub fn hamming_window(x: &mut Vec<i64>)
    requires
        2 <= old(x)@.len() <= MAX_WINDOW_SIZE,
        reals_bounded(iseq(old(x)@), WINDOW_INPUT_MAX as int),
    ensures
        final(x)@.len() == old(x)@.len(),
        iseq(final(x)@) == spec_hamming(iseq(old(x)@)),
{
    let n = x.len();
    let mut i: usize = 0;
    while i < n
        invariant
            i <= n,
            x@.len() == n,
            forall|j: int| i <= j < n ==> #[trigger] x@[j] == old(x)@[j],
            forall|j: int|
                0 <= j < i ==> #[trigger] x@[j] as int == tdiv(
                    old(x)@[j] as int * hamming_coeff(j, n as int),
                    SCALE as int,
                ),
        decreases n - i,
    {
        let c = hamming_coefficient(i, n);
        let v = x[i];
        proof {
            lemma_hamming_coeff_range(i as int, n as int);
            assert(-(WINDOW_INPUT_MAX as int) <= iseq(old(x)@)[i as int] <= WINDOW_INPUT_MAX
                 as int);
            assert(-(WINDOW_INPUT_MAX as int * SCALE as int) <= v as int * c as int <= (
            WINDOW_INPUT_MAX as int * SCALE as int)) by (nonlinear_arith)
                requires
                    -(WINDOW_INPUT_MAX as int) <= v as int <= WINDOW_INPUT_MAX as int,
                    0 <= c as int <= SCALE as int,
            ;
            lemma_tdiv_bound(v as int * c as int, SCALE as int, WINDOW_INPUT_MAX as int);
        }
        let prod: i64 = v * c;
        x.set(i, tdiv_i64(prod, SCALE));
        i += 1;
    }
    proof {
        assert(iseq(x@) =~= spec_hamming(iseq(old(x)@)));
    }
}

/// The Hamming window with its preconditions tested at run time: a
/// degenerate length fails fast (a one-sample window would divide by
/// zero) and the buffer is left untouched.
#[verifier::loop_isolation(false)]
pub fn try_hamming_window(x: &mut Vec<i64>) -> (r: Result<(), SpectralizerError>)
    ensures
        r is Ok <==> (2 <= old(x)@.len() <= MAX_WINDOW_SIZE && reals_bounded(
            iseq(old(x)@),
            WINDOW_INPUT_MAX as int,
        )),
        r == Result::<(), SpectralizerError>::Err(SpectralizerError::WindowTooShort) <==> old(
            x,
        )@.len() < 2,
        r == Result::<(), SpectralizerError>::Err(SpectralizerError::BlockTooLarge) <==> old(
            x,
        )@.len() > MAX_WINDOW_SIZE,
        r == Result::<(), SpectralizerError>::Err(SpectralizerError::SampleOutOfRange) <==> (2 <= old(
            x,
        )@.len() <= MAX_WINDOW_SIZE && !reals_bounded(iseq(old(x)@), WINDOW_INPUT_MAX as int)),
        r is Ok ==> final(x)@.len() == old(x)@.len() && iseq(final(x)@) == spec_hamming(
            iseq(old(x)@),
        ),
        r is Err ==> final(x)@ == old(x)@,
{
    if x.len() < 2 {
        return Err(SpectralizerError::WindowTooShort);
    }
    if x.len() > MAX_WINDOW_SIZE {
        return Err(SpectralizerError::BlockTooLarge);
    }
    let mut i: usize = 0;
    let n = x.len();
    while i < n
        invariant
            i <= n,
            n == x@.len(),
            x@ == old(x)@,
            forall|j: int|
                0 <= j < i ==> -(WINDOW_INPUT_MAX as int) <= #[trigger] x@[j] <= WINDOW_INPUT_MAX
                     as int,
        decreases n - i,
    {
        let v = x[i];
        if v > WINDOW_INPUT_MAX || v < -WINDOW_INPUT_MAX {
            proof {
                assert(!(-(WINDOW_INPUT_MAX as int) <= iseq(x@)[i as int] <= WINDOW_INPUT_MAX
                     as int));
            }
            return Err(SpectralizerError::SampleOutOfRange);
        }
        i += 1;
    }
    proof {
        assert forall|j: int| 0 <= j < iseq(x@).len() implies -(WINDOW_INPUT_MAX as int)
            <= #[trigger] iseq(x@)[j] <= WINDOW_INPUT_MAX as int by {}
    }
    hamming_window(x);
    Ok(())
}

} // verus!
