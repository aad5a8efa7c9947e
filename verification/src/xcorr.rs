//! Time-domain cross-correlation of two microphone channels and the lag of
//! its peak.
//!
//! The correlation is computed directly, one sliding dot product per lag,
//! with samples outside a channel treated as silence. An output buffer of
//! `n` entries covers the lags `-(n / 2) ..= n - 1 - n / 2`, so that entry
//! `n / 2` holds the correlation at lag zero.

use vstd::prelude::*;

verus! {

/// Largest number of samples per channel for which a 64-bit accumulator
/// provably holds every sum of products of two 16-bit samples.
pub const MAX_SIGNAL_LEN: usize = 0xffff_ffff;

/// Sample `i` of `s`, or silence where `i` lies outside the recording.
pub open spec fn sample_or_zero(s: Seq<i16>, i: int) -> int {
    if 0 <= i < s.len() {
        s[i] as int
    } else {
        0
    }
}

/// Sum over the first `m` samples of `x` of `x[k] * y[k + lag]`, with `y`
/// zero-padded on both sides.
pub open spec fn correlation_prefix(x: Seq<i16>, y: Seq<i16>, lag: int, m: nat) -> int
    decreases m,
{
    if m == 0 {
        0
    } else {
        correlation_prefix(x, y, lag, (m - 1) as nat) + (x[m - 1] as int) * sample_or_zero(
            y,
            m - 1 + lag,
        )
    }
}

/// Cross-correlation of `x` against `y` at the given lag.
pub open spec fn cross_correlation(x: Seq<i16>, y: Seq<i16>, lag: int) -> int {
    correlation_prefix(x, y, lag, x.len())
}

/// Sum of `x[k] * y[k]` over the first `m` samples.
pub open spec fn dot_prefix(x: Seq<i16>, y: Seq<i16>, m: nat) -> int
    decreases m,
{
    if m == 0 {
        0
    } else {
        dot_prefix(x, y, (m - 1) as nat) + (x[m - 1] as int) * (y[m - 1] as int)
    }
}

/// Dot product of two recordings of equal length.
pub open spec fn dot_product(x: Seq<i16>, y: Seq<i16>) -> int {
    dot_prefix(x, y, x.len())
}

/// Whether `k` is the peak of `out`: the index of its largest entry, and
/// the first such index if several entries are equally large. An empty
/// buffer has its peak at index zero.
pub open spec fn is_first_peak(out: Seq<i64>, k: int) -> bool {
    if out.len() == 0 {
        k == 0
    } else {
        &&& 0 <= k < out.len()
        &&& forall|n: int| 0 <= n < out.len() ==> out[n] <= out[k]
        &&& forall|n: int| 0 <= n < k ==> out[n] < out[k]
    }
}

/// Whether `out` holds the cross-correlation of `x` against `y`, centred so
/// that entry `out.len() / 2` is lag zero.
pub open spec fn is_correlation_of(out: Seq<i64>, x: Seq<i16>, y: Seq<i16>) -> bool {
    forall|n: int|
        0 <= n < out.len() ==> #[trigger] out[n] as int == cross_correlation(
            x,
            y,
            n - (out.len() / 2) as int,
        )
}

/// The cross-correlation of `x` against `y` over a window of `len` lags
/// centred on lag zero.
pub open spec fn correlation(x: Seq<i16>, y: Seq<i16>, len: nat) -> Seq<i64> {
    Seq::new(len, |n: int| cross_correlation(x, y, n - (len / 2) as int) as i64)
}

/// The lag at which `y` best matches `x` within a window of `len` lags: the
/// first peak of their cross-correlation, counted from the window's centre.
pub open spec fn peak_lag(x: Seq<i16>, y: Seq<i16>, len: nat) -> int {
    first_peak(correlation(x, y, len)) - (len / 2) as int
}

/// A buffer that holds the cross-correlation is the cross-correlation.
pub proof fn lemma_correlation_is(out: Seq<i64>, x: Seq<i16>, y: Seq<i16>)
    requires
        is_correlation_of(out, x, y),
    ensures
        out == correlation(x, y, out.len()),
{
    assert(out =~= correlation(x, y, out.len()));
}

/// At most one index is the first peak of a buffer.
pub proof fn lemma_first_peak_unique(out: Seq<i64>, j: int, k: int)
    requires
        is_first_peak(out, j),
        is_first_peak(out, k),
    ensures
        j == k,
{
    if out.len() > 0 {
        if j < k {
            assert(out[j] < out[k]);
            assert(out[k] <= out[j]);
        } else if k < j {
            assert(out[k] < out[j]);
            assert(out[j] <= out[k]);
        }
    }
}

/// The index of the peak of `out`; see [`is_first_peak`].
pub open spec fn first_peak(out: Seq<i64>) -> int {
    choose|k: int| is_first_peak(out, k)
}

/// An index that satisfies [`is_first_peak`] is the one [`first_peak`] names.
pub proof fn lemma_first_peak_is(out: Seq<i64>, k: int)
    requires
        is_first_peak(out, k),
    ensures
        first_peak(out) == k,
{
    lemma_first_peak_unique(out, first_peak(out), k);
}

/// Each partial correlation sum is bounded by the number of terms times the
/// largest product of two 16-bit samples.
pub proof fn lemma_correlation_prefix_bound(x: Seq<i16>, y: Seq<i16>, lag: int, m: nat)
    requires
        m <= x.len(),
    ensures
        -(m * 0x4000_0000) <= correlation_prefix(x, y, lag, m) <= m * 0x4000_0000,
    decreases m,
{
    if m > 0 {
        lemma_correlation_prefix_bound(x, y, lag, (m - 1) as nat);
        let a = x[m - 1] as int;
        let b = sample_or_zero(y, m - 1 + lag);
        lemma_product_bound(a, b);
    }
}

/// The product of two 16-bit values has magnitude at most `2^30`.
pub proof fn lemma_product_bound(a: int, b: int)
    requires
        -0x8000 <= a <= 0x7fff,
        -0x8000 <= b <= 0x7fff,
    ensures
        -0x4000_0000 <= a * b <= 0x4000_0000,
{
    assert(-0x4000_0000 <= a * b <= 0x4000_0000) by (nonlinear_arith)
        requires
            -0x8000 <= a <= 0x7fff,
            -0x8000 <= b <= 0x7fff,
    ;
}

/// At lag zero the correlation sum and the dot product agree term by term.
pub proof fn lemma_zero_lag_prefix(x: Seq<i16>, y: Seq<i16>, m: nat)
    requires
        m <= x.len(),
        x.len() == y.len(),
    ensures
        correlation_prefix(x, y, 0, m) == dot_prefix(x, y, m),
    decreases m,
{
    if m > 0 {
        lemma_zero_lag_prefix(x, y, (m - 1) as nat);
    }
}

/// The centre entry of a correlation buffer is the zero-lag dot product of
/// the two recordings, whatever the buffer's length.
pub proof fn lemma_center_is_dot_product(out: Seq<i64>, x: Seq<i16>, y: Seq<i16>)
    requires
        x.len() == y.len(),
        out.len() >= 1,
        is_correlation_of(out, x, y),
    ensures
        out[(out.len() / 2) as int] as int == dot_product(x, y),
{
    let c = (out.len() / 2) as int;
    assert(out[c] as int == cross_correlation(x, y, c - (out.len() / 2) as int));
    lemma_zero_lag_prefix(x, y, x.len());
}

/// Computes the cross-correlation of `x` against `y` into `out` and returns
/// the index of its peak.
///
/// Whatever `out` held before is overwritten. Entry `n` receives the sum over
/// `m` of `x[m] * y[n + m - XCORR_LEN / 2]`, where terms whose `y` index falls
/// outside the recording contribute nothing. The returned index is that of
/// the largest entry; the scan runs from left to right and moves only on a
/// strictly greater value, so the first of several equal peaks wins.
pub fn xcorr_real<const XCORR_LEN: usize, const SIGNAL_LEN: usize>(
    x: &[i16; SIGNAL_LEN],
    y: &[i16; SIGNAL_LEN],
    out: &mut [i64; XCORR_LEN],
) -> (argmax: usize)
    requires
        1 <= SIGNAL_LEN <= MAX_SIGNAL_LEN,
        XCORR_LEN <= 2 * SIGNAL_LEN - 1,
    ensures
        is_correlation_of(final(out)@, x@, y@),
        final(out)@ == correlation(x@, y@, XCORR_LEN as nat),
        is_first_peak(final(out)@, argmax as int),
        argmax == first_peak(final(out)@),
        XCORR_LEN >= 1 ==> argmax < XCORR_LEN,
        XCORR_LEN >= 1 ==> final(out)[(XCORR_LEN / 2) as int] as int == dot_product(x@, y@),
{
    let half: usize = XCORR_LEN / 2;
    let mut argmax: usize = 0;
    let mut max: i64 = 0;
    let mut n: usize = 0;
    while n < XCORR_LEN
        invariant
            n <= XCORR_LEN,
            half == XCORR_LEN / 2,
            1 <= SIGNAL_LEN <= MAX_SIGNAL_LEN,
            XCORR_LEN <= 2 * SIGNAL_LEN - 1,
            forall|j: int|
                0 <= j < n ==> #[trigger] out[j] as int == cross_correlation(x@, y@, j - half),
            n == 0 ==> argmax == 0,
            n > 0 ==> argmax < n && out[argmax as int] == max,
            forall|j: int| 0 <= j < argmax ==> out[j] < max,
            forall|j: int| 0 <= j < n ==> out[j] <= max,
        decreases XCORR_LEN - n,
    {
        let mut acc: i64 = 0;
        let mut m: usize = 0;
        while m < SIGNAL_LEN
            invariant
                m <= SIGNAL_LEN,
                n < XCORR_LEN,
                half == XCORR_LEN / 2,
                1 <= SIGNAL_LEN <= MAX_SIGNAL_LEN,
                XCORR_LEN <= 2 * SIGNAL_LEN - 1,
                acc as int == correlation_prefix(x@, y@, n - half, m as nat),
            decreases SIGNAL_LEN - m,
        {
            let x_val: i64 = x[m] as i64;
            let k: u64 = n as u64 + m as u64;
            let y_val: i64 = if k >= half as u64 && k - (half as u64) < SIGNAL_LEN as u64 {
                y[(k - half as u64) as usize] as i64
            } else {
                0
            };
            proof {
                assert(y_val as int == sample_or_zero(y@, m + (n - half)));
                lemma_product_bound(x_val as int, y_val as int);
                lemma_correlation_prefix_bound(x@, y@, n - half, m as nat);
            }
            acc = acc + x_val * y_val;
            m = m + 1;
        }
        let ghost before = out@;
        out[n] = acc;
        proof {
            assert(forall|j: int| 0 <= j < n ==> out[j] == before[j]);
        }
        if n == 0 || acc > max {
            max = acc;
            argmax = n;
        }
        n = n + 1;
    }
    proof {
        if XCORR_LEN >= 1 {
            lemma_center_is_dot_product(out@, x@, y@);
        }
        lemma_first_peak_is(out@, argmax as int);
        lemma_correlation_is(out@, x@, y@);
    }
    argmax
}

/// The lag, in samples, at which `y` best matches `x`.
///
/// Fills `buf` with the cross-correlation as [`xcorr_real`] does and returns
/// the peak's index shifted so that the centre of the buffer is lag zero.
pub fn calc_lag<const XCORR_LEN: usize, const SIGNAL_LEN: usize>(
    x: &[i16; SIGNAL_LEN],
    y: &[i16; SIGNAL_LEN],
    buf: &mut [i64; XCORR_LEN],
) -> (lag: isize)
    requires
        1 <= SIGNAL_LEN <= MAX_SIGNAL_LEN,
        XCORR_LEN <= 2 * SIGNAL_LEN - 1,
    ensures
        is_correlation_of(final(buf)@, x@, y@),
        is_first_peak(final(buf)@, lag + XCORR_LEN / 2),
        final(buf)@ == correlation(x@, y@, XCORR_LEN as nat),
        lag == peak_lag(x@, y@, XCORR_LEN as nat),
        -(XCORR_LEN / 2) <= lag,
        XCORR_LEN >= 1 ==> lag + XCORR_LEN / 2 < XCORR_LEN,
{
    let argmax: usize = xcorr_real(x, y, buf);
    let lag_offset: usize = XCORR_LEN / 2;
    if argmax >= lag_offset {
        (argmax - lag_offset) as isize
    } else {
        -((lag_offset - argmax) as isize)
    }
}

} // verus!
