//! The lag of a signal against a delayed copy of itself.
//!
//! If the second channel is the first one delayed by `d` samples, and the
//! delay pushes nothing but silence out of the recording, the correlation at
//! lag `d` is the energy of the signal, and every other lag correlates the
//! signal with a shifted copy of itself, which gives strictly less.

use crate::xcorr::{
    correlation, correlation_prefix, cross_correlation, first_peak, is_correlation_of,
    is_first_peak, lemma_correlation_is, lemma_first_peak_is, peak_lag, sample_or_zero,
};
use vstd::prelude::*;

verus! {

/// Whether `y` is `x` delayed by `d` samples, with silence where the delay
/// reaches outside `x`.
pub open spec fn is_delayed_copy(y: Seq<i16>, x: Seq<i16>, d: int) -> bool {
    &&& y.len() == x.len()
    &&& forall|i: int| 0 <= i < y.len() ==> (#[trigger] y[i]) as int == sample_or_zero(x, i - d)
}

/// Whether a delay of `d` samples keeps all of `x` within the recording:
/// every sample that would leave it is silent.
pub open spec fn survives_delay(x: Seq<i16>, d: int) -> bool {
    forall|m: int| 0 <= m < x.len() && !(0 <= m + d < x.len()) ==> #[trigger] x[m] == 0
}

/// Whether `x` is not silent throughout.
pub open spec fn is_audible(x: Seq<i16>) -> bool {
    exists|m: int| 0 <= m < x.len() && #[trigger] x[m] != 0
}

/// Sum of the squares of `n` samples of `x` from index `k` on, with silence
/// outside `x`.
pub open spec fn energy_prefix(x: Seq<i16>, k: int, n: nat) -> int
    decreases n,
{
    if n == 0 {
        0
    } else {
        energy_prefix(x, k, (n - 1) as nat) + sample_or_zero(x, n - 1 + k) * sample_or_zero(
            x,
            n - 1 + k,
        )
    }
}

/// Sum of the squares of all samples of `x`.
pub open spec fn energy(x: Seq<i16>) -> int {
    energy_prefix(x, 0, x.len())
}

/// Twice a product is at most the sum of the squares, and less where the
/// factors differ.
proof fn lemma_product_below_squares(a: int, b: int)
    ensures
        2 * (a * b) <= a * a + b * b,
        a != b ==> 2 * (a * b) < a * a + b * b,
        a * a >= 0,
        a != 0 ==> a * a >= 1,
{
    assert((a - b) * (a - b) >= 0) by (nonlinear_arith);
    assert(2 * (a * b) <= a * a + b * b) by (nonlinear_arith)
        requires
            (a - b) * (a - b) >= 0,
    ;
    if a != b {
        assert((a - b) * (a - b) >= 1) by (nonlinear_arith)
            requires
                a != b,
        ;
        assert(2 * (a * b) < a * a + b * b) by (nonlinear_arith)
            requires
                (a - b) * (a - b) >= 1,
        ;
    }
    assert(a * a >= 0) by (nonlinear_arith);
    if a != 0 {
        assert(a * a >= 1) by (nonlinear_arith)
            requires
                a != 0,
        ;
    }
}

/// Energy never decreases as more samples are taken in.
proof fn lemma_energy_grows(x: Seq<i16>, k: int, n1: nat, n2: nat)
    requires
        n1 <= n2,
    ensures
        0 <= energy_prefix(x, k, n1) <= energy_prefix(x, k, n2),
    decreases n2,
{
    if n2 > 0 {
        lemma_product_below_squares(sample_or_zero(x, n2 - 1 + k), 0);
        if n1 < n2 {
            lemma_energy_grows(x, k, n1, (n2 - 1) as nat);
        } else {
            lemma_energy_grows(x, k, (n1 - 1) as nat, (n2 - 1) as nat);
        }
    }
}

/// Past the end of `x` there is no more energy to take in.
proof fn lemma_energy_is_complete(x: Seq<i16>, n: nat)
    requires
        n >= x.len(),
    ensures
        energy_prefix(x, 0, n) == energy(x),
    decreases n,
{
    if n > x.len() {
        lemma_energy_is_complete(x, (n - 1) as nat);
    }
}

/// The energy of the first `k + n` samples is that of the first `k` and
/// that of the `n` after them.
proof fn lemma_energy_splits(x: Seq<i16>, k: nat, n: nat)
    ensures
        energy_prefix(x, 0, k + n) == energy_prefix(x, 0, k) + energy_prefix(x, k as int, n),
    decreases n,
{
    if n > 0 {
        lemma_energy_splits(x, k, (n - 1) as nat);
        assert((k + n - 1) as nat == k + (n - 1) as nat);
    }
}

/// Samples taken from before the start of `x` add nothing.
proof fn lemma_energy_from_before(x: Seq<i16>, k: int, n: nat)
    requires
        k <= 0,
    ensures
        energy_prefix(x, k, n) == energy_prefix(
            x,
            0,
            if n + k > 0 {
                (n + k) as nat
            } else {
                0
            },
        ),
    decreases n,
{
    if n > 0 {
        lemma_energy_from_before(x, k, (n - 1) as nat);
    }
}

/// No window of the length of `x` holds more than the energy of `x`.
proof fn lemma_window_energy(x: Seq<i16>, k: int)
    ensures
        energy_prefix(x, k, x.len()) <= energy(x),
{
    let len = x.len();
    if k >= 0 {
        lemma_energy_splits(x, k as nat, len);
        lemma_energy_is_complete(x, k as nat + len);
        lemma_energy_grows(x, 0, 0, k as nat);
    } else {
        lemma_energy_from_before(x, k, len);
        let kept: nat = if len + k > 0 {
            (len + k) as nat
        } else {
            0
        };
        lemma_energy_grows(x, 0, kept, len);
    }
}

/// A signal that is audible has energy.
proof fn lemma_audible_has_energy(x: Seq<i16>, m: int, n: nat)
    requires
        0 <= m < n <= x.len(),
        x[m] != 0,
    ensures
        energy_prefix(x, 0, n) >= 1,
    decreases n,
{
    lemma_energy_grows(x, 0, 0, (n - 1) as nat);
    if m == n - 1 {
        lemma_product_below_squares(x[m] as int, 0);
    } else {
        lemma_audible_has_energy(x, m, (n - 1) as nat);
        lemma_product_below_squares(sample_or_zero(x, n - 1), 0);
    }
}

/// At lag zero a signal correlates with itself to its energy.
proof fn lemma_self_correlation_is_energy(x: Seq<i16>, n: nat)
    requires
        n <= x.len(),
    ensures
        correlation_prefix(x, x, 0, n) == energy_prefix(x, 0, n),
    decreases n,
{
    if n > 0 {
        lemma_self_correlation_is_energy(x, (n - 1) as nat);
    }
}

/// Twice the correlation of a signal with a shifted copy of itself is at
/// most the energy of the signal plus that of the copy, and less once a
/// sample that differs from its shifted partner has been taken in.
proof fn lemma_shifted_correlation_bound(x: Seq<i16>, k: int, n: nat, w: int)
    requires
        n <= x.len(),
        0 <= w < x.len(),
        x[w] as int != sample_or_zero(x, w + k),
    ensures
        2 * correlation_prefix(x, x, k, n) <= energy_prefix(x, 0, n) + energy_prefix(x, k, n),
        w < n ==> 2 * correlation_prefix(x, x, k, n) < energy_prefix(x, 0, n) + energy_prefix(
            x,
            k,
            n,
        ),
    decreases n,
{
    if n > 0 {
        lemma_shifted_correlation_bound(x, k, (n - 1) as nat, w);
        let a = x[n - 1] as int;
        let b = sample_or_zero(x, n - 1 + k);
        lemma_product_below_squares(a, b);
        assert(sample_or_zero(x, n - 1 + 0) == a);
    }
}

/// A signal that equals its copy shifted forward is silent from `m` on.
proof fn lemma_forward_shift_silences(x: Seq<i16>, k: int, m: int)
    requires
        k > 0,
        0 <= m < x.len(),
        forall|i: int| 0 <= i < x.len() ==> (#[trigger] x[i]) as int == sample_or_zero(x, i + k),
    ensures
        x[m] == 0,
    decreases x.len() - m,
{
    if m + k < x.len() {
        lemma_forward_shift_silences(x, k, m + k);
    }
}

/// A signal that equals its copy shifted backward is silent up to `m`.
proof fn lemma_backward_shift_silences(x: Seq<i16>, k: int, m: int)
    requires
        k < 0,
        0 <= m < x.len(),
        forall|i: int| 0 <= i < x.len() ==> (#[trigger] x[i]) as int == sample_or_zero(x, i + k),
    ensures
        x[m] == 0,
    decreases m,
{
    if m + k >= 0 {
        lemma_backward_shift_silences(x, k, m + k);
    }
}

/// An audible signal correlates with any shifted copy of itself to less
/// than its energy.
pub proof fn lemma_shifted_copy_correlates_less(x: Seq<i16>, k: int)
    requires
        is_audible(x),
        k != 0,
    ensures
        cross_correlation(x, x, k) < energy(x),
        cross_correlation(x, x, 0) == energy(x),
        energy(x) >= 1,
{
    let loud = choose|m: int| 0 <= m < x.len() && #[trigger] x[m] != 0;
    lemma_audible_has_energy(x, loud, x.len());
    lemma_self_correlation_is_energy(x, x.len());
    if forall|i: int| 0 <= i < x.len() ==> (#[trigger] x[i]) as int == sample_or_zero(x, i + k) {
        if k > 0 {
            lemma_forward_shift_silences(x, k, loud);
        } else {
            lemma_backward_shift_silences(x, k, loud);
        }
    } else {
        let w = choose|i: int|
            0 <= i < x.len() && (#[trigger] x[i]) as int != sample_or_zero(x, i + k);
        lemma_shifted_correlation_bound(x, k, x.len(), w);
        lemma_window_energy(x, k);
    }
}

/// Against a delayed copy, the correlation at a lag is the correlation of
/// the signal with itself at that lag less the delay.
proof fn lemma_delay_shifts_correlation(x: Seq<i16>, y: Seq<i16>, d: int, lag: int, n: nat)
    requires
        is_delayed_copy(y, x, d),
        survives_delay(x, d),
        n <= x.len(),
    ensures
        correlation_prefix(x, y, lag, n) == correlation_prefix(x, x, lag - d, n),
    decreases n,
{
    if n > 0 {
        lemma_delay_shifts_correlation(x, y, d, lag, (n - 1) as nat);
        let j = n - 1 + lag;
        if 0 <= j < y.len() {
            assert(y[j] as int == sample_or_zero(x, j - d));
        } else if 0 <= j - d < x.len() {
            assert(x[j - d] == 0);
        }
        assert(sample_or_zero(y, j) == sample_or_zero(x, n - 1 + (lag - d)));
    }
}

/// The lag of a pure delay is the delay.
///
/// Let `y` be `x` delayed by `d` samples, where `x` is audible and the delay
/// pushes nothing but silence out of the recording, and let `d` be among the
/// lags that the correlation window `out` covers. Then the peak of the
/// correlation of `x` against `y` is at lag `d`, and it is the only one.
pub proof fn lemma_lag_of_delayed_copy(out: Seq<i64>, x: Seq<i16>, y: Seq<i16>, d: int)
    requires
        is_correlation_of(out, x, y),
        is_delayed_copy(y, x, d),
        survives_delay(x, d),
        is_audible(x),
        -(out.len() / 2) <= d < out.len() - out.len() / 2,
    ensures
        is_first_peak(out, d + out.len() / 2),
        first_peak(out) == d + out.len() / 2,
        peak_lag(x, y, out.len()) == d,
        out[d + out.len() / 2] as int == energy(x),
        forall|n: int|
            0 <= n < out.len() && n != d + out.len() / 2 ==> (#[trigger] out[n]) < out[d
                + out.len() / 2],
{
    let half = (out.len() / 2) as int;
    let peak = d + half;
    lemma_shifted_copy_correlates_less(x, 1);
    assert(out[peak] as int == cross_correlation(x, y, peak - half));
    lemma_delay_shifts_correlation(x, y, d, d, x.len());
    assert(out[peak] as int == energy(x));
    assert forall|n: int| 0 <= n < out.len() && n != peak implies (#[trigger] out[n])
        < out[peak] by {
        assert(out[n] as int == cross_correlation(x, y, n - half));
        lemma_delay_shifts_correlation(x, y, d, n - half, x.len());
        lemma_shifted_copy_correlates_less(x, n - half - d);
    }
    assert(out[peak] > 0);
    lemma_first_peak_is(out, peak);
    lemma_correlation_is(out, x, y);
}

} // verus!
