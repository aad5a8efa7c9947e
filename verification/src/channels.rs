//! Separation of a batch of four-microphone frames into one series per
//! microphone, each with its mean removed.

use crate::format::MicArraySample;
use vstd::prelude::*;

verus! {

/// Largest batch length for which the running sum of a channel provably fits
/// a 64-bit accumulator.
pub const MAX_BATCH_LEN: usize = 0xffff_ffff;

/// Sum of channel `ch` over the first `n` frames.
pub open spec fn channel_sum(samples: Seq<MicArraySample>, ch: int, n: nat) -> int
    decreases n,
{
    if n == 0 {
        0
    } else {
        channel_sum(samples, ch, (n - 1) as nat) + samples[n - 1][ch] as int
    }
}

/// Quotient of `a` by a positive `b`, rounded toward zero.
pub open spec fn div_toward_zero(a: int, b: int) -> int {
    if a >= 0 {
        a / b
    } else {
        -((-a) / b)
    }
}

/// Arithmetic mean of channel `ch` over the whole batch, rounded toward zero.
pub open spec fn channel_mean(samples: Seq<MicArraySample>, ch: int) -> int {
    div_toward_zero(channel_sum(samples, ch, samples.len()), samples.len() as int)
}

/// `a - b`, held to the range of a 16-bit signed sample.
pub open spec fn saturating_difference(a: int, b: int) -> int {
    if a - b > i16::MAX {
        i16::MAX as int
    } else if a - b < i16::MIN {
        i16::MIN as int
    } else {
        a - b
    }
}

/// Whether `series` is channel `ch` of `samples` with the channel's mean
/// subtracted from every sample, saturating at the 16-bit limits.
pub open spec fn is_centered_channel(
    series: Seq<i16>,
    samples: Seq<MicArraySample>,
    ch: int,
) -> bool {
    &&& series.len() == samples.len()
    &&& forall|i: int|
        0 <= i < series.len() ==> #[trigger] series[i] as int == saturating_difference(
            samples[i][ch] as int,
            channel_mean(samples, ch),
        )
}

/// Channel `ch` of `samples` with the channel's mean subtracted from every
/// sample, saturating at the 16-bit limits.
pub open spec fn centered(samples: Seq<MicArraySample>, ch: int) -> Seq<i16> {
    Seq::new(
        samples.len(),
        |i: int|
            saturating_difference(samples[i][ch] as int, channel_mean(samples, ch)) as i16,
    )
}

/// A series that is a centred channel is the centred channel.
pub proof fn lemma_centered_is(series: Seq<i16>, samples: Seq<MicArraySample>, ch: int)
    requires
        is_centered_channel(series, samples, ch),
    ensures
        series == centered(samples, ch),
{
    assert(series =~= centered(samples, ch));
}

/// A channel's running sum is bounded by the number of frames times the
/// 16-bit range.
pub proof fn lemma_channel_sum_bound(samples: Seq<MicArraySample>, ch: int, n: nat)
    requires
        0 <= ch < 4,
        n <= samples.len(),
    ensures
        -(n * 0x8000) <= channel_sum(samples, ch, n) <= n * 0x7fff,
    decreases n,
{
    if n > 0 {
        lemma_channel_sum_bound(samples, ch, (n - 1) as nat);
    }
}

/// The mean of 16-bit samples is itself a 16-bit value.
pub proof fn lemma_channel_mean_bound(samples: Seq<MicArraySample>, ch: int)
    requires
        0 <= ch < 4,
        samples.len() >= 1,
    ensures
        i16::MIN <= channel_mean(samples, ch) <= i16::MAX,
{
    let n = samples.len() as int;
    let s = channel_sum(samples, ch, samples.len());
    lemma_channel_sum_bound(samples, ch, samples.len());
    if s >= 0 {
        assert(s / n <= 0x7fff) by (nonlinear_arith)
            requires
                0 <= s <= n * 0x7fff,
                n >= 1,
        ;
        assert(s / n >= 0) by (nonlinear_arith)
            requires
                0 <= s,
                n >= 1,
        ;
    } else {
        let t = -s;
        assert(t / n <= 0x8000) by (nonlinear_arith)
            requires
                0 <= t <= n * 0x8000,
                n >= 1,
        ;
        assert(t / n >= 0) by (nonlinear_arith)
            requires
                0 <= t,
                n >= 1,
        ;
    }
}

/// Four microphone series of equal length, one per channel of the array.
pub struct Channels<const SIGNAL_LEN: usize> {
    pub ch1: [i16; SIGNAL_LEN],
    pub ch2: [i16; SIGNAL_LEN],
    pub ch3: [i16; SIGNAL_LEN],
    pub ch4: [i16; SIGNAL_LEN],
}

/// Difference of two samples, saturating at the 16-bit limits.
fn saturating_sub(a: i16, b: i16) -> (d: i16)
    ensures
        d as int == saturating_difference(a as int, b as int),
{
    let wide: i32 = a as i32 - b as i32;
    if wide > 0x7fff {
        0x7fff
    } else if wide < -0x8000 {
        -0x8000
    } else {
        wide as i16
    }
}

/// Extracts channel `ch` of a batch and removes its mean.
fn centered_channel<const SIGNAL_LEN: usize>(
    samples: &[MicArraySample; SIGNAL_LEN],
    ch: usize,
) -> (series: [i16; SIGNAL_LEN])
    requires
        ch < 4,
        1 <= SIGNAL_LEN <= MAX_BATCH_LEN,
    ensures
        is_centered_channel(series@, samples@, ch as int),
{
    let mut total: i64 = 0;
    let mut i: usize = 0;
    while i < SIGNAL_LEN
        invariant
            i <= SIGNAL_LEN,
            ch < 4,
            1 <= SIGNAL_LEN <= MAX_BATCH_LEN,
            total as int == channel_sum(samples@, ch as int, i as nat),
        decreases SIGNAL_LEN - i,
    {
        proof {
            lemma_channel_sum_bound(samples@, ch as int, i as nat);
        }
        total = total + samples[i][ch] as i64;
        i = i + 1;
    }
    proof {
        lemma_channel_sum_bound(samples@, ch as int, SIGNAL_LEN as nat);
        lemma_channel_mean_bound(samples@, ch as int);
    }
    let len: i64 = SIGNAL_LEN as i64;
    let mean_wide: i64 = if total >= 0 {
        total / len
    } else {
        -((-total) / len)
    };
    let mean: i16 = mean_wide as i16;
    let mut series: [i16; SIGNAL_LEN] = [0i16; SIGNAL_LEN];
    let mut j: usize = 0;
    while j < SIGNAL_LEN
        invariant
            j <= SIGNAL_LEN,
            ch < 4,
            mean as int == channel_mean(samples@, ch as int),
            forall|k: int|
                0 <= k < j ==> #[trigger] series[k] as int == saturating_difference(
                    samples[k][ch as int] as int,
                    mean as int,
                ),
        decreases SIGNAL_LEN - j,
    {
        let centered: i16 = saturating_sub(samples[j][ch], mean);
        series[j] = centered;
        j = j + 1;
    }
    series
}

impl<const SIGNAL_LEN: usize> Channels<SIGNAL_LEN> {
    /// Splits a batch of frames into its four channels and subtracts from
    /// every sample the mean of its channel, so that each series is centred
    /// on zero.
    ///
    /// The mean is the channel's sum divided by the batch length, rounded
    /// toward zero; the subtraction saturates rather than wraps.
    pub fn from_samples(samples: [MicArraySample; SIGNAL_LEN]) -> (chans: Self)
        requires
            1 <= SIGNAL_LEN <= MAX_BATCH_LEN,
        ensures
            chans.ch1@ == centered(samples@, 0),
            chans.ch2@ == centered(samples@, 1),
            chans.ch3@ == centered(samples@, 2),
            chans.ch4@ == centered(samples@, 3),
    {
        let chans = Channels {
            ch1: centered_channel(&samples, 0),
            ch2: centered_channel(&samples, 1),
            ch3: centered_channel(&samples, 2),
            ch4: centered_channel(&samples, 3),
        };
        proof {
            lemma_centered_is(chans.ch1@, samples@, 0);
            lemma_centered_is(chans.ch2@, samples@, 1);
            lemma_centered_is(chans.ch3@, samples@, 2);
            lemma_centered_is(chans.ch4@, samples@, 3);
        }
        chans
    }
}

} // verus!
