//! Direction of arrival: from two microphone series to a bearing.

use crate::lag_table::lag_to_angle;
use crate::xcorr::{
    calc_lag, correlation, is_correlation_of, is_first_peak, peak_lag, MAX_SIGNAL_LEN,
};
use vstd::prelude::*;

verus! {

/// Largest correlation window whose lags fit the 32-bit lag of the table
/// lookup.
pub const MAX_XCORR_LEN: usize = 0x7fff_ffff;

/// The bearing that `table` holds for the lag at which `y` best matches
/// `x`, within a window of as many lags as the table has entries.
pub open spec fn bearing(x: Seq<i16>, y: Seq<i16>, table: Seq<u32>) -> u32 {
    table[peak_lag(x, y, table.len()) + (table.len() / 2) as int]
}

/// The bearing, in degrees, of the source heard by the microphone pair `x`,
/// `y`.
///
/// Fills `buf` with the cross-correlation of the two series, takes the lag of
/// its peak and looks it up as [`lag_to_angle`] does. The table has one entry
/// per entry of the correlation window, and an odd number of them, so the
/// bearing is the table's entry at the index of the peak: the index of the
/// largest correlation, the first one if several are equally large.
pub fn calc_angle<
    const T_S_US: u32,
    const D_MICS_MM: u32,
    const XCORR_LEN: usize,
    const SIGNAL_LEN: usize,
>(
    x: &[i16; SIGNAL_LEN],
    y: &[i16; SIGNAL_LEN],
    buf: &mut [i64; XCORR_LEN],
    lag_table: &[u32; XCORR_LEN],
) -> (angle: u32)
    requires
        1 <= SIGNAL_LEN <= MAX_SIGNAL_LEN,
        XCORR_LEN <= 2 * SIGNAL_LEN - 1,
        XCORR_LEN <= MAX_XCORR_LEN,
        XCORR_LEN % 2 == 1,
    ensures
        is_correlation_of(final(buf)@, x@, y@),
        final(buf)@ == correlation(x@, y@, XCORR_LEN as nat),
        is_first_peak(final(buf)@, peak_lag(x@, y@, XCORR_LEN as nat) + XCORR_LEN / 2),
        angle == lag_table[peak_lag(x@, y@, XCORR_LEN as nat) + XCORR_LEN / 2],
        angle == bearing(x@, y@, lag_table@),
{
    let lag: i32 = calc_lag(x, y, buf) as i32;
    lag_to_angle::<T_S_US, D_MICS_MM, XCORR_LEN>(lag, lag_table)
}

} // verus!
