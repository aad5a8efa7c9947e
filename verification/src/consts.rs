//! The build-time configuration of the device: the geometry of the array and
//! the sizes that follow from it.

use crate::lag_table::lags_size;
use vstd::prelude::*;

verus! {

/// Sample period in microseconds.
pub const T_S_US: u32 = 37;

/// Distance between the two microphones of a pair, in millimetres.
pub const D_MICS_MM: u32 = 125;

/// Number of frames in a batch of samples.
pub const SAMPLE_BUF_SIZE: usize = 1024;

/// Number of lags that the cross-correlation evaluates, which is also the
/// number of entries of the lag table.
pub const XCORR_LEN: usize = 19;

/// The correlation window is the one that the geometry calls for, and a
/// batch is long enough to fill it.
pub proof fn lemma_sizes_match_geometry()
    ensures
        XCORR_LEN == lags_size(T_S_US as int, D_MICS_MM as int),
        XCORR_LEN <= 2 * SAMPLE_BUF_SIZE - 1,
        SAMPLE_BUF_SIZE == crate::format::SAMPLE_BUF_SIZE,
{
    assert((T_S_US as int) * 343 == 12691);
    assert((D_MICS_MM as int) * 1000 == 125000);
    assert(125000int / 12691int == 9);
}

} // verus!
