//! What each task of the device decides, apart from the hardware that it
//! drives: the caller hands in what it read and carries out what comes back.

use crate::accumulator::{drained, CobsAccumulator, FeedEvent};
use crate::channels::{centered, Channels};
use crate::doa::{bearing, calc_angle};
use crate::format::{DeviceToServer, SampleBuffer, ServerToDevice, SAMPLE_BUF_SIZE};
use crate::lag_table::{gen_lag_table, lag_table, lags_size};
use crate::mic_array::MicArray;
use crate::pan_tilt::{clamped, PanTilt, PAN_LIMIT_DEG, TILT_LIMIT_DEG};
use crate::uarte::{Uarte, RX_BUFFER_SIZE};
use vstd::prelude::*;

verus! {

/// The bearing straight ahead of a microphone pair, in degrees.
pub const BROADSIDE_DEG: i32 = 90;

/// The goal of an axis after a command that may or may not name it.
pub open spec fn commanded_goal(field: Option<i32>, goal: int, limit: int) -> int {
    match field {
        Some(degrees) => clamped(degrees as int, limit),
        None => goal,
    }
}

/// Applies a command from the host: sets the goals that it names, arms or
/// disarms capture if it says so, and answers with the goals of the bracket.
pub fn handle_message(
    pan_tilt: &mut PanTilt,
    mic_array: &mut MicArray,
    msg: ServerToDevice,
) -> (reply: DeviceToServer)
    ensures
        final(pan_tilt).pan_goal() == commanded_goal(
            msg.pan_degrees,
            old(pan_tilt).pan_goal(),
            PAN_LIMIT_DEG as int,
        ),
        final(pan_tilt).tilt_goal() == commanded_goal(
            msg.tilt_degrees,
            old(pan_tilt).tilt_goal(),
            TILT_LIMIT_DEG as int,
        ),
        final(pan_tilt).pan_angle() == old(pan_tilt).pan_angle(),
        final(pan_tilt).tilt_angle() == old(pan_tilt).tilt_angle(),
        final(mic_array).sampling() == (match msg.set_sampling_enabled {
            Some(enabled) => enabled,
            None => old(mic_array).sampling(),
        }),
        final(mic_array).ready() == old(mic_array).ready(),
        final(mic_array).active() == old(mic_array).active(),
        reply is PanTilt,
        reply->PanTilt_0.pan_deg == final(pan_tilt).pan_goal(),
        reply->PanTilt_0.tilt_deg == final(pan_tilt).tilt_goal(),
{
    if let Some(degrees) = msg.pan_degrees {
        pan_tilt.pan_to_deg(degrees);
    }
    if let Some(degrees) = msg.tilt_degrees {
        pan_tilt.tilt_to_deg(degrees);
    }
    match msg.set_sampling_enabled {
        Some(true) => mic_array.start_sampling_task(),
        Some(false) => mic_array.stop_sampling_task(),
        None => {},
    }
    DeviceToServer::PanTilt(pan_tilt.status())
}

/// Handles a complete batch: disarms capture, swaps the buffers, and returns
/// the batch as the message to send and as the four centred channels to
/// compute on.
pub fn on_saadc(mic_array: &mut MicArray) -> (captured: (
    DeviceToServer,
    Channels<SAMPLE_BUF_SIZE>,
))
    ensures
        !final(mic_array).sampling(),
        final(mic_array).ready() == old(mic_array).active(),
        final(mic_array).active() == old(mic_array).ready(),
        captured.0 == DeviceToServer::Samples(old(mic_array).active()),
        captured.1.ch1@ == centered(old(mic_array).active().0@, 0),
        captured.1.ch2@ == centered(old(mic_array).active().0@, 1),
        captured.1.ch3@ == centered(old(mic_array).active().0@, 2),
        captured.1.ch4@ == centered(old(mic_array).active().0@, 3),
{
    mic_array.stop_sampling_task();
    let batch: SampleBuffer = *mic_array.get_newest_samples();
    let channels = Channels::from_samples(batch.0);
    (DeviceToServer::Samples(batch), channels)
}

/// Computes where the source is relative to straight ahead: the bearing of
/// the first pair less 90 degrees, for the pan axis, and 90 degrees less the
/// bearing of the second pair, for the tilt axis.
pub fn on_samples<const T_S_US: u32, const D_MICS_MM: u32, const XCORR_LEN: usize>(
    channels: &Channels<SAMPLE_BUF_SIZE>,
    lag_table: &[u32; XCORR_LEN],
) -> (offsets: (i32, i32))
    requires
        XCORR_LEN <= 2 * SAMPLE_BUF_SIZE - 1,
        XCORR_LEN % 2 == 1,
        forall|i: int| 0 <= i < XCORR_LEN ==> lag_table[i] <= 180,
    ensures
        offsets.0 == bearing(channels.ch1@, channels.ch2@, lag_table@) - BROADSIDE_DEG,
        offsets.1 == BROADSIDE_DEG - bearing(channels.ch3@, channels.ch4@, lag_table@),
{
    let mut buf: [i64; XCORR_LEN] = [0i64; XCORR_LEN];
    let x_angle: u32 = calc_angle::<T_S_US, D_MICS_MM, XCORR_LEN, SAMPLE_BUF_SIZE>(
        &channels.ch1,
        &channels.ch2,
        &mut buf,
        lag_table,
    );
    let y_angle: u32 = calc_angle::<T_S_US, D_MICS_MM, XCORR_LEN, SAMPLE_BUF_SIZE>(
        &channels.ch3,
        &channels.ch4,
        &mut buf,
        lag_table,
    );
    (x_angle as i32 - BROADSIDE_DEG, -(y_angle as i32 - BROADSIDE_DEG))
}

/// Turns the bracket by the given offsets: each goal becomes the current
/// angle of its axis plus the offset, held to the travel of the axis.
pub fn move_bracket(pan_tilt: &mut PanTilt, pan_offset: i32, tilt_offset: i32)
    ensures
        final(pan_tilt).pan_goal() == clamped(
            pan_offset + old(pan_tilt).pan_angle(),
            PAN_LIMIT_DEG as int,
        ),
        final(pan_tilt).tilt_goal() == clamped(
            tilt_offset + old(pan_tilt).tilt_angle(),
            TILT_LIMIT_DEG as int,
        ),
        final(pan_tilt).pan_angle() == old(pan_tilt).pan_angle(),
        final(pan_tilt).tilt_angle() == old(pan_tilt).tilt_angle(),
{
    pan_tilt.pan_with_deg(pan_offset);
    pan_tilt.tilt_with_deg(tilt_offset);
}

/// Takes in what the last receive transfer brought, `amount` bytes, and
/// returns what it completed: the commands, and word of every frame lost.
pub fn read_uarte0<const N: usize>(
    uarte: &Uarte,
    accumulator: &mut CobsAccumulator<N>,
    amount: usize,
) -> (events: Vec<FeedEvent<ServerToDevice>>)
    requires
        amount <= RX_BUFFER_SIZE,
    ensures
        events@ == drained::<ServerToDevice>(
            old(accumulator).buffered(),
            uarte.rx_contents().subrange(0, amount as int),
            N as int,
        ).0,
        final(accumulator).buffered() == drained::<ServerToDevice>(
            old(accumulator).buffered(),
            uarte.rx_contents().subrange(0, amount as int),
            N as int,
        ).1,
{
    let chunk: &[u8] = uarte.get_rx_chunk(amount);
    accumulator.drain(chunk)
}

/// The bearing of the source in a batch of samples that the host received,
/// from the first microphone pair, for the given geometry.
pub fn batch_angle<const T_S_US: u32, const D_MICS_MM: u32, const SIZE: usize>(
    samples: &SampleBuffer,
) -> (angle: u32)
    requires
        T_S_US > 0,
        D_MICS_MM > 0,
        SIZE == lags_size(T_S_US as int, D_MICS_MM as int),
        SIZE <= 2 * SAMPLE_BUF_SIZE - 1,
    ensures
        angle == bearing(
            centered(samples.0@, 0),
            centered(samples.0@, 1),
            lag_table(T_S_US as int, D_MICS_MM as int),
        ),
        angle <= 180,
{
    let lag_table: [u32; SIZE] = gen_lag_table::<T_S_US, D_MICS_MM, SIZE>();
    let mut buf: [i64; SIZE] = [0i64; SIZE];
    let channels = Channels::from_samples(samples.0);
    let angle: u32 = calc_angle::<T_S_US, D_MICS_MM, SIZE, SAMPLE_BUF_SIZE>(
        &channels.ch1,
        &channels.ch2,
        &mut buf,
        &lag_table,
    );
    angle
}

} // verus!
