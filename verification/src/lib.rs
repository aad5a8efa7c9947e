//! Sound-source tracking for a four-microphone array on a pan/tilt bracket:
//! channel separation, cross-correlation, lag-to-bearing lookup, the servo
//! control law, and the framed serial protocol between device and host.

pub mod accumulator;
pub mod channels;
pub mod cmd;
pub mod cobs;
pub mod consts;
pub mod delay;
pub mod doa;
pub mod format;
pub mod lag_table;
pub mod mic_array;
pub mod pan_tilt;
pub mod scheduler;
pub mod taken;
pub mod tasks;
pub mod uarte;
pub mod xcorr;
