use folley::accumulator::{to_frame, CobsAccumulator, FeedEvent};
use folley::channels::Channels;
use folley::cmd::{parse_command, Action, Cmd};
use folley::consts::{D_MICS_MM, T_S_US, XCORR_LEN};
use folley::format::{
    DeviceToServer, PanTiltStatus, SampleBuffer, ServerToDevice, SAMPLE_BUF_SIZE,
};
use folley::lag_table::{gen_lag_table, max_lags_size};
use folley::mic_array::{MicArray, SaadcBuffer};
use folley::taken::Taken;
use folley::pan_tilt::PanTilt;
use folley::scheduler::{most_urgent, preempts, priority, Task};
use folley::tasks::{batch_angle, handle_message, move_bracket, on_saadc, on_samples, read_uarte0};
use folley::uarte::{StartTxResult, Uarte, UarteEvent, UarteRxBuffer, RX_BUFFER_SIZE};

fn pan(degrees: i32) -> ServerToDevice {
    ServerToDevice { pan_degrees: Some(degrees), ..ServerToDevice::default() }
}

fn tilt(degrees: i32) -> ServerToDevice {
    ServerToDevice { tilt_degrees: Some(degrees), ..ServerToDevice::default() }
}

fn sampling(enabled: bool) -> ServerToDevice {
    ServerToDevice { set_sampling_enabled: Some(enabled), ..ServerToDevice::default() }
}

fn mic_array() -> MicArray {
    MicArray::new(SaadcBuffer::take(&mut Taken::new()).unwrap())
}

fn uarte() -> Uarte {
    Uarte::init(UarteRxBuffer::take(&mut Taken::new()).unwrap())
}

/// A batch in which the second microphone hears a noise source `lead`
/// samples before the first, and the fourth `lead` samples after the third.
fn batch(lead: usize) -> SampleBuffer {
    let mut state: u64 = 99;
    let mut source: Vec<i16> = Vec::new();
    for _ in 0..SAMPLE_BUF_SIZE + lead {
        state = (state * 1103515245 + 12345) % (1 << 31);
        source.push(((state >> 16) % 4096) as i16);
    }
    let mut frames = [[0i16; 4]; SAMPLE_BUF_SIZE];
    for i in 0..SAMPLE_BUF_SIZE {
        frames[i] = [source[i], source[i + lead], source[i + lead], source[i]];
    }
    SampleBuffer(frames)
}

#[test]
fn lines_of_the_operator() {
    let mut cmd = Cmd::new();
    assert_eq!(cmd.parse_line("pan 45"), Action::SendMessage(pan(45)));
    assert_eq!(cmd.parse_line("pan -7"), Action::SendMessage(pan(-7)));
    assert_eq!(cmd.parse_line("pan +7"), Action::SendMessage(pan(7)));
    assert_eq!(cmd.parse_line("tilt 090"), Action::SendMessage(tilt(90)));
    assert_eq!(cmd.parse_line("tilt 30 now"), Action::SendMessage(tilt(30)));
    assert_eq!(cmd.parse_line("pan 2147483647"), Action::SendMessage(pan(i32::MAX)));
    assert_eq!(cmd.parse_line("pan -2147483648"), Action::SendMessage(pan(i32::MIN)));
    assert_eq!(cmd.parse_line("start"), Action::SendMessage(sampling(true)));
    assert_eq!(cmd.parse_line("stop"), Action::SendMessage(sampling(false)));
    assert_eq!(cmd.parse_line("stop it"), Action::SendMessage(sampling(false)));
    assert_eq!(cmd.parse_line("start "), Action::SendMessage(sampling(true)));
}

#[test]
fn lines_that_are_no_command() {
    let mut cmd = Cmd::new();
    let lines = [
        "",
        " ",
        "pan",
        "pan ",
        "pan  45",
        "pan 4x",
        "pan -",
        "pan +",
        "pan --4",
        "pan 2147483648",
        "pan -2147483649",
        "pan 99999999999999999999999999",
        "tilt",
        "tilt up",
        "Pan 45",
        " pan 45",
        "pan45",
        "starts",
        "sto",
        "turn 45",
    ];
    for line in lines {
        assert_eq!(cmd.parse_line(line), Action::PrintErr("Error parsing command"), "{:?}", line);
        assert_eq!(parse_command(line.as_bytes()), None);
    }
}

#[test]
fn buffers_are_handed_out_once() {
    let mut guard = Taken::new();
    assert!(SaadcBuffer::take(&mut guard).is_some());
    assert!(SaadcBuffer::take(&mut guard).is_none());
    assert!(SaadcBuffer::take(&mut guard).is_none());
    let mut guard = Taken::new();
    let buffer = UarteRxBuffer::take(&mut guard).unwrap();
    assert_eq!(buffer.as_slice(), [0u8; RX_BUFFER_SIZE]);
    assert!(UarteRxBuffer::take(&mut guard).is_none());
}

#[test]
fn sample_buffer_sizes() {
    assert_eq!(SampleBuffer::size(), 1024);
    assert_eq!(SampleBuffer::new_empty(), SampleBuffer([[0; 4]; SAMPLE_BUF_SIZE]));
}

#[test]
fn swapping_exchanges_the_two_buffers() {
    let mut buffer = SaadcBuffer::take(&mut Taken::new()).unwrap();
    buffer.write_buf().0[0] = [1, 2, 3, 4];
    assert_eq!(buffer.read_buf().0[0], [0, 0, 0, 0]);
    buffer.swap();
    assert_eq!(buffer.read_buf().0[0], [1, 2, 3, 4]);
    assert_eq!(buffer.write_buf().0[0], [0, 0, 0, 0]);
    buffer.write_buf().0[0] = [5, 6, 7, 8];
    assert_eq!(buffer.read_buf().0[0], [1, 2, 3, 4]);
    buffer.swap();
    assert_eq!(buffer.read_buf().0[0], [5, 6, 7, 8]);
    assert_eq!(buffer.write_buf().0[0], [1, 2, 3, 4]);
}

#[test]
fn the_newest_batch_is_the_one_just_written() {
    let mut mics = mic_array();
    assert!(!mics.is_sampling());
    mics.start_sampling_task();
    assert!(mics.is_sampling());
    mics.capture_target().0[7] = [1, 1, 1, 1];
    assert_eq!(mics.get_newest_samples().0[7], [1, 1, 1, 1]);
    mics.capture_target().0[7] = [2, 2, 2, 2];
    assert_eq!(mics.get_newest_samples().0[7], [2, 2, 2, 2]);
    assert_eq!(mics.capture_target().0[7], [1, 1, 1, 1]);
    assert!(mics.is_sampling());
    mics.stop_sampling_task();
    assert!(!mics.is_sampling());
    assert_eq!(mics.capture_target().0[7], [1, 1, 1, 1]);
}

#[test]
fn one_frame_in_flight_at_a_time() {
    let mut link = uarte();
    let sync = DeviceToServer::Sync;
    // Nothing was ever started: the frame goes out.
    assert_eq!(link.try_start_tx(false, &sync), StartTxResult::Done);
    assert_eq!(link.tx_bytes(), [1, 1, 0]);
    // Started, and its end not yet seen: busy, and the frame stays.
    let status = DeviceToServer::PanTilt(PanTiltStatus { pan_deg: 1, tilt_deg: 2 });
    assert_eq!(link.try_start_tx(true, &status), StartTxResult::Busy);
    assert_eq!(link.try_start_tx(true, &status), StartTxResult::Busy);
    assert_eq!(link.tx_bytes(), [1, 1, 0]);
    // The end is seen: the next frame goes out, once.
    assert_eq!(link.get_clear_event(false, true), Some(UarteEvent::EndTx));
    assert_eq!(link.try_start_tx(true, &status), StartTxResult::Done);
    assert_eq!(link.tx_bytes(), to_frame(&status));
    assert_eq!(link.try_start_tx(true, &sync), StartTxResult::Busy);
    assert_eq!(link.tx_bytes(), to_frame(&status));
}

#[test]
fn a_frame_longer_than_the_transmit_buffer_is_an_error() {
    let mut link = uarte();
    let quiet = DeviceToServer::Samples(SampleBuffer::new_empty());
    assert_eq!(link.try_start_tx(false, &quiet), StartTxResult::Done);
    assert_eq!(link.tx_bytes().len(), 8195);
    let loud = DeviceToServer::Samples(SampleBuffer([[257; 4]; SAMPLE_BUF_SIZE]));
    assert_eq!(to_frame(&loud).len(), 8227);
    assert_eq!(link.try_start_tx(false, &loud), StartTxResult::Error);
    assert_eq!(link.tx_bytes().len(), 8195);
}

#[test]
fn events_of_the_link() {
    let mut link = uarte();
    assert_eq!(link.get_clear_event(false, false), None);
    assert_eq!(link.get_clear_event(true, false), Some(UarteEvent::EndRx));
    // The end of a receive transfer comes first and leaves the other flag up.
    assert_eq!(link.get_clear_event(true, true), Some(UarteEvent::EndRx));
    assert_eq!(link.try_start_tx(true, &DeviceToServer::Sync), StartTxResult::Busy);
    assert_eq!(link.get_clear_event(false, true), Some(UarteEvent::EndTx));
    assert_eq!(link.try_start_tx(true, &DeviceToServer::Sync), StartTxResult::Done);
}

#[test]
fn received_bytes_become_commands() {
    let mut link = uarte();
    let mut accumulator = CobsAccumulator::<32>::new();
    let frame = to_frame(&pan(45));
    link.rx_target()[..4].copy_from_slice(&frame[..4]);
    assert_eq!(link.get_rx_chunk(4), &frame[..4]);
    assert_eq!(link.get_rx_chunk(0), &[] as &[u8]);
    assert!(read_uarte0(&link, &mut accumulator, 4).is_empty());
    let rest = frame.len() - 4;
    link.rx_target()[..rest].copy_from_slice(&frame[4..]);
    assert_eq!(read_uarte0(&link, &mut accumulator, rest), vec![FeedEvent::Message(pan(45))]);
    assert_eq!(link.get_rx_chunk(RX_BUFFER_SIZE).len(), RX_BUFFER_SIZE);
}

#[test]
fn a_command_sets_goals_and_capture_and_is_answered() {
    let mut bracket = PanTilt::new(10, 20);
    let mut mics = mic_array();
    let both = ServerToDevice {
        pan_degrees: Some(300),
        tilt_degrees: Some(-4),
        set_sampling_enabled: Some(true),
    };
    assert_eq!(
        handle_message(&mut bracket, &mut mics, both),
        DeviceToServer::PanTilt(PanTiltStatus { pan_deg: 180, tilt_deg: 0 })
    );
    assert!(mics.is_sampling());
    assert_eq!(
        handle_message(&mut bracket, &mut mics, ServerToDevice::default()),
        DeviceToServer::PanTilt(PanTiltStatus { pan_deg: 180, tilt_deg: 0 })
    );
    assert!(mics.is_sampling());
    assert_eq!(
        handle_message(&mut bracket, &mut mics, tilt(33)),
        DeviceToServer::PanTilt(PanTiltStatus { pan_deg: 180, tilt_deg: 33 })
    );
    handle_message(&mut bracket, &mut mics, sampling(false));
    assert!(!mics.is_sampling());
    assert_eq!(bracket.angles(), (0, 0));
}

#[test]
fn a_complete_batch_is_sent_and_split_into_channels() {
    let mut mics = mic_array();
    mics.start_sampling_task();
    *mics.capture_target() = batch(3);
    let (message, channels) = on_saadc(&mut mics);
    assert!(!mics.is_sampling());
    assert_eq!(message, DeviceToServer::Samples(batch(3)));
    let expected = Channels::from_samples(batch(3).0);
    assert_eq!(channels.ch1, expected.ch1);
    assert_eq!(channels.ch2, expected.ch2);
    assert_eq!(channels.ch3, expected.ch3);
    assert_eq!(channels.ch4, expected.ch4);
    assert_eq!(mics.capture_target().0[0], [0, 0, 0, 0]);
}

#[test]
fn bearings_become_offsets_from_straight_ahead() {
    assert_eq!(max_lags_size(T_S_US, D_MICS_MM), XCORR_LEN);
    let table = gen_lag_table::<T_S_US, D_MICS_MM, XCORR_LEN>();
    let channels = Channels::from_samples(batch(3).0);
    // Lag -3 on the first pair, +3 on the second.
    let offsets = on_samples::<T_S_US, D_MICS_MM, XCORR_LEN>(&channels, &table);
    assert_eq!(offsets, (table[6] as i32 - 90, 90 - table[12] as i32));
    assert_eq!(offsets, (18, 17));
    let level = Channels::from_samples(batch(0).0);
    assert_eq!(on_samples::<T_S_US, D_MICS_MM, XCORR_LEN>(&level, &table), (0, 0));
}

#[test]
fn the_bracket_turns_by_the_offsets() {
    let mut bracket = PanTilt::new(40, 40);
    for _ in 0..40 {
        bracket.step();
    }
    move_bracket(&mut bracket, 18, -18);
    assert_eq!(bracket.status(), PanTiltStatus { pan_deg: 58, tilt_deg: 22 });
    move_bracket(&mut bracket, -90, 90);
    assert_eq!(bracket.status(), PanTiltStatus { pan_deg: 0, tilt_deg: 90 });
    assert_eq!(bracket.angles(), (40, 40));
}

#[test]
fn the_host_finds_the_bearing_of_a_batch() {
    assert_eq!(max_lags_size(22, 125), 33);
    let table = gen_lag_table::<22, 125, 33>();
    assert_eq!(batch_angle::<22, 125, 33>(&batch(3)), table[13]);
    assert_eq!(batch_angle::<22, 125, 33>(&batch(0)), 90);
    assert_eq!(batch_angle::<22, 125, 33>(&SampleBuffer::new_empty()), table[0]);
}

#[test]
fn the_most_urgent_task_runs_first() {

    let by_urgency = [
        Task::CaptureComplete,
        Task::LinkEvent,
        Task::Compute,
        Task::Command,
        Task::ServoTick,
        Task::Transmit,
    ];
    for (i, task) in by_urgency.iter().enumerate() {
        assert_eq!(priority(*task), 6 - i as u8);
        for (j, other) in by_urgency.iter().enumerate() {
            assert_eq!(preempts(*task, *other), i < j);
        }
    }
    assert_eq!(most_urgent(&[]), None);
    assert_eq!(most_urgent(&[Task::Transmit]), Some(0));
    assert_eq!(most_urgent(&[Task::Transmit, Task::Command, Task::Compute, Task::Command]), Some(2));
    assert_eq!(most_urgent(&[Task::Command, Task::Transmit, Task::Command]), Some(0));
    assert_eq!(most_urgent(&[Task::ServoTick, Task::LinkEvent, Task::CaptureComplete]), Some(2));
}
