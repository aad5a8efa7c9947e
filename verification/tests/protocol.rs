use folley::accumulator::{from_frame_body, to_frame, CobsAccumulator, FeedEvent, FeedResult};
use folley::cobs::{cobs_decode, cobs_encode};
use folley::format::{
    DeviceToServer, PanTiltStatus, SampleBuffer, ServerToDevice, Wire, SAMPLE_BUF_SIZE,
};

fn command() -> ServerToDevice {
    ServerToDevice { pan_degrees: Some(258), tilt_degrees: None, set_sampling_enabled: Some(true) }
}

fn ramp(from: u8, to: u8) -> Vec<u8> {
    (from..=to).collect()
}

fn check_cobs(data: &[u8], encoded: &[u8]) {
    assert_eq!(cobs_encode(data), encoded);
    assert_eq!(cobs_decode(encoded), Some(data.to_vec()));
    assert!(!cobs_encode(data).contains(&0));
}

#[test]
fn cobs_of_short_inputs() {
    check_cobs(&[], &[0x01]);
    check_cobs(&[0x00], &[0x01, 0x01]);
    check_cobs(&[0x00, 0x00], &[0x01, 0x01, 0x01]);
    check_cobs(&[0x00, 0x11, 0x00], &[0x01, 0x02, 0x11, 0x01]);
    check_cobs(&[0x11, 0x22, 0x00, 0x33], &[0x03, 0x11, 0x22, 0x02, 0x33]);
    check_cobs(&[0x11, 0x22, 0x33, 0x44], &[0x05, 0x11, 0x22, 0x33, 0x44]);
    check_cobs(&[0x11, 0x00, 0x00, 0x00], &[0x02, 0x11, 0x01, 0x01, 0x01]);
}

#[test]
fn cobs_of_a_full_block() {
    let data = ramp(0x01, 0xfe);
    let mut encoded = vec![0xff];
    encoded.extend(ramp(0x01, 0xfe));
    check_cobs(&data, &encoded);
}

#[test]
fn cobs_of_a_zero_and_a_full_block() {
    let mut data = vec![0x00];
    data.extend(ramp(0x01, 0xfe));
    let mut encoded = vec![0x01, 0xff];
    encoded.extend(ramp(0x01, 0xfe));
    check_cobs(&data, &encoded);
}

#[test]
fn cobs_of_one_byte_more_than_a_block() {
    let data = ramp(0x01, 0xff);
    let mut encoded = vec![0xff];
    encoded.extend(ramp(0x01, 0xfe));
    encoded.extend([0x02, 0xff]);
    check_cobs(&data, &encoded);
}

#[test]
fn cobs_of_a_full_block_and_a_zero() {
    let mut data = ramp(0x02, 0xff);
    data.push(0x00);
    let mut encoded = vec![0xff];
    encoded.extend(ramp(0x02, 0xff));
    encoded.extend([0x01, 0x01]);
    check_cobs(&data, &encoded);
}

#[test]
fn cobs_of_a_long_run_a_zero_and_a_byte() {
    let mut data = ramp(0x03, 0xff);
    data.extend([0x00, 0x01]);
    let mut encoded = vec![0xfe];
    encoded.extend(ramp(0x03, 0xff));
    encoded.extend([0x02, 0x01]);
    check_cobs(&data, &encoded);
}

#[test]
fn cobs_round_trip_of_long_data() {
    let data: Vec<u8> = (0..2000u32).map(|i| ((i * 7 + i / 300) % 251) as u8).collect();
    let encoded = cobs_encode(&data);
    assert!(!encoded.contains(&0));
    assert!(encoded.len() <= data.len() + data.len() / 254 + 1);
    assert_eq!(cobs_decode(&encoded), Some(data));
}

#[test]
fn cobs_decode_of_malformed_bodies() {
    assert_eq!(cobs_decode(&[]), Some(vec![]));
    assert_eq!(cobs_decode(&[0x00]), None);
    assert_eq!(cobs_decode(&[0x02]), None);
    assert_eq!(cobs_decode(&[0x03, 0x11]), None);
    assert_eq!(cobs_decode(&[0x03, 0x11, 0x00]), None);
    assert_eq!(cobs_decode(&[0x02, 0x11, 0x00]), None);
    assert_eq!(cobs_decode(&[0x02, 0x11, 0x05, 0x22]), None);
    assert_eq!(cobs_decode(&[0x02, 0x11, 0x01]), Some(vec![0x11, 0x00]));
}

#[test]
fn wire_layout_of_device_messages() {
    assert_eq!(DeviceToServer::Sync.to_bytes(), [0]);
    let status = PanTiltStatus { pan_deg: 90, tilt_deg: -2 };
    assert_eq!(status.to_bytes(), [90, 0, 0, 0, 0xfe, 0xff, 0xff, 0xff]);
    assert_eq!(
        DeviceToServer::PanTilt(status).to_bytes(),
        [1, 90, 0, 0, 0, 0xfe, 0xff, 0xff, 0xff]
    );
    let mut frames = [[0i16; 4]; SAMPLE_BUF_SIZE];
    frames[0] = [1, -1, 258, i16::MIN];
    frames[SAMPLE_BUF_SIZE - 1] = [0, 0, 0, i16::MAX];
    let bytes = DeviceToServer::Samples(SampleBuffer(frames)).to_bytes();
    assert_eq!(bytes.len(), 1 + 8 * SAMPLE_BUF_SIZE);
    assert_eq!(bytes[..9], [2, 1, 0, 0xff, 0xff, 2, 1, 0, 0x80]);
    assert_eq!(bytes[bytes.len() - 2..], [0xff, 0x7f]);
    assert!(bytes[9..bytes.len() - 2].iter().all(|b| *b == 0));
}

#[test]
fn wire_layout_of_commands() {
    assert_eq!(ServerToDevice::default().to_bytes(), [0, 0, 0]);
    assert_eq!(command().to_bytes(), [1, 2, 1, 0, 0, 0, 1, 1]);
    let all = ServerToDevice {
        pan_degrees: Some(-1),
        tilt_degrees: Some(i32::MIN),
        set_sampling_enabled: Some(false),
    };
    assert_eq!(all.to_bytes(), [1, 0xff, 0xff, 0xff, 0xff, 1, 0, 0, 0, 0x80, 1, 0]);
}

#[test]
fn messages_are_read_back_from_their_bytes() {
    let commands = [
        ServerToDevice::default(),
        command(),
        ServerToDevice { pan_degrees: None, tilt_degrees: Some(i32::MAX), set_sampling_enabled: None },
        ServerToDevice {
            pan_degrees: Some(i32::MIN),
            tilt_degrees: Some(-90),
            set_sampling_enabled: Some(false),
        },
    ];
    for msg in commands {
        assert_eq!(ServerToDevice::from_bytes(&msg.to_bytes()), Some(msg));
    }
    let mut frames = [[0i16; 4]; SAMPLE_BUF_SIZE];
    for (i, frame) in frames.iter_mut().enumerate() {
        *frame = [i as i16, -(i as i16), (i as i16).wrapping_mul(321), i16::MIN + i as i16];
    }
    let messages = [
        DeviceToServer::Sync,
        DeviceToServer::PanTilt(PanTiltStatus { pan_deg: -180, tilt_deg: 0x1234_5678 }),
        DeviceToServer::Samples(SampleBuffer(frames)),
    ];
    for msg in messages {
        assert_eq!(DeviceToServer::from_bytes(&msg.to_bytes()), Some(msg));
    }
}

#[test]
fn bytes_that_are_no_message_are_refused() {
    assert_eq!(DeviceToServer::from_bytes(&[]), None);
    assert_eq!(DeviceToServer::from_bytes(&[3]), None);
    assert_eq!(DeviceToServer::from_bytes(&[0, 0]), None);
    assert_eq!(DeviceToServer::from_bytes(&[1, 0, 0, 0, 0, 0, 0, 0]), None);
    assert_eq!(DeviceToServer::from_bytes(&[1, 0, 0, 0, 0, 0, 0, 0, 0, 0]), None);
    assert_eq!(DeviceToServer::from_bytes(&[2, 0, 0]), None);
    assert_eq!(PanTiltStatus::from_bytes(&[0, 0, 0, 0, 0, 0, 0]), None);
    assert_eq!(ServerToDevice::from_bytes(&[]), None);
    assert_eq!(ServerToDevice::from_bytes(&[0, 0]), None);
    assert_eq!(ServerToDevice::from_bytes(&[0, 0, 0, 0]), None);
    assert_eq!(ServerToDevice::from_bytes(&[2, 0, 0]), None);
    assert_eq!(ServerToDevice::from_bytes(&[0, 2, 0]), None);
    assert_eq!(ServerToDevice::from_bytes(&[0, 0, 2]), None);
    assert_eq!(ServerToDevice::from_bytes(&[0, 0, 1]), None);
    assert_eq!(ServerToDevice::from_bytes(&[0, 0, 1, 2]), None);
    assert_eq!(ServerToDevice::from_bytes(&[1, 0, 0, 0, 0, 0]), None);
    assert_eq!(ServerToDevice::from_bytes(&[1, 0, 0, 0, 0, 1, 0, 0, 0, 0]), None);
    assert_eq!(ServerToDevice::from_bytes(&[0, 1, 0, 0, 0]), None);
}

#[test]
fn frame_of_a_command() {
    assert_eq!(to_frame(&command()), [4, 1, 2, 1, 1, 1, 3, 1, 1, 0]);
    assert_eq!(to_frame(&DeviceToServer::Sync), [1, 1, 0]);
    assert_eq!(from_frame_body::<ServerToDevice>(&[4, 1, 2, 1, 1, 1, 3, 1, 1]), Some(command()));
    assert_eq!(from_frame_body::<ServerToDevice>(&[4, 1, 2, 1, 1, 1, 3, 1]), None);
    assert_eq!(from_frame_body::<DeviceToServer>(&[]), None);
}

#[test]
fn round_trip_byte_by_byte() {
    let frame = to_frame(&command());
    let mut accumulator = CobsAccumulator::<32>::new();
    let (last, body) = frame.split_last().unwrap();
    for byte in body {
        assert_eq!(accumulator.feed::<ServerToDevice>(&[*byte]), FeedResult::Consumed);
    }
    assert_eq!(accumulator.len(), body.len());
    assert_eq!(
        accumulator.feed::<ServerToDevice>(&[*last]),
        FeedResult::Success { data: command(), remaining: &[] }
    );
    assert_eq!(accumulator.len(), 0);
    assert_eq!(accumulator.feed::<ServerToDevice>(&[]), FeedResult::Consumed);
}

#[test]
fn round_trip_in_chunks_of_every_size() {
    let status = DeviceToServer::PanTilt(PanTiltStatus { pan_deg: 0, tilt_deg: 77 });
    let frame = to_frame(&status);
    for size in 1..=frame.len() {
        let mut accumulator = CobsAccumulator::<16>::new();
        let mut events: Vec<FeedEvent<DeviceToServer>> = Vec::new();
        for chunk in frame.chunks(size) {
            events.extend(accumulator.drain(chunk));
        }
        assert_eq!(events, vec![FeedEvent::Message(status)]);
        assert_eq!(accumulator.len(), 0);
    }
}

#[test]
fn round_trip_of_a_batch_of_samples() {
    let mut frames = [[0i16; 4]; SAMPLE_BUF_SIZE];
    for (i, frame) in frames.iter_mut().enumerate() {
        *frame = [i as i16 - 500, 7, 0, (i as i16) * 31];
    }
    let batch = DeviceToServer::Samples(SampleBuffer(frames));
    let frame = to_frame(&batch);
    let mut accumulator = CobsAccumulator::<20000>::new();
    let mut events: Vec<FeedEvent<DeviceToServer>> = Vec::new();
    for chunk in frame.chunks(32) {
        events.extend(accumulator.drain(chunk));
    }
    assert_eq!(events, vec![FeedEvent::Message(batch)]);
}

#[test]
fn leftover_bytes_are_handed_back_and_fed_again() {
    let first = command();
    let second = ServerToDevice { set_sampling_enabled: Some(false), ..ServerToDevice::default() };
    let mut stream = to_frame(&first);
    let second_frame = to_frame(&second);
    stream.extend(&second_frame);
    stream.extend([7, 7]);

    let mut accumulator = CobsAccumulator::<32>::new();
    assert_eq!(
        accumulator.feed::<ServerToDevice>(&stream),
        FeedResult::Success { data: first, remaining: &stream[10..] }
    );

    let mut accumulator = CobsAccumulator::<32>::new();
    assert_eq!(
        accumulator.drain::<ServerToDevice>(&stream),
        vec![FeedEvent::Message(first), FeedEvent::Message(second)]
    );
    assert_eq!(accumulator.len(), 2);
}

#[test]
fn a_stream_without_delimiter_needs_more_data() {
    let mut accumulator = CobsAccumulator::<8>::new();
    assert_eq!(accumulator.feed::<ServerToDevice>(&[1, 2, 3]), FeedResult::Consumed);
    assert_eq!(accumulator.feed::<ServerToDevice>(&[]), FeedResult::Consumed);
    assert_eq!(accumulator.feed::<ServerToDevice>(&[4, 5, 6, 7, 8]), FeedResult::Consumed);
    assert_eq!(accumulator.len(), 8);
    assert!(accumulator.drain::<ServerToDevice>(&[]).is_empty());
}

#[test]
fn an_overrun_is_reported_and_the_next_frame_starts_afresh() {
    let mut accumulator = CobsAccumulator::<8>::new();
    assert_eq!(accumulator.feed::<ServerToDevice>(&[9, 9, 9, 9, 9]), FeedResult::Consumed);
    assert_eq!(accumulator.feed::<ServerToDevice>(&[9, 9, 9, 9]), FeedResult::OverFull(&[]));
    assert_eq!(accumulator.len(), 0);

    let start = ServerToDevice { set_sampling_enabled: Some(true), ..ServerToDevice::default() };
    let frame = to_frame(&start);
    assert_eq!(frame, [1, 1, 3, 1, 1, 0]);
    assert_eq!(
        accumulator.feed::<ServerToDevice>(&frame),
        FeedResult::Success { data: start, remaining: &[] }
    );
}

#[test]
fn an_overrun_at_the_delimiter_keeps_the_rest_of_the_chunk() {
    let mut accumulator = CobsAccumulator::<8>::new();
    assert_eq!(accumulator.feed::<ServerToDevice>(&[9, 9, 9, 9, 9]), FeedResult::Consumed);
    assert_eq!(
        accumulator.feed::<ServerToDevice>(&[9, 9, 9, 9, 0, 1, 1]),
        FeedResult::OverFull(&[1, 1])
    );
    assert_eq!(accumulator.len(), 0);
    assert_eq!(
        accumulator.drain::<ServerToDevice>(&[9, 9, 9, 9, 9, 9, 9, 9, 9]),
        vec![FeedEvent::OverFull]
    );
    assert_eq!(accumulator.len(), 0);
}

#[test]
fn a_frame_that_exactly_fills_the_buffer_is_read() {
    let frame = to_frame(&command());
    assert_eq!(frame.len(), 10);
    let mut fits = CobsAccumulator::<9>::new();
    assert_eq!(
        fits.feed::<ServerToDevice>(&frame),
        FeedResult::Success { data: command(), remaining: &[] }
    );
    let mut too_small = CobsAccumulator::<8>::new();
    assert_eq!(too_small.feed::<ServerToDevice>(&frame), FeedResult::OverFull(&[]));
}

#[test]
fn a_frame_that_holds_no_message_is_dropped() {
    let mut accumulator = CobsAccumulator::<32>::new();
    assert_eq!(accumulator.feed::<ServerToDevice>(&[5, 1, 0, 9]), FeedResult::DeserError(&[9]));
    assert_eq!(accumulator.len(), 0);
    assert_eq!(accumulator.feed::<ServerToDevice>(&[0]), FeedResult::DeserError(&[]));
    // A sound body whose bytes are the layout of no command.
    assert_eq!(accumulator.feed::<ServerToDevice>(&[2, 7, 0]), FeedResult::DeserError(&[]));
    // A frame of the device is no command either.
    assert_eq!(
        accumulator.drain::<ServerToDevice>(&to_frame(&DeviceToServer::Sync)),
        vec![FeedEvent::DeserError]
    );
    assert_eq!(
        accumulator.drain::<ServerToDevice>(&[0, 1, 1, 3, 1, 1, 0, 4]),
        vec![
            FeedEvent::DeserError,
            FeedEvent::Message(ServerToDevice {
                set_sampling_enabled: Some(true),
                ..ServerToDevice::default()
            })
        ]
    );
    assert_eq!(accumulator.len(), 1);
}

#[test]
fn frames_back_to_back_in_chunks_of_every_size() {
    let sent = [
        command(),
        ServerToDevice::default(),
        ServerToDevice { tilt_degrees: Some(-7), ..ServerToDevice::default() },
    ];
    let mut stream: Vec<u8> = Vec::new();
    for msg in &sent {
        stream.extend(to_frame(msg));
    }
    for size in 1..=stream.len() {
        let mut accumulator = CobsAccumulator::<9>::new();
        let mut events: Vec<FeedEvent<ServerToDevice>> = Vec::new();
        for chunk in stream.chunks(size) {
            events.extend(accumulator.drain(chunk));
        }
        assert_eq!(
            events,
            vec![
                FeedEvent::Message(sent[0]),
                FeedEvent::Message(sent[1]),
                FeedEvent::Message(sent[2])
            ],
            "chunks of {}",
            size
        );
        assert_eq!(accumulator.len(), 0);
    }
}
