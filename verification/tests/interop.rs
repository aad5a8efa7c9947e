use folley::accumulator::{to_frame, CobsAccumulator, FeedResult};
use folley::cobs::{cobs_decode, cobs_encode};
use folley::format::{
    DeviceToServer, PanTiltStatus, SampleBuffer, ServerToDevice, Wire, SAMPLE_BUF_SIZE,
};

type CommandFields = (Option<i32>, Option<i32>, Option<bool>);

fn fields(msg: &ServerToDevice) -> CommandFields {
    (msg.pan_degrees, msg.tilt_degrees, msg.set_sampling_enabled)
}

fn commands() -> Vec<ServerToDevice> {
    let mut all = Vec::new();
    for pan in [None, Some(0), Some(258), Some(-1), Some(i32::MIN), Some(i32::MAX)] {
        for tilt in [None, Some(90), Some(-65536)] {
            for sampling in [None, Some(false), Some(true)] {
                all.push(ServerToDevice {
                    pan_degrees: pan,
                    tilt_degrees: tilt,
                    set_sampling_enabled: sampling,
                });
            }
        }
    }
    all
}

fn payloads() -> Vec<Vec<u8>> {
    let mut all: Vec<Vec<u8>> = vec![vec![], vec![0], vec![0, 0], vec![1], vec![1, 0], vec![0, 1]];
    for len in [253usize, 254, 255, 256, 507, 508, 509, 1000] {
        all.push((0..len).map(|i| (i % 255) as u8 + 1).collect());
        all.push((0..len).map(|i| (i % 256) as u8).collect());
        all.push((0..len).map(|i| if i % 254 == 253 { 0 } else { 9 }).collect());
        all.push(vec![0; len]);
    }
    all
}

#[test]
fn byte_stuffing_agrees_with_the_cobs_crate() {
    for data in payloads() {
        let encoded = cobs_encode(&data);
        assert_eq!(encoded, cobs::encode_vec(&data), "{:?}", data);
        assert_eq!(cobs::decode_vec(&encoded).ok(), Some(data.clone()));
        assert_eq!(cobs_decode(&encoded), Some(data));
    }
}

#[test]
fn malformed_bodies_are_refused_as_by_the_cobs_crate() {
    let bodies: [&[u8]; 4] = [&[2], &[3, 1], &[2, 1, 5, 2], &[255, 1, 2, 3]];
    for body in bodies {
        assert_eq!(cobs_decode(body), None);
        assert!(cobs::decode_vec(body).is_err(), "{:?}", body);
    }
}

#[test]
fn commands_are_laid_out_as_postcard_lays_out_their_fields() {
    for msg in commands() {
        assert_eq!(msg.to_bytes(), postcard::to_stdvec(&fields(&msg)).unwrap());
        assert_eq!(to_frame(&msg), postcard::to_stdvec_cobs(&fields(&msg)).unwrap());
    }
}

#[test]
fn device_messages_are_laid_out_as_postcard_lays_out_tag_and_fields() {
    assert_eq!(DeviceToServer::Sync.to_bytes(), postcard::to_stdvec(&0u8).unwrap());
    let status = PanTiltStatus { pan_deg: 90, tilt_deg: -2 };
    assert_eq!(status.to_bytes(), postcard::to_stdvec(&(90i32, -2i32)).unwrap());
    assert_eq!(
        DeviceToServer::PanTilt(status).to_bytes(),
        postcard::to_stdvec(&(1u8, 90i32, -2i32)).unwrap()
    );
    assert_eq!(
        to_frame(&DeviceToServer::PanTilt(status)),
        postcard::to_stdvec_cobs(&(1u8, 90i32, -2i32)).unwrap()
    );

    let mut frames = [[0i16; 4]; SAMPLE_BUF_SIZE];
    for (i, frame) in frames.iter_mut().enumerate() {
        *frame = [i as i16, -(i as i16) - 1, (i as i16).wrapping_mul(257), i16::MAX - i as i16];
    }
    let mut expected = postcard::to_stdvec(&2u8).unwrap();
    for part in frames.chunks(32) {
        let part: [[i16; 4]; 32] = part.try_into().unwrap();
        expected.extend(postcard::to_stdvec(&part).unwrap());
    }
    assert_eq!(DeviceToServer::Samples(SampleBuffer(frames)).to_bytes(), expected);
}

#[test]
fn postcard_reads_the_frames_of_this_library() {
    for msg in commands() {
        let frame = to_frame(&msg);
        let mut accumulator = postcard::CobsAccumulator::<32>::new();
        match accumulator.feed::<CommandFields>(&frame) {
            postcard::FeedResult::Success { data, remaining } => {
                assert_eq!(data, fields(&msg));
                assert!(remaining.is_empty());
            }
            _ => panic!("no message in {:?}", frame),
        }
        let mut body = frame.clone();
        assert_eq!(postcard::from_bytes_cobs::<CommandFields>(&mut body).ok(), Some(fields(&msg)));
    }
}

#[test]
fn this_library_reads_the_frames_of_postcard() {
    for msg in commands() {
        let frame = postcard::to_stdvec_cobs(&fields(&msg)).unwrap();
        let mut accumulator = CobsAccumulator::<32>::new();
        for byte in &frame[..frame.len() - 1] {
            assert_eq!(accumulator.feed::<ServerToDevice>(&[*byte]), FeedResult::Consumed);
        }
        assert_eq!(
            accumulator.feed::<ServerToDevice>(&frame[frame.len() - 1..]),
            FeedResult::Success { data: msg, remaining: &[] }
        );
    }
}
