//! Reassembly of frames from a byte stream that arrives in chunks of any
//! size.
//!
//! A frame on the wire is the byte-stuffed layout of one message followed by
//! a zero byte. The accumulator buffers the bytes of the frame under way,
//! up to its capacity, until a chunk brings the delimiter.

use crate::cobs::{
    cobs_decode, cobs_decoded, cobs_encode, cobs_encoded, lemma_decode_inverts_encode,
    lemma_encoded_has_no_zero,
};
use crate::format::{lemma_parse_inverts, lemma_parsed_is, parsed, Wire};
use vstd::prelude::*;
use vstd::slice::slice_subrange;

verus! {

/// The byte that ends every frame.
pub const DELIMITER: u8 = 0;

/// What one call of [`CobsAccumulator::feed`] found in its input.
#[derive(Debug, PartialEq, Eq)]
pub enum FeedResult<'a, T> {
    /// No delimiter yet: the input was buffered, and more data is needed.
    Consumed,
    /// The frame under way outgrew the buffer. What was buffered is dropped,
    /// together with the input up to and including its first delimiter, or
    /// all of it if it holds none; the rest of the input follows.
    OverFull(&'a [u8]),
    /// A complete frame did not hold a message. The frame is dropped; the
    /// input after its delimiter follows.
    DeserError(&'a [u8]),
    /// A complete frame held a message.
    Success {
        /// The message.
        data: T,
        /// The input after the frame's delimiter, to be fed again.
        remaining: &'a [u8],
    },
}

/// A [`FeedResult`] with the rest of the input as a sequence.
pub enum Fed<T> {
    Consumed,
    OverFull(Seq<u8>),
    DeserError(Seq<u8>),
    Success { data: T, remaining: Seq<u8> },
}

impl<'a, T> View for FeedResult<'a, T> {
    type V = Fed<T>;

    open spec fn view(&self) -> Fed<T> {
        match self {
            FeedResult::Consumed => Fed::Consumed,
            FeedResult::OverFull(rest) => Fed::OverFull(rest@),
            FeedResult::DeserError(rest) => Fed::DeserError(rest@),
            FeedResult::Success { data, remaining } => Fed::Success {
                data: *data,
                remaining: remaining@,
            },
        }
    }
}

/// Continues the search for the first zero of `input` from index `k`.
pub open spec fn zero_scan(input: Seq<u8>, k: int) -> int
    decreases input.len() - k,
{
    if k >= input.len() || input[k] == 0 {
        k
    } else {
        zero_scan(input, k + 1)
    }
}

/// Index of the first delimiter in `input`, or the length of `input` if it
/// holds none.
pub open spec fn first_zero(input: Seq<u8>) -> int {
    zero_scan(input, 0)
}

/// The frame that carries `msg`: its byte-stuffed layout and the delimiter.
pub open spec fn frame_of<T: Wire>(msg: T) -> Seq<u8> {
    cobs_encoded(msg.wire_bytes()).push(DELIMITER)
}

/// The message that the body of a frame holds, if it holds one.
pub open spec fn frame_parsed<T: Wire>(body: Seq<u8>) -> Option<T> {
    match cobs_decoded(body) {
        Some(bytes) => parsed::<T>(bytes),
        None => None,
    }
}

/// What feeding `input` does to an accumulator of the given capacity that
/// has buffered `buffered`: the result of the call, and what is buffered
/// afterwards.
pub open spec fn feed_step<T: Wire>(buffered: Seq<u8>, input: Seq<u8>, capacity: int) -> (
    Fed<T>,
    Seq<u8>,
) {
    let z = first_zero(input);
    if input.len() == 0 {
        (Fed::Consumed, buffered)
    } else if z < input.len() {
        let body = buffered + input.subrange(0, z);
        let rest = input.skip(z + 1);
        if body.len() > capacity {
            (Fed::OverFull(rest), Seq::empty())
        } else {
            match frame_parsed::<T>(body) {
                Some(msg) => (Fed::Success { data: msg, remaining: rest }, Seq::empty()),
                None => (Fed::DeserError(rest), Seq::empty()),
            }
        }
    } else if buffered.len() + input.len() > capacity {
        (Fed::OverFull(Seq::empty()), Seq::empty())
    } else {
        (Fed::Consumed, buffered + input)
    }
}

/// What the search for the first zero finds.
pub proof fn lemma_zero_scan(input: Seq<u8>, k: int)
    requires
        0 <= k <= input.len(),
    ensures
        k <= zero_scan(input, k) <= input.len(),
        forall|j: int| k <= j < zero_scan(input, k) ==> input[j] != 0,
        zero_scan(input, k) < input.len() ==> input[zero_scan(input, k)] == 0,
    decreases input.len() - k,
{
    if !(k >= input.len() || input[k] == 0) {
        lemma_zero_scan(input, k + 1);
    }
}

/// The first zero of `input` is at `z` if `z` holds a zero and nothing
/// before it does; it is past the end if `input` holds no zero.
pub proof fn lemma_first_zero_is(input: Seq<u8>, z: int)
    requires
        0 <= z <= input.len(),
        forall|j: int| 0 <= j < z ==> input[j] != 0,
        z < input.len() ==> input[z] == 0,
    ensures
        first_zero(input) == z,
{
    lemma_zero_scan(input, 0);
}

/// What a receiver learns from the stream: a message, or that a frame was
/// lost.
#[derive(Debug, PartialEq, Eq)]
pub enum FeedEvent<T> {
    /// A frame held this message.
    Message(T),
    /// A frame outgrew the buffer and was dropped.
    OverFull,
    /// A frame did not hold a message and was dropped.
    DeserError,
}

/// `event`, followed by the events of `later`, with the buffer of `later`.
pub open spec fn after_event<T>(event: FeedEvent<T>, later: (Seq<FeedEvent<T>>, Seq<u8>)) -> (
    Seq<FeedEvent<T>>,
    Seq<u8>,
) {
    (seq![event] + later.0, later.1)
}

/// What feeding `input`, and feeding again whatever each call leaves over,
/// yields in order, and what is buffered in the end.
pub open spec fn drained<T: Wire>(buffered: Seq<u8>, input: Seq<u8>, capacity: int) -> (
    Seq<FeedEvent<T>>,
    Seq<u8>,
)
    decreases input.len(),
{
    let z = first_zero(input);
    if input.len() == 0 {
        (Seq::empty(), buffered)
    } else if 0 <= z < input.len() {
        let body = buffered + input.subrange(0, z);
        let later = drained::<T>(Seq::empty(), input.skip(z + 1), capacity);
        if body.len() > capacity {
            after_event(FeedEvent::OverFull, later)
        } else {
            match frame_parsed::<T>(body) {
                Some(msg) => after_event(FeedEvent::Message(msg), later),
                None => after_event(FeedEvent::DeserError, later),
            }
        }
    } else if buffered.len() + input.len() > capacity {
        (seq![FeedEvent::OverFull], Seq::empty())
    } else {
        (Seq::empty(), buffered + input)
    }
}

/// What a receiver that starts with `buffered` learns from a stream that
/// arrives as the given chunks, in order.
pub open spec fn received<T: Wire>(buffered: Seq<u8>, chunks: Seq<Seq<u8>>, capacity: int) -> Seq<
    FeedEvent<T>,
>
    decreases chunks.len(),
{
    if chunks.len() == 0 {
        Seq::empty()
    } else {
        let first = drained::<T>(buffered, chunks.first(), capacity);
        first.0 + received::<T>(first.1, chunks.drop_first(), capacity)
    }
}

/// A chunk without a delimiter that still fits is buffered, and more data is
/// needed: no message, no error.
pub proof fn lemma_no_delimiter_needs_more_data<T: Wire>(
    buffered: Seq<u8>,
    input: Seq<u8>,
    capacity: int,
)
    requires
        !input.contains(DELIMITER),
        buffered.len() + input.len() <= capacity,
    ensures
        feed_step::<T>(buffered, input, capacity) == (Fed::<T>::Consumed, buffered + input),
        drained::<T>(buffered, input, capacity) == (Seq::<FeedEvent<T>>::empty(), buffered + input),
{
    lemma_zero_scan(input, 0);
    let z = first_zero(input);
    if z < input.len() {
        assert(input.contains(input[z]));
    }
    if input.len() == 0 {
        assert(buffered + input =~= buffered);
    }
}

/// A stream without a delimiter, however it is cut into chunks, yields
/// nothing as long as it fits the buffer.
pub proof fn lemma_stream_without_delimiter<T: Wire>(
    buffered: Seq<u8>,
    chunks: Seq<Seq<u8>>,
    capacity: int,
)
    requires
        !chunks.flatten().contains(DELIMITER),
        buffered.len() + chunks.flatten().len() <= capacity,
    ensures
        received::<T>(buffered, chunks, capacity) == Seq::<FeedEvent<T>>::empty(),
    decreases chunks.len(),
{
    if chunks.len() > 0 {
        let first = chunks.first();
        let rest = chunks.drop_first();
        assert(chunks.flatten() == first + rest.flatten());
        assert forall|k: int| 0 <= k < first.len() implies first[k] != DELIMITER by {
            assert(chunks.flatten()[k] == first[k]);
        }
        assert forall|k: int| 0 <= k < rest.flatten().len() implies rest.flatten()[k]
            != DELIMITER by {
            assert(chunks.flatten()[first.len() + k] == rest.flatten()[k]);
        }
        lemma_no_delimiter_needs_more_data::<T>(buffered, first, capacity);
        lemma_stream_without_delimiter::<T>(buffered + first, rest, capacity);
    }
}

/// A frame that outgrows the buffer is reported as such, and the buffer is
/// empty afterwards: what is fed next starts a fresh frame.
pub proof fn lemma_overrun_is_overfull<T: Wire>(buffered: Seq<u8>, input: Seq<u8>, capacity: int)
    requires
        buffered.len() <= capacity,
        buffered.len() + first_zero(input) > capacity,
    ensures
        feed_step::<T>(buffered, input, capacity).0 is OverFull,
        feed_step::<T>(buffered, input, capacity).1 == Seq::<u8>::empty(),
        drained::<T>(buffered, input, capacity).0.first() == FeedEvent::<T>::OverFull,
{
    lemma_zero_scan(input, 0);
}

/// More bytes than the buffer holds, with no delimiter among them, yield an
/// overrun, and the next feed finds the accumulator as new.
pub proof fn lemma_overrun_without_delimiter<T: Wire>(
    buffered: Seq<u8>,
    input: Seq<u8>,
    capacity: int,
)
    requires
        !input.contains(DELIMITER),
        buffered.len() + input.len() > capacity,
        buffered.len() <= capacity,
    ensures
        feed_step::<T>(buffered, input, capacity) == (
            Fed::<T>::OverFull(Seq::empty()),
            Seq::<u8>::empty(),
        ),
        drained::<T>(buffered, input, capacity) == (
            seq![FeedEvent::<T>::OverFull],
            Seq::<u8>::empty(),
        ),
{
    lemma_zero_scan(input, 0);
    let z = first_zero(input);
    if z < input.len() {
        assert(input.contains(input[z]));
    }
}

/// Chunks that are all empty yield nothing and leave the buffer as it is.
pub proof fn lemma_empty_chunks<T: Wire>(buffered: Seq<u8>, chunks: Seq<Seq<u8>>, capacity: int)
    requires
        chunks.flatten().len() == 0,
    ensures
        received::<T>(buffered, chunks, capacity) == Seq::<FeedEvent<T>>::empty(),
    decreases chunks.len(),
{
    if chunks.len() > 0 {
        assert(chunks.flatten() == chunks.first() + chunks.drop_first().flatten());
        lemma_empty_chunks::<T>(buffered, chunks.drop_first(), capacity);
    }
}

/// The body of the frame that carries `msg` holds `msg`.
pub proof fn lemma_frame_body_holds<T: Wire>(msg: T)
    ensures
        frame_parsed::<T>(cobs_encoded(msg.wire_bytes())) == Some(msg),
        !cobs_encoded(msg.wire_bytes()).contains(DELIMITER),
{
    lemma_decode_inverts_encode(msg.wire_bytes());
    lemma_parse_inverts(msg);
    lemma_encoded_has_no_zero(msg.wire_bytes());
}

/// The rest of a frame, arriving in chunks after `buffered` has arrived,
/// yields the frame's message exactly once and nothing else.
pub proof fn lemma_rest_of_frame<T: Wire>(
    msg: T,
    buffered: Seq<u8>,
    chunks: Seq<Seq<u8>>,
    capacity: int,
)
    requires
        buffered + chunks.flatten() == frame_of(msg),
        chunks.flatten().len() > 0,
        cobs_encoded(msg.wire_bytes()).len() <= capacity,
    ensures
        received::<T>(buffered, chunks, capacity) == seq![FeedEvent::Message(msg)],
    decreases chunks.len(),
{
    let body = cobs_encoded(msg.wire_bytes());
    let frame = frame_of(msg);
    lemma_frame_body_holds(msg);
    if chunks.len() == 0 {
        assert(chunks.flatten() =~= Seq::<u8>::empty());
    } else {
        let first = chunks.first();
        let rest = chunks.drop_first();
        assert(chunks.flatten() == first + rest.flatten());
        assert(frame.len() == body.len() + 1);
        assert(frame =~= buffered + first + rest.flatten());
        assert forall|k: int| 0 <= k < first.len() implies first[k] == frame[buffered.len() + k] by {}
        assert forall|k: int| 0 <= k < body.len() implies frame[k] != DELIMITER by {
            assert(frame[k] == body[k]);
            assert(body.contains(body[k]));
        }
        if first.len() == 0 {
            assert(buffered + first =~= buffered);
            assert(drained::<T>(buffered, first, capacity) == (
                Seq::<FeedEvent<T>>::empty(),
                buffered,
            ));
            lemma_rest_of_frame(msg, buffered, rest, capacity);
        } else if buffered.len() + first.len() < frame.len() {
            assert forall|k: int| 0 <= k < first.len() implies first[k] != DELIMITER by {}
            lemma_no_delimiter_needs_more_data::<T>(buffered, first, capacity);
            assert(buffered + first + rest.flatten() =~= (buffered + first) + rest.flatten());
            lemma_rest_of_frame(msg, buffered + first, rest, capacity);
        } else {
            let z = first.len() - 1;
            assert(frame.len() == buffered.len() + first.len() + rest.flatten().len());
            assert(first[z] == frame[body.len() as int]);
            lemma_first_zero_is(first, z);
            let head = buffered + first.subrange(0, z);
            assert(head.len() == body.len());
            assert forall|k: int| 0 <= k < body.len() implies head[k] == body[k] by {
                assert(frame[k] == body[k]);
                if k >= buffered.len() {
                    assert(head[k] == first[k - buffered.len()]);
                }
            }
            assert(head =~= body);
            assert(first.skip(z + 1) =~= Seq::<u8>::empty());
            assert(drained::<T>(Seq::empty(), first.skip(z + 1), capacity) == (
                Seq::<FeedEvent<T>>::empty(),
                Seq::<u8>::empty(),
            ));
            assert(drained::<T>(buffered, first, capacity) == (
                seq![FeedEvent::Message(msg)],
                Seq::<u8>::empty(),
            )) by {
                assert(seq![FeedEvent::Message(msg)] + Seq::<FeedEvent<T>>::empty() =~= seq![
                    FeedEvent::Message(msg),
                ]);
            }
            assert(rest.flatten().len() == 0);
            lemma_empty_chunks::<T>(Seq::empty(), rest, capacity);
            assert(seq![FeedEvent::Message(msg)] + Seq::<FeedEvent<T>>::empty() =~= seq![
                FeedEvent::Message(msg),
            ]);
        }
    }
}

/// Round trip: the frame that carries a message, cut into chunks of any
/// sizes and fed to an empty accumulator that can hold its body, yields that
/// message exactly once and nothing else.
pub proof fn lemma_round_trip<T: Wire>(msg: T, chunks: Seq<Seq<u8>>, capacity: int)
    requires
        chunks.flatten() == frame_of(msg),
        cobs_encoded(msg.wire_bytes()).len() <= capacity,
    ensures
        received::<T>(Seq::empty(), chunks, capacity) == seq![FeedEvent::Message(msg)],
{
    assert(Seq::<u8>::empty() + chunks.flatten() =~= chunks.flatten());
    lemma_rest_of_frame(msg, Seq::empty(), chunks, capacity);
}

/// After an overrun the accumulator is as new: a frame that follows yields
/// its message, whatever was lost before it.
pub proof fn lemma_frame_after_overrun<T: Wire>(
    buffered: Seq<u8>,
    lost: Seq<u8>,
    msg: T,
    capacity: int,
)
    requires
        !lost.contains(DELIMITER),
        buffered.len() <= capacity,
        buffered.len() + lost.len() > capacity,
        cobs_encoded(msg.wire_bytes()).len() <= capacity,
    ensures
        received::<T>(buffered, seq![lost, frame_of(msg)], capacity) == seq![
            FeedEvent::OverFull,
            FeedEvent::Message(msg),
        ],
{
    let chunks = seq![lost, frame_of(msg)];
    let rest = seq![frame_of(msg)];
    assert(chunks.drop_first() =~= rest);
    rest.lemma_flatten_one_element();
    lemma_overrun_without_delimiter::<T>(buffered, lost, capacity);
    lemma_round_trip(msg, rest, capacity);
    assert(seq![FeedEvent::<T>::OverFull] + seq![FeedEvent::Message(msg)] =~= seq![
        FeedEvent::OverFull,
        FeedEvent::Message(msg),
    ]);
}

/// The frames of `msgs`, one after another.
pub open spec fn frames_of<T: Wire>(msgs: Seq<T>) -> Seq<u8>
    decreases msgs.len(),
{
    if msgs.len() == 0 {
        Seq::empty()
    } else {
        frame_of(msgs.first()) + frames_of(msgs.drop_first())
    }
}

/// The events that tell of `msgs`, in order.
pub open spec fn messages<T>(msgs: Seq<T>) -> Seq<FeedEvent<T>> {
    Seq::new(msgs.len(), |i: int| FeedEvent::Message(msgs[i]))
}

/// Whether the body of the frame of every message fits a buffer of the
/// given capacity.
pub open spec fn all_fit<T: Wire>(msgs: Seq<T>, capacity: int) -> bool {
    forall|i: int|
        0 <= i < msgs.len() ==> cobs_encoded((#[trigger] msgs[i]).wire_bytes()).len() <= capacity
}

/// Whether `buffered` is short enough to be the start of the body of the
/// first frame of `msgs`; if there is no message, whether it is empty.
pub open spec fn is_frame_start<T: Wire>(buffered: Seq<u8>, msgs: Seq<T>) -> bool {
    if msgs.len() == 0 {
        buffered.len() == 0
    } else {
        buffered.len() <= cobs_encoded(msgs.first().wire_bytes()).len()
    }
}

/// One chunk of a stream of frames, arriving after `buffered` and before
/// `rest`, yields the messages of the frames that it completes, and leaves
/// buffered the start of the next frame. Returns how many frames that are.
pub proof fn lemma_chunk_of_frames<T: Wire>(
    msgs: Seq<T>,
    buffered: Seq<u8>,
    input: Seq<u8>,
    rest: Seq<u8>,
    capacity: int,
) -> (k: int)
    requires
        buffered + input + rest == frames_of(msgs),
        is_frame_start(buffered, msgs),
        all_fit(msgs, capacity),
    ensures
        0 <= k <= msgs.len(),
        drained::<T>(buffered, input, capacity).0 == messages(msgs.take(k)),
        drained::<T>(buffered, input, capacity).1 + rest == frames_of(msgs.skip(k)),
        is_frame_start(drained::<T>(buffered, input, capacity).1, msgs.skip(k)),
        all_fit(msgs.skip(k), capacity),
    decreases input.len(),
{
    let stream = frames_of(msgs);
    if input.len() == 0 {
        assert(buffered + input =~= buffered);
        assert(msgs.take(0) =~= Seq::<T>::empty());
        assert(messages(msgs.take(0)) =~= Seq::<FeedEvent<T>>::empty());
        assert(msgs.skip(0) =~= msgs);
        return 0;
    }
    assert(stream.len() == buffered.len() + input.len() + rest.len());
    if msgs.len() == 0 {
        assert(false);
    }
    let first = msgs.first();
    let tail = msgs.drop_first();
    let body = cobs_encoded(first.wire_bytes());
    lemma_frame_body_holds(first);
    assert(stream == frame_of(first) + frames_of(tail));
    assert(cobs_encoded(msgs[0].wire_bytes()).len() <= capacity);
    assert forall|j: int| 0 <= j < body.len() implies stream[j] != DELIMITER by {
        assert(stream[j] == body[j]);
        assert(body.contains(body[j]));
    }
    assert(stream[body.len() as int] == DELIMITER);
    assert forall|j: int| 0 <= j < input.len() implies input[j] == stream[buffered.len() + j] by {
        assert(stream =~= buffered + input + rest);
    }
    assert(all_fit(tail, capacity)) by {
        assert forall|i: int| 0 <= i < tail.len() implies cobs_encoded(
            (#[trigger] tail[i]).wire_bytes(),
        ).len() <= capacity by {
            assert(tail[i] == msgs[i + 1]);
        }
    }
    lemma_zero_scan(input, 0);
    let z = first_zero(input);
    if z < input.len() {
        if buffered.len() + z < body.len() {
            assert(stream[buffered.len() + z] == input[z]);
        } else if buffered.len() + z > body.len() {
            let j = body.len() - buffered.len();
            assert(input[j] == stream[buffered.len() + j]);
        }
        assert(buffered.len() + z == body.len());
        let head = buffered + input.subrange(0, z);
        assert(head =~= body) by {
            assert(stream =~= buffered + input + rest);
            assert forall|j: int| 0 <= j < body.len() implies head[j] == body[j] by {
                assert(stream[j] == body[j]);
            }
        }
        let after = input.skip(z + 1);
        assert(Seq::<u8>::empty() + after + rest =~= frames_of(tail)) by {
            assert(stream =~= buffered + input + rest);
            assert(stream =~= frame_of(first) + frames_of(tail));
            assert(frame_of(first).len() == body.len() + 1);
            assert forall|j: int| 0 <= j < frames_of(tail).len() implies (after + rest)[j]
                == frames_of(tail)[j] by {
                assert(frames_of(tail)[j] == stream[body.len() + 1 + j]);
            }
        }
        let k1 = lemma_chunk_of_frames(tail, Seq::empty(), after, rest, capacity);
        let k = k1 + 1;
        assert(msgs.take(k) =~= seq![first] + tail.take(k1));
        assert(messages(msgs.take(k)) =~= seq![FeedEvent::Message(first)] + messages(
            tail.take(k1),
        ));
        assert(msgs.skip(k) =~= tail.skip(k1));
        return k;
    } else {
        if buffered.len() + input.len() > body.len() {
            let j = body.len() - buffered.len();
            assert(input[j] == stream[buffered.len() + j]);
        }
        assert(msgs.take(0) =~= Seq::<T>::empty());
        assert(messages(msgs.take(0)) =~= Seq::<FeedEvent<T>>::empty());
        assert(msgs.skip(0) =~= msgs);
        return 0;
    }
}

/// The rest of a stream of frames, arriving in chunks after `buffered` has
/// arrived, yields the messages of its frames, each once and in order.
pub proof fn lemma_rest_of_stream<T: Wire>(
    msgs: Seq<T>,
    buffered: Seq<u8>,
    chunks: Seq<Seq<u8>>,
    capacity: int,
)
    requires
        buffered + chunks.flatten() == frames_of(msgs),
        is_frame_start(buffered, msgs),
        all_fit(msgs, capacity),
    ensures
        received::<T>(buffered, chunks, capacity) == messages(msgs),
    decreases chunks.len(),
{
    if chunks.len() == 0 {
        assert(chunks.flatten() =~= Seq::<u8>::empty());
        assert(buffered + chunks.flatten() =~= buffered);
        if msgs.len() > 0 {
            assert(frames_of(msgs).len() >= frame_of(msgs.first()).len());
            assert(false);
        }
        assert(messages(msgs) =~= Seq::<FeedEvent<T>>::empty());
    } else {
        let first = chunks.first();
        let rest = chunks.drop_first();
        assert(chunks.flatten() == first + rest.flatten());
        assert(buffered + first + rest.flatten() =~= buffered + chunks.flatten());
        let k = lemma_chunk_of_frames(msgs, buffered, first, rest.flatten(), capacity);
        let left = drained::<T>(buffered, first, capacity).1;
        lemma_rest_of_stream(msgs.skip(k), left, rest, capacity);
        assert(messages(msgs.take(k)) + messages(msgs.skip(k)) =~= messages(msgs));
    }
}

/// Round trip of a stream: the frames of any messages, one after another,
/// cut into chunks of any sizes and fed to an empty accumulator that can
/// hold the body of each, yield exactly those messages, each once and in
/// order. Bytes that follow a delimiter within a chunk start the next frame.
pub proof fn lemma_round_trip_stream<T: Wire>(msgs: Seq<T>, chunks: Seq<Seq<u8>>, capacity: int)
    requires
        chunks.flatten() == frames_of(msgs),
        all_fit(msgs, capacity),
    ensures
        received::<T>(Seq::empty(), chunks, capacity) == messages(msgs),
{
    assert(Seq::<u8>::empty() + chunks.flatten() =~= chunks.flatten());
    lemma_rest_of_stream(msgs, Seq::empty(), chunks, capacity);
}

/// A whole frame fed at once to an empty accumulator that can hold its body
/// yields its message, with nothing left over and nothing left buffered.
pub proof fn lemma_round_trip_whole<T: Wire>(msg: T, capacity: int)
    requires
        cobs_encoded(msg.wire_bytes()).len() <= capacity,
    ensures
        feed_step::<T>(Seq::empty(), frame_of(msg), capacity) == (
            Fed::Success { data: msg, remaining: Seq::<u8>::empty() },
            Seq::<u8>::empty(),
        ),
{
    let body = cobs_encoded(msg.wire_bytes());
    let frame = frame_of(msg);
    lemma_frame_body_holds(msg);
    assert forall|k: int| 0 <= k < body.len() implies frame[k] != DELIMITER by {
        assert(frame[k] == body[k]);
        assert(body.contains(body[k]));
    }
    lemma_first_zero_is(frame, body.len() as int);
    assert(Seq::<u8>::empty() + frame.subrange(0, body.len() as int) =~= body);
    assert(frame.skip(body.len() as int + 1) =~= Seq::<u8>::empty());
}

/// Writes the frame that carries `msg`: its byte-stuffed layout followed by
/// the delimiter.
pub fn to_frame<T: Wire>(msg: &T) -> (frame: Vec<u8>)
    ensures
        frame@ == frame_of(*msg),
{
    let bytes: Vec<u8> = msg.to_bytes();
    let mut frame: Vec<u8> = cobs_encode(bytes.as_slice());
    frame.push(DELIMITER);
    frame
}

/// Reads the message that the body of a frame holds. The body is the frame
/// without its delimiter.
pub fn from_frame_body<T: Wire>(body: &[u8]) -> (msg: Option<T>)
    ensures
        msg == frame_parsed::<T>(body@),
{
    match cobs_decode(body) {
        Some(bytes) => {
            let msg: Option<T> = T::from_bytes(bytes.as_slice());
            proof {
                if msg is Some {
                    lemma_parsed_is(bytes@, msg->0);
                }
            }
            msg
        },
        None => None,
    }
}

/// A buffer of `N` bytes that collects the frame under way.
pub struct CobsAccumulator<const N: usize> {
    buf: [u8; N],
    idx: usize,
}

impl<const N: usize> CobsAccumulator<N> {
    #[verifier::type_invariant]
    spec fn within_capacity(&self) -> bool {
        self.idx <= N
    }

    /// The bytes of the frame under way that have arrived so far.
    pub closed spec fn buffered(&self) -> Seq<u8> {
        self.buf@.subrange(0, self.idx as int)
    }

    /// An accumulator that has buffered nothing.
    pub fn new() -> (acc: Self)
        ensures
            acc.buffered() == Seq::<u8>::empty(),
    {
        let acc = CobsAccumulator { buf: [0u8; N], idx: 0 };
        assert(acc.buffered() =~= Seq::<u8>::empty());
        acc
    }

    /// Number of bytes buffered so far; never more than `N`.
    pub fn len(&self) -> (n: usize)
        ensures
            n == self.buffered().len(),
            n <= N,
    {
        proof {
            use_type_invariant(self);
        }
        self.idx
    }

    /// Takes in one chunk of the byte stream.
    ///
    /// Without a delimiter in the chunk, the chunk is buffered and more data
    /// is needed, unless the frame under way has outgrown the buffer. With a
    /// delimiter, what was buffered and the chunk up to the delimiter form
    /// the body of a frame, which either holds a message or does not. In
    /// every case but the first the buffer is empty afterwards, so that the
    /// next byte starts a fresh frame.
    pub fn feed<'a, T: Wire>(&mut self, input: &'a [u8]) -> (result: FeedResult<'a, T>)
        ensures
            result@ == feed_step::<T>(old(self).buffered(), input@, N as int).0,
            final(self).buffered() == feed_step::<T>(old(self).buffered(), input@, N as int).1,
    {
        proof {
            use_type_invariant(&*self);
        }
        let len: usize = input.len();
        if len == 0 {
            return FeedResult::Consumed;
        }
        let mut z: usize = 0;
        while z < len && input[z] != 0
            invariant
                z <= len,
                len == input@.len(),
                forall|j: int| 0 <= j < z ==> input@[j] != 0,
            decreases len - z,
        {
            z = z + 1;
        }
        proof {
            lemma_first_zero_is(input@, z as int);
        }
        let ghost held = self.buffered();
        let start: usize = self.idx;
        if z > N - start {
            self.idx = 0;
            assert(self.buffered() =~= Seq::<u8>::empty());
            if z < len {
                let rest: &'a [u8] = slice_subrange(input, z + 1, len);
                assert(rest@ =~= input@.skip(z + 1));
                return FeedResult::OverFull(rest);
            } else {
                let rest: &'a [u8] = slice_subrange(input, len, len);
                assert(rest@ =~= Seq::<u8>::empty());
                return FeedResult::OverFull(rest);
            }
        }
        let mut k: usize = 0;
        while k < z
            invariant
                k <= z,
                z <= len,
                len == input@.len(),
                start + z <= N,
                self.idx == start,
                self.buf@.subrange(0, start as int) == held,
                self.buf@.subrange(start as int, start + k) == input@.subrange(0, k as int),
            decreases z - k,
        {
            let ghost before = self.buf@;
            self.buf[start + k] = input[k];
            k = k + 1;
            proof {
                assert(self.buf@.subrange(0, start as int) =~= before.subrange(0, start as int));
                assert(self.buf@.subrange(start as int, start + k) =~= input@.subrange(0, k as int));
            }
        }
        let total: usize = start + z;
        assert(self.buf@.subrange(0, total as int) =~= held + input@.subrange(0, z as int));
        if z == len {
            self.idx = total;
            assert(input@.subrange(0, z as int) =~= input@);
            return FeedResult::Consumed;
        }
        let body: &[u8] = slice_subrange(self.buf.as_slice(), 0, total);
        let msg: Option<T> = from_frame_body(body);
        self.idx = 0;
        assert(self.buffered() =~= Seq::<u8>::empty());
        let rest: &'a [u8] = slice_subrange(input, z + 1, len);
        assert(rest@ =~= input@.skip(z + 1));
        match msg {
            Some(data) => FeedResult::Success { data, remaining: rest },
            None => FeedResult::DeserError(rest),
        }
    }

    /// Takes in one chunk and feeds again whatever a call leaves over, until
    /// the chunk is used up. Returns what was found, in the order of the
    /// stream.
    pub fn drain<T: Wire>(&mut self, input: &[u8]) -> (events: Vec<FeedEvent<T>>)
        ensures
            events@ == drained::<T>(old(self).buffered(), input@, N as int).0,
            final(self).buffered() == drained::<T>(old(self).buffered(), input@, N as int).1,
    {
        let mut events: Vec<FeedEvent<T>> = Vec::new();
        let mut window: &[u8] = input;
        let ghost goal = drained::<T>(self.buffered(), input@, N as int);
        assert(events@ + goal.0 =~= goal.0);
        loop
            invariant_except_break
                goal.0 == events@ + drained::<T>(self.buffered(), window@, N as int).0,
                goal.1 == drained::<T>(self.buffered(), window@, N as int).1,
            ensures
                goal.0 == events@,
                goal.1 == self.buffered(),
            decreases window@.len(),
        {
            let ghost held = self.buffered();
            let ghost seen = events@;
            let ghost fed = window@;
            proof {
                lemma_zero_scan(fed, 0);
            }
            let ghost rest_events = drained::<T>(
                Seq::empty(),
                fed.skip(first_zero(fed) + 1),
                N as int,
            );
            match self.feed::<T>(window) {
                FeedResult::Consumed => {
                    assert(seen + Seq::<FeedEvent<T>>::empty() =~= seen);
                    break ;
                },
                FeedResult::OverFull(rest) => {
                    events.push(FeedEvent::OverFull);
                    window = rest;
                    proof {
                        if first_zero(fed) < fed.len() {
                            assert(events@ + rest_events.0 =~= seen + (seq![FeedEvent::OverFull]
                                + rest_events.0));
                        } else {
                            assert(events@ + Seq::<FeedEvent<T>>::empty() =~= seen
                                + seq![FeedEvent::OverFull]);
                        }
                    }
                },
                FeedResult::DeserError(rest) => {
                    events.push(FeedEvent::DeserError);
                    window = rest;
                    proof {
                        assert(events@ + rest_events.0 =~= seen + (seq![FeedEvent::DeserError]
                            + rest_events.0));
                    }
                },
                FeedResult::Success { data, remaining } => {
                    events.push(FeedEvent::Message(data));
                    window = remaining;
                    proof {
                        assert(events@ + rest_events.0 =~= seen + (seq![FeedEvent::Message(data)]
                            + rest_events.0));
                    }
                },
            }
        }
        events
    }
}

} // verus!
