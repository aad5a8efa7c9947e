//! Messages exchanged between the device and the host, and their layout on
//! the wire.
//!
//! Every message is laid out with fixed widths: integers little-endian in
//! two's complement, an optional field as a presence byte followed by the
//! value if present, a tagged union as a tag byte followed by the variant's
//! fields, and a fixed-size array as its elements in order.

use vstd::prelude::*;

verus! {

/// Number of frames in one batch of samples.
pub const SAMPLE_BUF_SIZE: usize = 1024;

/// Number of bytes that a batch of samples takes on the wire.
pub const SAMPLE_BUF_BYTES: usize = 8192;

/// One reading of each of the four microphones, taken at the same timer tick.
pub type MicArraySample = [i16; 4];

/// Where the bracket is heading, in whole degrees per axis.
#[derive(Clone, Copy, Debug, PartialEq, Eq, Structural)]
pub struct PanTiltStatus {
    pub pan_deg: i32,
    pub tilt_deg: i32,
}

/// One batch of frames, in the order in which they were captured.
#[derive(Clone, Copy, Debug, PartialEq, Eq)]
pub struct SampleBuffer(pub [MicArraySample; SAMPLE_BUF_SIZE]);

/// What the device tells the host.
#[derive(Clone, Copy, Debug, PartialEq, Eq)]
pub enum DeviceToServer {
    /// Marks the boundary between two transmissions; carries nothing.
    Sync,
    /// The goals of the bracket.
    PanTilt(PanTiltStatus),
    /// A batch of captured frames.
    Samples(SampleBuffer),
}

/// What the host asks of the device. Each field that is present is applied;
/// an absent field leaves that part of the device as it is.
#[derive(Clone, Copy, Debug, PartialEq, Eq, Structural)]
pub struct ServerToDevice {
    pub pan_degrees: Option<i32>,
    pub tilt_degrees: Option<i32>,
    pub set_sampling_enabled: Option<bool>,
}

/// The two bytes of a 16-bit sample, low byte first.
pub open spec fn i16_le(x: i16) -> Seq<u8> {
    let u = if x >= 0 {
        x as int
    } else {
        x as int + 0x1_0000
    };
    seq![(u % 256) as u8, (u / 256) as u8]
}

/// The 16-bit sample whose low byte is `lo` and whose high byte is `hi`.
pub open spec fn i16_from_le(lo: u8, hi: u8) -> i16 {
    let u = lo as int + 256 * (hi as int);
    if u < 0x8000 {
        u as i16
    } else {
        (u - 0x1_0000) as i16
    }
}

/// The four bytes of a 32-bit angle, low byte first.
pub open spec fn i32_le(x: i32) -> Seq<u8> {
    let u = if x >= 0 {
        x as int
    } else {
        x as int + 0x1_0000_0000
    };
    seq![
        (u % 256) as u8,
        (u / 0x100 % 256) as u8,
        (u / 0x1_0000 % 256) as u8,
        (u / 0x100_0000) as u8,
    ]
}

/// The 32-bit angle with the given bytes, low byte first.
pub open spec fn i32_from_le(b0: u8, b1: u8, b2: u8, b3: u8) -> i32 {
    let u = b0 as int + 0x100 * (b1 as int) + 0x1_0000 * (b2 as int) + 0x100_0000 * (b3 as int);
    if u < 0x8000_0000 {
        u as i32
    } else {
        (u - 0x1_0000_0000) as i32
    }
}

/// An optional angle on the wire: a zero byte if absent, else a one byte
/// followed by the angle.
pub open spec fn opt_i32_le(field: Option<i32>) -> Seq<u8> {
    match field {
        None => seq![0u8],
        Some(x) => seq![1u8] + i32_le(x),
    }
}

/// An optional flag on the wire: a zero byte if absent, else a one byte
/// followed by a byte that is one for `true` and zero for `false`.
pub open spec fn opt_bool_le(field: Option<bool>) -> Seq<u8> {
    match field {
        None => seq![0u8],
        Some(b) => seq![1u8, if b {
            1u8
        } else {
            0u8
        }],
    }
}

/// The frames of a batch on the wire: eight bytes per frame, two per
/// microphone, in order.
pub open spec fn samples_le(samples: Seq<MicArraySample>) -> Seq<u8> {
    Seq::new(
        (8 * samples.len()) as nat,
        |k: int| i16_le(samples[k / 8][(k % 8) / 2])[k % 2],
    )
}

/// The goals of the bracket on the wire: pan, then tilt.
pub open spec fn status_le(status: PanTiltStatus) -> Seq<u8> {
    i32_le(status.pan_deg) + i32_le(status.tilt_deg)
}

/// Reading the bytes of a sample gives the sample back.
pub proof fn lemma_i16_round_trip(x: i16)
    ensures
        i16_le(x).len() == 2,
        i16_from_le(i16_le(x)[0], i16_le(x)[1]) == x,
{
}

/// Writing the sample read from two bytes gives the two bytes back.
pub proof fn lemma_i16_bytes_round_trip(lo: u8, hi: u8)
    ensures
        i16_le(i16_from_le(lo, hi)) == seq![lo, hi],
{
    assert(i16_le(i16_from_le(lo, hi)) =~= seq![lo, hi]);
}

/// Reading the bytes of an angle gives the angle back.
pub proof fn lemma_i32_round_trip(x: i32)
    ensures
        i32_le(x).len() == 4,
        i32_from_le(i32_le(x)[0], i32_le(x)[1], i32_le(x)[2], i32_le(x)[3]) == x,
{
}

/// Writing the angle read from four bytes gives the four bytes back.
pub proof fn lemma_i32_bytes_round_trip(b0: u8, b1: u8, b2: u8, b3: u8)
    ensures
        i32_le(i32_from_le(b0, b1, b2, b3)) == seq![b0, b1, b2, b3],
{
    let v2 = b2 as int + 0x100 * (b3 as int);
    let v1 = b1 as int + 0x100 * v2;
    let u = b0 as int + 0x100 * v1;
    assert(u % 256 == b0 && u / 0x100 == v1);
    assert(v1 % 256 == b1 && v1 / 0x100 == v2);
    assert(v2 % 256 == b2 && v2 / 0x100 == b3);
    assert(u / 0x1_0000 == v2);
    assert(u / 0x100_0000 == b3);
    let x = i32_from_le(b0, b1, b2, b3);
    assert(u == b0 as int + 0x100 * (b1 as int) + 0x1_0000 * (b2 as int) + 0x100_0000 * (b3 as int));
    assert(x >= 0 ==> x as int == u);
    assert(x < 0 ==> x as int + 0x1_0000_0000 == u);
    assert(i32_le(x) =~= seq![b0, b1, b2, b3]);
}

/// A message with a fixed layout on the wire.
pub trait Wire: Sized {
    /// The bytes of the message on the wire.
    spec fn wire_bytes(&self) -> Seq<u8>;

    /// Two messages with the same bytes are the same message.
    proof fn lemma_wire_injective(a: &Self, b: &Self)
        requires
            a.wire_bytes() == b.wire_bytes(),
        ensures
            a == b,
    ;

    /// Lays the message out on the wire.
    fn to_bytes(&self) -> (bytes: Vec<u8>)
        ensures
            bytes@ == self.wire_bytes(),
    ;

    /// Reads a message from exactly the given bytes, or reports that they
    /// are not the layout of any message.
    fn from_bytes(bytes: &[u8]) -> (msg: Option<Self>)
        ensures
            match msg {
                Some(m) => m.wire_bytes() == bytes@,
                None => forall|m: Self| #[trigger] m.wire_bytes() != bytes@,
            },
    ;
}

/// The message whose bytes on the wire are `bytes`, if there is one.
pub open spec fn parsed<T: Wire>(bytes: Seq<u8>) -> Option<T> {
    if exists|m: T| #[trigger] m.wire_bytes() == bytes {
        Some(choose|m: T| #[trigger] m.wire_bytes() == bytes)
    } else {
        None
    }
}

/// Reading the bytes of a message gives the message back.
pub proof fn lemma_parse_inverts<T: Wire>(msg: T)
    ensures
        parsed::<T>(msg.wire_bytes()) == Some(msg),
{
    let found = choose|m: T| #[trigger] m.wire_bytes() == msg.wire_bytes();
    T::lemma_wire_injective(&found, &msg);
}

/// What is read from bytes is a message with exactly those bytes.
pub proof fn lemma_parsed_is<T: Wire>(bytes: Seq<u8>, msg: T)
    requires
        msg.wire_bytes() == bytes,
    ensures
        parsed::<T>(bytes) == Some(msg),
{
    lemma_parse_inverts(msg);
}

fn push_i16(bytes: &mut Vec<u8>, x: i16)
    ensures
        final(bytes)@ == old(bytes)@ + i16_le(x),
{
    let u: u32 = if x >= 0 {
        x as u32
    } else {
        (x as i32 + 0x1_0000) as u32
    };
    bytes.push((u % 256) as u8);
    bytes.push((u / 256) as u8);
    assert(bytes@ =~= old(bytes)@ + i16_le(x));
}

fn read_i16(lo: u8, hi: u8) -> (x: i16)
    ensures
        x == i16_from_le(lo, hi),
{
    let u: i32 = lo as i32 + 256 * (hi as i32);
    if u < 0x8000 {
        u as i16
    } else {
        (u - 0x1_0000) as i16
    }
}

fn push_i32(bytes: &mut Vec<u8>, x: i32)
    ensures
        final(bytes)@ == old(bytes)@ + i32_le(x),
{
    let u: u64 = if x >= 0 {
        x as u64
    } else {
        (x as i64 + 0x1_0000_0000) as u64
    };
    bytes.push((u % 256) as u8);
    bytes.push((u / 0x100 % 256) as u8);
    bytes.push((u / 0x1_0000 % 256) as u8);
    bytes.push((u / 0x100_0000) as u8);
    assert(bytes@ =~= old(bytes)@ + i32_le(x));
}

fn read_i32(b0: u8, b1: u8, b2: u8, b3: u8) -> (x: i32)
    ensures
        x == i32_from_le(b0, b1, b2, b3),
{
    let u: i64 = b0 as i64 + 0x100 * (b1 as i64) + 0x1_0000 * (b2 as i64) + 0x100_0000 * (b3 as i64);
    if u < 0x8000_0000 {
        u as i32
    } else {
        (u - 0x1_0000_0000) as i32
    }
}

impl SampleBuffer {
    /// Number of frames in a batch.
    pub fn size() -> (n: usize)
        ensures
            n == SAMPLE_BUF_SIZE,
    {
        SAMPLE_BUF_SIZE
    }

    /// A batch in which every reading is zero.
    pub fn new_empty() -> (buffer: Self)
        ensures
            forall|i: int, j: int|
                #![trigger buffer.0[i][j]]
                0 <= i < SAMPLE_BUF_SIZE && 0 <= j < 4 ==> buffer.0[i][j] == 0,
    {
        SampleBuffer([[0i16; 4]; SAMPLE_BUF_SIZE])
    }
}

impl Wire for PanTiltStatus {
    open spec fn wire_bytes(&self) -> Seq<u8> {
        status_le(*self)
    }

    proof fn lemma_wire_injective(a: &Self, b: &Self) {
        lemma_i32_round_trip(a.pan_deg);
        lemma_i32_round_trip(a.tilt_deg);
        lemma_i32_round_trip(b.pan_deg);
        lemma_i32_round_trip(b.tilt_deg);
        let wa = a.wire_bytes();
        let wb = b.wire_bytes();
        assert(wa.subrange(0, 4) =~= i32_le(a.pan_deg));
        assert(wb.subrange(0, 4) =~= i32_le(b.pan_deg));
        assert(wa.subrange(4, 8) =~= i32_le(a.tilt_deg));
        assert(wb.subrange(4, 8) =~= i32_le(b.tilt_deg));
    }

    fn to_bytes(&self) -> (bytes: Vec<u8>) {
        let mut bytes: Vec<u8> = Vec::new();
        push_i32(&mut bytes, self.pan_deg);
        push_i32(&mut bytes, self.tilt_deg);
        assert(bytes@ =~= self.wire_bytes());
        bytes
    }

    fn from_bytes(bytes: &[u8]) -> (msg: Option<Self>) {
        if bytes.len() != 8 {
            proof {
                assert forall|m: Self| #[trigger] m.wire_bytes() != bytes@ by {
                    assert(m.wire_bytes().len() == 8);
                }
            }
            return None;
        }
        let status = PanTiltStatus {
            pan_deg: read_i32(bytes[0], bytes[1], bytes[2], bytes[3]),
            tilt_deg: read_i32(bytes[4], bytes[5], bytes[6], bytes[7]),
        };
        proof {
            lemma_i32_bytes_round_trip(bytes[0], bytes[1], bytes[2], bytes[3]);
            lemma_i32_bytes_round_trip(bytes[4], bytes[5], bytes[6], bytes[7]);
            assert(status.wire_bytes() =~= bytes@);
        }
        Some(status)
    }
}

/// Number of bytes that an optional angle takes on the wire.
pub open spec fn opt_i32_len(field: Option<i32>) -> int {
    if field is Some {
        5
    } else {
        1
    }
}

/// The layout of a command, byte by byte: each presence byte sits right
/// after the field before it, and the bytes of a present value follow its
/// presence byte.
pub proof fn lemma_command_layout(msg: ServerToDevice)
    ensures
        ({
            let w = msg.wire_bytes();
            let at_tilt = opt_i32_len(msg.pan_degrees);
            let at_flag = at_tilt + opt_i32_len(msg.tilt_degrees);
            &&& w.len() == at_flag + (if msg.set_sampling_enabled is Some {
                2int
            } else {
                1int
            })
            &&& w[0] == (if msg.pan_degrees is Some {
                1u8
            } else {
                0u8
            })
            &&& w[at_tilt] == (if msg.tilt_degrees is Some {
                1u8
            } else {
                0u8
            })
            &&& w[at_flag] == (if msg.set_sampling_enabled is Some {
                1u8
            } else {
                0u8
            })
            &&& msg.pan_degrees is Some ==> w.subrange(1, 5) == i32_le(msg.pan_degrees->0)
            &&& msg.tilt_degrees is Some ==> w.subrange(at_tilt + 1, at_tilt + 5) == i32_le(
                msg.tilt_degrees->0,
            )
            &&& msg.set_sampling_enabled is Some ==> w[at_flag + 1] == (if msg.set_sampling_enabled->0 {
                1u8
            } else {
                0u8
            })
        }),
{
    let w = msg.wire_bytes();
    let a = opt_i32_le(msg.pan_degrees);
    let b = opt_i32_le(msg.tilt_degrees);
    let c = opt_bool_le(msg.set_sampling_enabled);
    assert(w == a + b + c);
    let la = a.len() as int;
    let lb = b.len() as int;
    assert(la == opt_i32_len(msg.pan_degrees));
    assert(lb == opt_i32_len(msg.tilt_degrees));
    assert(w.subrange(0, la) =~= a);
    assert(w.subrange(la, la + lb) =~= b);
    assert(w.subrange(la + lb, w.len() as int) =~= c);
    assert(w[0] == a[0]);
    assert(w[la] == b[0]);
    assert(w[la + lb] == c[0]);
    if msg.pan_degrees is Some {
        assert(w.subrange(1, 5) =~= a.subrange(1, 5));
        assert(a.subrange(1, 5) =~= i32_le(msg.pan_degrees->0));
    }
    if msg.tilt_degrees is Some {
        assert(w.subrange(la + 1, la + 5) =~= b.subrange(1, 5));
        assert(b.subrange(1, 5) =~= i32_le(msg.tilt_degrees->0));
    }
    if msg.set_sampling_enabled is Some {
        assert(w[la + lb + 1] == c[1]);
    }
}

fn push_opt_i32(bytes: &mut Vec<u8>, field: Option<i32>)
    ensures
        final(bytes)@ == old(bytes)@ + opt_i32_le(field),
{
    match field {
        None => {
            bytes.push(0);
            assert(bytes@ =~= old(bytes)@ + opt_i32_le(field));
        },
        Some(x) => {
            bytes.push(1);
            push_i32(bytes, x);
            assert(bytes@ =~= old(bytes)@ + opt_i32_le(field));
        },
    }
}

impl Wire for ServerToDevice {
    open spec fn wire_bytes(&self) -> Seq<u8> {
        opt_i32_le(self.pan_degrees) + opt_i32_le(self.tilt_degrees) + opt_bool_le(
            self.set_sampling_enabled,
        )
    }

    proof fn lemma_wire_injective(a: &Self, b: &Self) {
        lemma_command_layout(*a);
        lemma_command_layout(*b);
        if a.pan_degrees is Some {
            lemma_i32_round_trip(a.pan_degrees->0);
            lemma_i32_round_trip(b.pan_degrees->0);
        }
        if a.tilt_degrees is Some {
            lemma_i32_round_trip(a.tilt_degrees->0);
            lemma_i32_round_trip(b.tilt_degrees->0);
        }
    }

    fn to_bytes(&self) -> (bytes: Vec<u8>) {
        let mut bytes: Vec<u8> = Vec::new();
        push_opt_i32(&mut bytes, self.pan_degrees);
        push_opt_i32(&mut bytes, self.tilt_degrees);
        match self.set_sampling_enabled {
            None => {
                bytes.push(0);
            },
            Some(enabled) => {
                bytes.push(1);
                bytes.push(if enabled {
                    1
                } else {
                    0
                });
            },
        }
        assert(bytes@ =~= self.wire_bytes());
        bytes
    }

    fn from_bytes(bytes: &[u8]) -> (msg: Option<Self>) {
        let len: usize = bytes.len();
        proof {
            assert forall|m: Self| #[trigger] m.wire_bytes() == bytes@ implies {
                &&& len >= 3
                &&& bytes@[0] <= 1
            } by {
                lemma_command_layout(m);
            }
        }
        if len < 3 || bytes[0] > 1 {
            return None;
        }
        let mut at: usize = 1;
        let mut pan_degrees: Option<i32> = None;
        if bytes[0] == 1 {
            if len < 7 {
                proof {
                    assert forall|m: Self| #[trigger] m.wire_bytes() != bytes@ by {
                        lemma_command_layout(m);
                    }
                }
                return None;
            }
            pan_degrees = Some(read_i32(bytes[1], bytes[2], bytes[3], bytes[4]));
            at = 5;
            proof {
                lemma_i32_bytes_round_trip(bytes[1], bytes[2], bytes[3], bytes[4]);
                assert(bytes@.subrange(1, 5) =~= seq![bytes[1], bytes[2], bytes[3], bytes[4]]);
            }
        }
        let at_tilt: usize = at;
        let mut tilt_degrees: Option<i32> = None;
        if bytes[at] > 1 || (bytes[at] == 1 && len < at + 6) {
            proof {
                assert forall|m: Self| #[trigger] m.wire_bytes() != bytes@ by {
                    lemma_command_layout(m);
                }
            }
            return None;
        }
        if bytes[at] == 1 {
            tilt_degrees = Some(read_i32(bytes[at + 1], bytes[at + 2], bytes[at + 3], bytes[at + 4]));
            proof {
                lemma_i32_bytes_round_trip(
                    bytes[at + 1],
                    bytes[at + 2],
                    bytes[at + 3],
                    bytes[at + 4],
                );
                assert(bytes@.subrange(at + 1, at + 5) =~= seq![
                    bytes[at + 1],
                    bytes[at + 2],
                    bytes[at + 3],
                    bytes[at + 4],
                ]);
            }
            at = at + 5;
        } else {
            at = at + 1;
        }
        let at_flag: usize = at;
        let mut set_sampling_enabled: Option<bool> = None;
        let well_formed: bool = if bytes[at] == 0 {
            len == at + 1
        } else if bytes[at] == 1 {
            len == at + 2 && bytes[at + 1] <= 1
        } else {
            false
        };
        if !well_formed {
            proof {
                assert forall|m: Self| #[trigger] m.wire_bytes() != bytes@ by {
                    lemma_command_layout(m);
                }
            }
            return None;
        }
        if bytes[at] == 1 {
            set_sampling_enabled = Some(bytes[at + 1] == 1);
        }
        let msg = ServerToDevice { pan_degrees, tilt_degrees, set_sampling_enabled };
        proof {
            lemma_command_layout(msg);
            let w = msg.wire_bytes();
            assert(w.len() == bytes@.len());
            assert forall|k: int| 0 <= k < w.len() implies w[k] == bytes@[k] by {
                if 1 <= k < 5 && pan_degrees is Some {
                    assert(w[k] == w.subrange(1, 5)[k - 1]);
                    assert(bytes@[k] == bytes@.subrange(1, 5)[k - 1]);
                } else if at_tilt + 1 <= k < at_tilt + 5 && tilt_degrees is Some {
                    assert(w[k] == w.subrange(at_tilt + 1, at_tilt + 5)[k - at_tilt - 1]);
                    assert(bytes@[k] == bytes@.subrange(at_tilt + 1, at_tilt + 5)[k - at_tilt - 1]);
                }
            }
            assert(w =~= bytes@);
        }
        Some(msg)
    }
}

impl Default for ServerToDevice {
    /// The command that asks for nothing.
    fn default() -> (msg: Self)
        ensures
            msg.pan_degrees is None,
            msg.tilt_degrees is None,
            msg.set_sampling_enabled is None,
    {
        ServerToDevice { pan_degrees: None, tilt_degrees: None, set_sampling_enabled: None }
    }
}

/// The bytes of a batch, one pair per reading: the byte at `8 * i + 2 * j`
/// and the one after it are the reading of microphone `j` in frame `i`.
pub proof fn lemma_samples_layout(samples: Seq<MicArraySample>, i: int, j: int)
    requires
        0 <= i < samples.len(),
        0 <= j < 4,
    ensures
        samples_le(samples).len() == 8 * samples.len(),
        samples_le(samples)[8 * i + 2 * j] == i16_le(samples[i][j])[0],
        samples_le(samples)[8 * i + 2 * j + 1] == i16_le(samples[i][j])[1],
{
    let k = 8 * i + 2 * j;
    assert(k / 8 == i && (k % 8) / 2 == j && k % 2 == 0);
    assert((k + 1) / 8 == i && ((k + 1) % 8) / 2 == j && (k + 1) % 2 == 1);
}

/// Two batches with the same bytes hold the same readings.
pub proof fn lemma_samples_injective(a: SampleBuffer, b: SampleBuffer)
    requires
        samples_le(a.0@) == samples_le(b.0@),
    ensures
        a == b,
{
    assert forall|i: int| 0 <= i < SAMPLE_BUF_SIZE implies a.0[i] == b.0[i] by {
        assert forall|j: int| 0 <= j < 4 implies a.0[i][j] == b.0[i][j] by {
            lemma_samples_layout(a.0@, i, j);
            lemma_samples_layout(b.0@, i, j);
            lemma_i16_round_trip(a.0[i][j]);
            lemma_i16_round_trip(b.0[i][j]);
        }
        assert(a.0[i] =~= b.0[i]);
    }
    assert(a.0 =~= b.0);
}

fn push_samples(bytes: &mut Vec<u8>, samples: &SampleBuffer)
    ensures
        final(bytes)@ == old(bytes)@ + samples_le(samples.0@),
{
    let ghost all = samples_le(samples.0@);
    let mut i: usize = 0;
    assert(bytes@ =~= old(bytes)@ + all.subrange(0, 0));
    while i < SAMPLE_BUF_SIZE
        invariant
            i <= SAMPLE_BUF_SIZE,
            all == samples_le(samples.0@),
            bytes@ == old(bytes)@ + all.subrange(0, 8 * i),
        decreases SAMPLE_BUF_SIZE - i,
    {
        let ghost before = bytes@;
        let frame: MicArraySample = samples.0[i];
        push_i16(bytes, frame[0]);
        push_i16(bytes, frame[1]);
        push_i16(bytes, frame[2]);
        push_i16(bytes, frame[3]);
        proof {
            lemma_samples_layout(samples.0@, i as int, 0);
            lemma_samples_layout(samples.0@, i as int, 1);
            lemma_samples_layout(samples.0@, i as int, 2);
            lemma_samples_layout(samples.0@, i as int, 3);
            let added = i16_le(frame[0]) + i16_le(frame[1]) + i16_le(frame[2]) + i16_le(frame[3]);
            assert(bytes@ =~= before + added);
            assert(added =~= all.subrange(8 * i, 8 * i + 8));
            assert(all.subrange(0, 8 * i) + all.subrange(8 * i, 8 * i + 8) =~= all.subrange(
                0,
                8 * (i + 1),
            ));
            assert(bytes@ =~= old(bytes)@ + all.subrange(0, 8 * (i + 1)));
        }
        i = i + 1;
    }
    assert(all.subrange(0, 8 * SAMPLE_BUF_SIZE) =~= all);
}

fn read_samples(bytes: &[u8]) -> (samples: SampleBuffer)
    requires
        bytes@.len() == 1 + SAMPLE_BUF_BYTES,
    ensures
        samples_le(samples.0@) == bytes@.skip(1),
{
    let mut frames: [MicArraySample; SAMPLE_BUF_SIZE] = [[0i16; 4]; SAMPLE_BUF_SIZE];
    let mut i: usize = 0;
    while i < SAMPLE_BUF_SIZE
        invariant
            i <= SAMPLE_BUF_SIZE,
            bytes@.len() == 1 + SAMPLE_BUF_BYTES,
            forall|k: int, j: int|
                #![trigger frames[k][j]]
                0 <= k < i && 0 <= j < 4 ==> frames[k][j] == i16_from_le(
                    bytes@[1 + 8 * k + 2 * j],
                    bytes@[2 + 8 * k + 2 * j],
                ),
        decreases SAMPLE_BUF_SIZE - i,
    {
        let at: usize = 1 + 8 * i;
        let frame: MicArraySample = [
            read_i16(bytes[at], bytes[at + 1]),
            read_i16(bytes[at + 2], bytes[at + 3]),
            read_i16(bytes[at + 4], bytes[at + 5]),
            read_i16(bytes[at + 6], bytes[at + 7]),
        ];
        let ghost before = frames;
        frames[i] = frame;
        proof {
            assert forall|k: int, j: int|
                #![trigger frames[k][j]]
                0 <= k < i + 1 && 0 <= j < 4 implies frames[k][j] == i16_from_le(
                bytes@[1 + 8 * k + 2 * j],
                bytes@[2 + 8 * k + 2 * j],
            ) by {
                if k < i {
                    assert(frames[k] == before[k]);
                    assert(before[k][j] == i16_from_le(
                        bytes@[1 + 8 * k + 2 * j],
                        bytes@[2 + 8 * k + 2 * j],
                    ));
                }
            }
        }
        i = i + 1;
    }
    proof {
        let w = samples_le(frames@);
        let rest = bytes@.skip(1);
        assert forall|n: int| 0 <= n < w.len() implies w[n] == rest[n] by {
            let k = n / 8;
            let j = (n % 8) / 2;
            lemma_samples_layout(frames@, k, j);
            lemma_i16_bytes_round_trip(bytes@[1 + 8 * k + 2 * j], bytes@[2 + 8 * k + 2 * j]);
            assert(frames[k][j] == i16_from_le(
                bytes@[1 + 8 * k + 2 * j],
                bytes@[2 + 8 * k + 2 * j],
            ));
        }
        assert(w =~= rest);
    }
    SampleBuffer(frames)
}

impl Wire for DeviceToServer {
    open spec fn wire_bytes(&self) -> Seq<u8> {
        match self {
            DeviceToServer::Sync => seq![0u8],
            DeviceToServer::PanTilt(status) => seq![1u8] + status_le(*status),
            DeviceToServer::Samples(samples) => seq![2u8] + samples_le(samples.0@),
        }
    }

    proof fn lemma_wire_injective(a: &Self, b: &Self) {
        let wa = a.wire_bytes();
        let wb = b.wire_bytes();
        assert(wa[0] == wb[0]);
        match (*a, *b) {
            (DeviceToServer::PanTilt(sa), DeviceToServer::PanTilt(sb)) => {
                assert(wa.skip(1) =~= status_le(sa));
                assert(wb.skip(1) =~= status_le(sb));
                PanTiltStatus::lemma_wire_injective(&sa, &sb);
            },
            (DeviceToServer::Samples(sa), DeviceToServer::Samples(sb)) => {
                assert(wa.skip(1) =~= samples_le(sa.0@));
                assert(wb.skip(1) =~= samples_le(sb.0@));
                lemma_samples_injective(sa, sb);
            },
            _ => {},
        }
    }

    fn to_bytes(&self) -> (bytes: Vec<u8>) {
        let mut bytes: Vec<u8> = Vec::new();
        match self {
            DeviceToServer::Sync => {
                bytes.push(0);
                assert(bytes@ =~= self.wire_bytes());
            },
            DeviceToServer::PanTilt(status) => {
                bytes.push(1);
                push_i32(&mut bytes, status.pan_deg);
                push_i32(&mut bytes, status.tilt_deg);
                assert(bytes@ =~= self.wire_bytes());
            },
            DeviceToServer::Samples(samples) => {
                bytes.push(2);
                push_samples(&mut bytes, samples);
                assert(bytes@ =~= self.wire_bytes());
            },
        }
        bytes
    }

    fn from_bytes(bytes: &[u8]) -> (msg: Option<Self>) {
        let len: usize = bytes.len();
        proof {
            assert forall|m: Self| #[trigger] m.wire_bytes() == bytes@ implies {
                &&& len >= 1
                &&& m is Sync <==> bytes@[0] == 0
                &&& m is PanTilt <==> bytes@[0] == 1
                &&& m is Samples <==> bytes@[0] == 2
                &&& m is Sync ==> len == 1
                &&& m is PanTilt ==> len == 9
                &&& m is Samples ==> len == 1 + SAMPLE_BUF_BYTES
            } by {
                match m {
                    DeviceToServer::Sync => {},
                    DeviceToServer::PanTilt(status) => {
                        assert(status_le(status).len() == 8);
                    },
                    DeviceToServer::Samples(samples) => {
                        assert(samples_le(samples.0@).len() == 8 * SAMPLE_BUF_SIZE);
                    },
                }
            }
        }
        if len == 0 {
            return None;
        }
        let tag: u8 = bytes[0];
        if tag == 0 && len == 1 {
            let msg = DeviceToServer::Sync;
            assert(msg.wire_bytes() =~= bytes@);
            Some(msg)
        } else if tag == 1 && len == 9 {
            let status = PanTiltStatus {
                pan_deg: read_i32(bytes[1], bytes[2], bytes[3], bytes[4]),
                tilt_deg: read_i32(bytes[5], bytes[6], bytes[7], bytes[8]),
            };
            let msg = DeviceToServer::PanTilt(status);
            proof {
                lemma_i32_bytes_round_trip(bytes[1], bytes[2], bytes[3], bytes[4]);
                lemma_i32_bytes_round_trip(bytes[5], bytes[6], bytes[7], bytes[8]);
                assert(msg.wire_bytes() =~= bytes@);
            }
            Some(msg)
        } else if tag == 2 && len == 1 + SAMPLE_BUF_BYTES {
            let samples = read_samples(bytes);
            let msg = DeviceToServer::Samples(samples);
            proof {
                assert(msg.wire_bytes() =~= seq![2u8] + bytes@.skip(1));
                assert(seq![2u8] + bytes@.skip(1) =~= bytes@);
            }
            Some(msg)
        } else {
            None
        }
    }
}

} // verus!
