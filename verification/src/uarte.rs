//! The serial link as the device sees it: a receive buffer that the
//! peripheral fills, and a transmit side that sends one frame at a time.
//!
//! The peripheral's event flags are read by the caller and handed in; what
//! the caller is to do with the peripheral follows from what is returned.

use crate::accumulator::{frame_of, to_frame};
use crate::format::DeviceToServer;
use crate::taken::Taken;
use vstd::prelude::*;
use vstd::slice::slice_subrange;

verus! {

/// Size of the receive buffer: the most that the peripheral moves in one
/// transfer.
pub const RX_BUFFER_SIZE: usize = 255;

/// Size of the transmit buffer: the longest frame that can be sent.
pub const TX_BUFFER_SIZE: usize = 8195;

/// An event of the peripheral that the interrupt handler acts on.
#[derive(Clone, Copy, Debug, PartialEq, Eq, Structural)]
pub enum UarteEvent {
    /// A receive transfer has ended.
    EndRx,
    /// A transmit transfer has ended.
    EndTx,
}

/// How an attempt to start a transmission ended.
#[derive(Clone, Copy, Debug, PartialEq, Eq, Structural)]
pub enum StartTxResult {
    /// The frame is in the transmit buffer and is to be sent.
    Done,
    /// A transmission is still in flight. Try again later.
    Busy,
    /// The frame does not fit the transmit buffer.
    Error,
}

/// The memory that received bytes are moved to.
pub struct UarteRxBuffer {
    bytes: [u8; RX_BUFFER_SIZE],
}

impl UarteRxBuffer {
    /// What the buffer holds.
    pub closed spec fn contents(&self) -> Seq<u8> {
        self.bytes@
    }

    /// Hands out the receive buffer, once: `None` if it was taken before.
    pub fn take(guard: &mut Taken) -> (buffer: Option<Self>)
        ensures
            final(guard).is_taken(),
            buffer is None <==> old(guard).is_taken(),
            buffer is Some ==> buffer->0.contents() == Seq::new(
                RX_BUFFER_SIZE as nat,
                |i: int| 0u8,
            ),
    {
        if guard.swap_taken() {
            return None;
        }
        let buffer = UarteRxBuffer { bytes: [0u8; RX_BUFFER_SIZE] };
        assert(buffer.contents() =~= Seq::new(RX_BUFFER_SIZE as nat, |i: int| 0u8));
        Some(buffer)
    }

    /// The whole buffer.
    pub fn as_slice(&self) -> (bytes: &[u8])
        ensures
            bytes@ == self.contents(),
            bytes@.len() == RX_BUFFER_SIZE,
    {
        self.bytes.as_slice()
    }
}

/// The transmit buffer and the length of the frame in it.
struct TxBuffer {
    buf: [u8; TX_BUFFER_SIZE],
    len: usize,
}

impl TxBuffer {
    #[verifier::type_invariant]
    spec fn frame_within_buffer(&self) -> bool {
        self.len <= TX_BUFFER_SIZE
    }

    closed spec fn frame(&self) -> Seq<u8> {
        self.buf@.subrange(0, self.len as int)
    }

    fn new() -> (tx: Self)
        ensures
            tx.frame() == Seq::<u8>::empty(),
    {
        let tx = TxBuffer { buf: [0u8; TX_BUFFER_SIZE], len: 0 };
        assert(tx.frame() =~= Seq::<u8>::empty());
        tx
    }

    fn load(&mut self, frame: &Vec<u8>)
        requires
            frame@.len() <= TX_BUFFER_SIZE,
        ensures
            final(self).frame() == frame@,
    {
        proof {
            use_type_invariant(&*self);
        }
        let len: usize = frame.len();
        let mut k: usize = 0;
        while k < len
            invariant
                k <= len,
                len == frame@.len(),
                len <= TX_BUFFER_SIZE,
                self.len <= TX_BUFFER_SIZE,
                self.buf@.subrange(0, k as int) == frame@.subrange(0, k as int),
            decreases len - k,
        {
            self.buf[k] = frame[k];
            k = k + 1;
            assert(self.buf@.subrange(0, k as int) =~= frame@.subrange(0, k as int));
        }
        self.len = len;
        assert(frame@.subrange(0, len as int) =~= frame@);
    }

    fn bytes(&self) -> (frame: &[u8])
        ensures
            frame@ == self.frame(),
    {
        proof {
            use_type_invariant(self);
        }
        slice_subrange(self.buf.as_slice(), 0, self.len)
    }
}

/// The link's state between interrupts.
pub struct Uarte {
    buffer: UarteRxBuffer,
    endtx_raised: bool,
    tx: TxBuffer,
}

impl Uarte {
    /// Whether the end of the last transmission has been seen and not yet
    /// used up by the start of a new one.
    pub closed spec fn endtx_raised(&self) -> bool {
        self.endtx_raised
    }

    /// The frame that was last put into the transmit buffer.
    pub closed spec fn tx_frame(&self) -> Seq<u8> {
        self.tx.frame()
    }

    /// What the receive buffer holds.
    pub closed spec fn rx_contents(&self) -> Seq<u8> {
        self.buffer.contents()
    }

    /// A link over the given receive buffer, with nothing sent yet.
    pub fn init(buffer: UarteRxBuffer) -> (uarte: Self)
        ensures
            !uarte.endtx_raised(),
            uarte.tx_frame() == Seq::<u8>::empty(),
            uarte.rx_contents() == buffer.contents(),
    {
        Uarte { buffer, endtx_raised: false, tx: TxBuffer::new() }
    }

    /// Tries to start the transmission of `msg`.
    ///
    /// `tx_started` tells whether the peripheral has flagged the start of a
    /// transmission. If it has and the end of that transmission has not been
    /// seen, the link is busy and nothing changes. Otherwise the caller is to
    /// clear the peripheral's transmit flags, and the frame of `msg` is put
    /// into the transmit buffer for the caller to send, unless it is too long.
    pub fn try_start_tx(&mut self, tx_started: bool, msg: &DeviceToServer) -> (result: StartTxResult)
        ensures
            result is Busy <==> tx_started && !old(self).endtx_raised(),
            result is Done <==> !(tx_started && !old(self).endtx_raised()) && frame_of(*msg).len()
                <= TX_BUFFER_SIZE,
            result is Busy ==> final(self).endtx_raised() == old(self).endtx_raised(),
            !(result is Busy) ==> final(self).endtx_raised() == (!tx_started && old(
                self,
            ).endtx_raised()),
            result is Done ==> final(self).tx_frame() == frame_of(*msg),
            !(result is Done) ==> final(self).tx_frame() == old(self).tx_frame(),
            final(self).rx_contents() == old(self).rx_contents(),
    {
        if tx_started {
            if !self.endtx_raised {
                return StartTxResult::Busy;
            }
            self.endtx_raised = false;
        }
        let frame: Vec<u8> = to_frame(msg);
        if frame.len() > TX_BUFFER_SIZE {
            return StartTxResult::Error;
        }
        self.tx.load(&frame);
        StartTxResult::Done
    }

    /// The frame to send after [`Uarte::try_start_tx`] has returned `Done`.
    pub fn tx_bytes(&self) -> (frame: &[u8])
        ensures
            frame@ == self.tx_frame(),
    {
        self.tx.bytes()
    }

    /// Tells which event of the peripheral is to be handled, given its
    /// flags, and notes the end of a transmission.
    ///
    /// The end of a receive transfer comes first: the caller is to start the
    /// next transfer and clear that flag. Else the end of a transmission is
    /// noted, so that the next frame may be sent, and the caller is to clear
    /// that flag.
    pub fn get_clear_event(&mut self, endrx: bool, endtx: bool) -> (event: Option<UarteEvent>)
        ensures
            endrx ==> event == Some(UarteEvent::EndRx),
            !endrx && endtx ==> event == Some(UarteEvent::EndTx),
            !endrx && !endtx ==> event is None,
            final(self).endtx_raised() == (old(self).endtx_raised() || (!endrx && endtx)),
            final(self).tx_frame() == old(self).tx_frame(),
            final(self).rx_contents() == old(self).rx_contents(),
    {
        if endrx {
            return Some(UarteEvent::EndRx);
        }
        if endtx {
            self.endtx_raised = true;
            return Some(UarteEvent::EndTx);
        }
        None
    }

    /// The memory that the peripheral is to move received bytes to.
    pub fn rx_target(&mut self) -> (target: &mut [u8; RX_BUFFER_SIZE])
        ensures
            target@ == old(self).rx_contents(),
            final(self).rx_contents() == final(target)@,
            final(self).endtx_raised() == old(self).endtx_raised(),
            final(self).tx_frame() == old(self).tx_frame(),
    {
        &mut self.buffer.bytes
    }

    /// The bytes that the last receive transfer brought: the first `amount`
    /// bytes of the receive buffer.
    pub fn get_rx_chunk(&self, amount: usize) -> (chunk: &[u8])
        requires
            amount <= RX_BUFFER_SIZE,
        ensures
            chunk@ == self.rx_contents().subrange(0, amount as int),
    {
        slice_subrange(self.buffer.as_slice(), 0, amount)
    }
}

} // verus!
