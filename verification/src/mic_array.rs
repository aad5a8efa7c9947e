//! Double-buffered capture of sample batches.
//!
//! Two batch buffers alternate between two roles: the converter fills the
//! active one while the compute path reads the ready one. When a batch is
//! complete the roles swap, so that capture goes on without a gap and the
//! compute path never reads the buffer that is being written.

use crate::format::{SampleBuffer, SAMPLE_BUF_SIZE};
use crate::taken::Taken;
use vstd::prelude::*;

verus! {

/// Whether every reading of `buffer` is zero.
pub open spec fn is_silent(buffer: SampleBuffer) -> bool {
    forall|i: int, j: int|
        #![trigger buffer.0[i][j]]
        0 <= i < SAMPLE_BUF_SIZE && 0 <= j < 4 ==> buffer.0[i][j] == 0
}

/// The pair of batch buffers and their roles.
pub struct SaadcBuffer {
    first: SampleBuffer,
    second: SampleBuffer,
    reading_first: bool,
}

impl SaadcBuffer {
    /// The ready buffer: the last complete batch.
    pub closed spec fn ready(&self) -> SampleBuffer {
        if self.reading_first {
            self.first
        } else {
            self.second
        }
    }

    /// The active buffer: the one that capture writes to.
    pub closed spec fn active(&self) -> SampleBuffer {
        if self.reading_first {
            self.second
        } else {
            self.first
        }
    }

    /// Hands out the pair of buffers, once: `None` if they were taken before.
    /// Both buffers start out silent.
    pub fn take(guard: &mut Taken) -> (buffer: Option<Self>)
        ensures
            final(guard).is_taken(),
            buffer is None <==> old(guard).is_taken(),
            buffer is Some ==> is_silent(buffer->0.ready()) && is_silent(buffer->0.active()),
    {
        if guard.swap_taken() {
            return None;
        }
        Some(
            SaadcBuffer {
                first: SampleBuffer::new_empty(),
                second: SampleBuffer::new_empty(),
                reading_first: true,
            },
        )
    }

    /// The active buffer, for capture to fill. The ready buffer is untouched
    /// by whatever is written through the reference.
    pub fn write_buf(&mut self) -> (buf: &mut SampleBuffer)
        ensures
            *buf == old(self).active(),
            final(self).active() == *final(buf),
            final(self).ready() == old(self).ready(),
    {
        if self.reading_first {
            &mut self.second
        } else {
            &mut self.first
        }
    }

    /// The ready buffer. The active buffer is untouched by whatever is
    /// written through the reference.
    pub fn read_buf(&mut self) -> (buf: &mut SampleBuffer)
        ensures
            *buf == old(self).ready(),
            final(self).ready() == *final(buf),
            final(self).active() == old(self).active(),
    {
        if self.reading_first {
            &mut self.first
        } else {
            &mut self.second
        }
    }

    /// Exchanges the roles: the buffer that was being filled becomes the
    /// ready one, and the one that was ready becomes free to fill.
    pub fn swap(&mut self)
        ensures
            final(self).ready() == old(self).active(),
            final(self).active() == old(self).ready(),
    {
        self.reading_first = !self.reading_first;
    }
}

/// The capture side of the microphone array: the buffer pair, and whether
/// the timer and converter chain is armed.
pub struct MicArray {
    buffer: SaadcBuffer,
    sampling: bool,
}

impl MicArray {
    /// The last complete batch.
    pub closed spec fn ready(&self) -> SampleBuffer {
        self.buffer.ready()
    }

    /// The batch that capture is writing.
    pub closed spec fn active(&self) -> SampleBuffer {
        self.buffer.active()
    }

    /// Whether capture is armed.
    pub closed spec fn sampling(&self) -> bool {
        self.sampling
    }

    /// A microphone array over the given buffers, with capture disarmed.
    pub fn new(buffer: SaadcBuffer) -> (mic_array: Self)
        ensures
            !mic_array.sampling(),
            mic_array.ready() == buffer.ready(),
            mic_array.active() == buffer.active(),
    {
        MicArray { buffer, sampling: false }
    }

    /// Whether capture is armed.
    pub fn is_sampling(&self) -> (armed: bool)
        ensures
            armed == self.sampling(),
    {
        self.sampling
    }

    /// Swaps the buffers and returns the batch that was just completed.
    /// Capture continues into the buffer that was ready before, which
    /// [`MicArray::capture_target`] now returns.
    pub fn get_newest_samples(&mut self) -> (batch: &mut SampleBuffer)
        ensures
            *batch == old(self).active(),
            final(self).ready() == *final(batch),
            final(self).active() == old(self).ready(),
            final(self).sampling() == old(self).sampling(),
    {
        self.buffer.swap();
        self.buffer.read_buf()
    }

    /// The last complete batch, without swapping.
    pub fn last_batch(&mut self) -> (batch: &mut SampleBuffer)
        ensures
            *batch == old(self).ready(),
            final(self).ready() == *final(batch),
            final(self).active() == old(self).active(),
            final(self).sampling() == old(self).sampling(),
    {
        self.buffer.read_buf()
    }

    /// The buffer that capture is to write to.
    pub fn capture_target(&mut self) -> (target: &mut SampleBuffer)
        ensures
            *target == old(self).active(),
            final(self).active() == *final(target),
            final(self).ready() == old(self).ready(),
            final(self).sampling() == old(self).sampling(),
    {
        self.buffer.write_buf()
    }

    /// Arms capture. The buffers are left as they are.
    pub fn start_sampling_task(&mut self)
        ensures
            final(self).sampling(),
            final(self).ready() == old(self).ready(),
            final(self).active() == old(self).active(),
    {
        self.sampling = true;
    }

    /// Disarms capture. The buffers are left as they are, so that a
    /// computation under way still finds the last batch.
    pub fn stop_sampling_task(&mut self)
        ensures
            !final(self).sampling(),
            final(self).ready() == old(self).ready(),
            final(self).active() == old(self).active(),
    {
        self.sampling = false;
    }
}

} // verus!
