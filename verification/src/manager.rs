use vstd::prelude::*;
use crate::scheduler::{window_end, Scheduler, SchedulerSource};
use crate::source::MAX_FRAMES;
use crate::time::{spec_to_frames, Time};

verus! {

/// Drives the mixer at a fixed buffer size: time advanced by the caller is
/// owed as frames, and whole buffers are rendered (for the caller to hand
/// to its sink) whenever more than one buffer is owed.
pub struct Manager {
    /// The mixer this manager drives.
    pub source: SchedulerSource,
    /// Frames per rendered buffer.
    pub buffersize: usize,
    /// Frames owed but not yet rendered.
    pub pending: u64,
}

impl Manager {
    /// Structural validity: a renderable buffer size and a valid mixer.
    pub open spec fn wf(&self) -> bool {
        &&& self.source.wf()
        &&& 1 <= self.buffersize <= MAX_FRAMES
    }

    /// A manager over a fresh mixer at the given format, with the root
    /// handle for the program director.
    pub fn new(samplerate: u32, channels: u16, buffersize: usize) -> (pair: (Manager, Scheduler))
        requires
            samplerate >= 1,
            channels >= 1,
            1 <= buffersize <= MAX_FRAMES,
        ensures
            pair.0.wf(),
            pair.0.source.samplerate == samplerate,
            pair.0.source.channels == channels,
            pair.0.buffersize == buffersize,
            pair.0.pending == 0,
            pair.1.id == 0,
            pair.1.samplerate == samplerate,
            pair.1.channels == channels,
    {
        let (handle, source) = Scheduler::new(samplerate, channels);
        (Manager { source, buffersize, pending: 0 }, handle)
    }

    /// Renders one buffer regardless of the owed count: the stream's next
    /// window, or nothing exactly when the mixer's root — with its due
    /// timers fired — is idle (the true end of the stream) or its frame
    /// counter would overflow.  A nonempty chunk advances the root by one
    /// buffer of frames.
    pub fn next_chunk(&mut self) -> (out: Vec<i32>)
        requires
            old(self).wf(),
        ensures
            final(self).wf(),
            final(self).buffersize == old(self).buffersize,
            final(self).pending == old(self).pending,
            final(self).source.samplerate == old(self).source.samplerate,
            final(self).source.channels == old(self).source.channels,
            out.len() == 0 || out.len() == old(self).buffersize * old(self).source.channels,
            ({
                let n0 = old(self).source.nodes[0];
                let remaining = n0.timers@.filter(
                    |tm: (u64, u64)| !(tm.0 < window_end(
                        n0.offset as int,
                        old(self).buffersize as int,
                    )),
                );
                out.len() == 0 <==> ((n0.active.len() == 0 && n0.scheduled.len() == 0
                    && remaining.len() == 0) || n0.offset + old(self).buffersize > u64::MAX)
            }),
            out.len() != 0 ==> final(self).source.nodes[0].offset == old(
                self,
            ).source.nodes[0].offset + old(self).buffersize,
    {
        self.source.fill(self.buffersize)
    }

    /// Advances time: the owed frames grow by `dt`, and one buffer is
    /// rendered for each whole buffer owed beyond the first.  The rendered
    /// buffers are returned in order for the caller's sink; a window past
    /// the end of the stream comes out as silence.
    pub fn advance(&mut self, dt: Time) -> (chunks: Vec<Vec<i32>>)
        requires
            old(self).wf(),
            0 <= spec_to_frames(dt, old(self).source.samplerate as int),
            old(self).pending + spec_to_frames(dt, old(self).source.samplerate as int)
                <= u64::MAX,
        ensures
            final(self).wf(),
            final(self).buffersize == old(self).buffersize,
            final(self).source.samplerate == old(self).source.samplerate,
            final(self).source.channels == old(self).source.channels,
            final(self).pending <= old(self).buffersize,
            final(self).pending + chunks.len() * old(self).buffersize == old(self).pending
                + spec_to_frames(dt, old(self).source.samplerate as int),
            forall|k: int|
                0 <= k < chunks.len() ==> (#[trigger] chunks@[k]).len() == old(self).buffersize
                    * old(self).source.channels,
            final(self).source.next_timer == old(self).source.next_timer,
            final(self).source.nodes.len() == old(self).source.nodes.len(),
            exists|n: int|
                0 <= n <= chunks.len() && #[trigger] (n * old(self).buffersize) >= 0
                    && final(self).source.nodes[0].offset
                    == old(self).source.nodes[0].offset + n * old(self).buffersize,
    {
        let add = dt.to_frames(self.source.samplerate);
        self.pending = self.pending + add;
        let mut chunks: Vec<Vec<i32>> = Vec::new();
        let ghost total = old(self).pending + add;
        let ghost mut nr: int = 0;
        proof {
            let ghost b = old(self).buffersize as int;
            assert(chunks.len() * b == 0) by (nonlinear_arith)
                requires
                    chunks.len() == 0,
            ;
        }
        while self.pending > self.buffersize as u64
            invariant
                self.wf(),
                self.buffersize == old(self).buffersize,
                self.source.samplerate == old(self).source.samplerate,
                self.source.channels == old(self).source.channels,
                self.pending + chunks.len() * old(self).buffersize == total,
                forall|k: int|
                    0 <= k < chunks.len() ==> (#[trigger] chunks@[k]).len() == old(
                        self,
                    ).buffersize * old(self).source.channels,
                self.source.next_timer == old(self).source.next_timer,
                self.source.nodes.len() == old(self).source.nodes.len(),
                0 <= nr <= chunks.len(),
                self.source.nodes[0].offset == old(self).source.nodes[0].offset + nr * old(
                    self,
                ).buffersize,
            decreases self.pending,
        {
            let ghost off_before = self.source.nodes[0].offset as int;
            let mut chunk = self.source.fill(self.buffersize);
            proof {
                if chunk.len() != 0 {
                    nr = nr + 1;
                    let b = old(self).buffersize as int;
                    assert(nr * b == (nr - 1) * b + b) by (nonlinear_arith);
                }
            }
            if chunk.len() == 0 {
                proof {
                    assert(self.buffersize as int * (self.source.channels as int)
                        <= 0x8000 * 0x1_0000) by (nonlinear_arith)
                        requires
                            1 <= self.buffersize as int <= 0x8000,
                            1 <= self.source.channels as int <= 0x1_0000,
                    ;
                }
                chunk = silence(self.buffersize, self.source.channels);
            }
            chunks.push(chunk);
            self.pending = self.pending - self.buffersize as u64;
            proof {
                let ghost b = old(self).buffersize as int;
                assert((chunks.len() as int) * b == (chunks.len() - 1) * b + b)
                    by (nonlinear_arith);
            }
        }
        proof {
            let b = old(self).buffersize as int;
            assert(nr * b >= 0) by (nonlinear_arith)
                requires
                    nr >= 0,
                    b >= 0,
            ;
        }
        chunks
    }

    /// Advances time without keeping the audio: the same accounting as
    /// `advance`, with the rendered buffers discarded.
    pub fn skip(&mut self, dt: Time)
        requires
            old(self).wf(),
            0 <= spec_to_frames(dt, old(self).source.samplerate as int),
            old(self).pending + spec_to_frames(dt, old(self).source.samplerate as int)
                <= u64::MAX,
        ensures
            final(self).wf(),
            final(self).buffersize == old(self).buffersize,
            final(self).source.samplerate == old(self).source.samplerate,
            final(self).source.channels == old(self).source.channels,
            final(self).pending <= old(self).buffersize,
            exists|n: int|
                0 <= #[trigger] (n * old(self).buffersize) && final(self).pending + n * old(
                    self,
                ).buffersize == old(self).pending + spec_to_frames(
                    dt,
                    old(self).source.samplerate as int,
                ),
    {
        let dropped = self.advance(dt);
        proof {
            assert(self.pending + dropped.len() * old(self).buffersize == old(self).pending
                + spec_to_frames(dt, old(self).source.samplerate as int));
        }
    }
}

/// A buffer of silent frames.
fn silence(frames: usize, channels: u16) -> (out: Vec<i32>)
    requires
        frames * channels <= usize::MAX,
    ensures
        out.len() == frames * channels,
        forall|k: int| 0 <= k < out.len() ==> #[trigger] out@[k] == 0,
{
    let mut out: Vec<i32> = Vec::new();
    out.resize(frames * channels as usize, 0);
    out
}

} // verus!
