use vstd::prelude::*;
use crate::mix::{find_mix, matrix_wf, remix_buffer};
use crate::samples::{apply_gain, VOL_MAX};
use crate::sine::Sine;
use crate::volume::recv_gain;

verus! {

/// Why a source operation failed.
#[derive(Clone, Copy, Debug, PartialEq, Eq, Structural)]
pub enum SourceError {
    /// The stream cannot be repositioned (a live mixer).
    NotSeekable,
    /// The gain measurement failed; the stream is permanently silent.
    NormalizationFailed,
    /// The container refused the reposition.
    SeekFailed,
}

/// A pull-based audio stream: a leaf generator or in-memory buffer, a
/// decoded media stream, or a wrapper that remixes channels, converts the
/// rate or scales the gain of an inner source.  `Sub` stands for a
/// sub-scheduler's output and is rendered by the scheduler that owns it.
pub enum Source {
    Sine(Sine),
    Buffer(BufferSource),
    Media(crate::media::Media),
    Remix(Box<RemixSource>),
    Resample(Box<ResampleSource>),
    Volume(Box<VolumeSource>),
    Sub(usize),
}

/// A finite stream of interleaved samples held in memory.
pub struct BufferSource {
    pub data: Vec<i32>,
    /// Interleaved samples already emitted.
    pub pos: usize,
    pub samplerate: u32,
    pub channels: u16,
}

/// An inner source remixed to a new channel count through a fixed matrix.
pub struct RemixSource {
    pub inner: Source,
    pub matrix: Vec<Vec<i64>>,
    pub in_ch: u16,
    pub out_ch: u16,
}

/// An inner source converted to a new sample rate by frame repetition or
/// decimation (zero-order hold): output frame `k` copies input frame
/// `k * from / to`.
pub struct ResampleSource {
    pub inner: Source,
    pub from: u32,
    pub to: u32,
    /// Unconsumed input samples pulled from `inner`.
    pub carry: Vec<i32>,
    /// Input frames dropped from the front of `carry` so far.
    pub in_base: u64,
    /// Output frames emitted so far.
    pub out_pos: u64,
}

/// An inner source scaled by a gain, either fixed at construction or
/// delivered later by a measurement worker through a channel.
pub struct VolumeSource {
    pub inner: Source,
    pub state: VolumeState,
}

/// The life cycle of a deferred gain: waiting on the worker, ready with a
/// gain in millionths, or permanently failed (the source reports
/// exhaustion).
pub enum VolumeState {
    Pending(std::sync::mpsc::Receiver<i64>),
    Ready(i64),
    Failed,
}

/// The smaller of two frame counts.
pub open spec fn min_frames(a: int, b: int) -> int {
    if a < b {
        a
    } else {
        b
    }
}

/// A product of a frame count and a channel count is a whole number of
/// frames: its remainder vanishes and division recovers the count.
proof fn lemma_mul_div_exact(k: int, ch: int)
    requires
        ch >= 1,
        k >= 0,
    ensures
        (k * ch) % ch == 0,
        (k * ch) / ch == k,
        k * ch >= 0,
        k * ch >= k,
{
    vstd::arithmetic::div_mod::lemma_mod_multiples_basic(k, ch);
    vstd::arithmetic::div_mod::lemma_div_by_multiple(k, ch);
    assert(k * ch >= k) by (nonlinear_arith)
        requires
            ch >= 1,
            k >= 0,
    ;
}

/// A nonnegative multiple of the channel count divides back exactly.
proof fn lemma_div_exact(a: int, ch: int)
    requires
        ch >= 1,
        a >= 0,
        a % ch == 0,
    ensures
        (a / ch) * ch == a,
        a / ch >= 0,
{
    vstd::arithmetic::div_mod::lemma_fundamental_div_mod(a, ch);
    vstd::arithmetic::div_mod::lemma_div_pos_is_pos(a, ch);
    assert((a / ch) * ch == ch * (a / ch)) by (nonlinear_arith);
}

/// Truncating a request to whole frames never grows it.
proof fn lemma_trunc_le(want: int, ch: int)
    requires
        ch >= 1,
        want >= 0,
    ensures
        0 <= (want / ch) * ch <= want,
        ((want / ch) * ch) % ch == 0,
        ((want / ch) * ch) / ch == want / ch,
{
    vstd::arithmetic::div_mod::lemma_fundamental_div_mod(want, ch);
    vstd::arithmetic::div_mod::lemma_mod_division_less_than_divisor(want, ch);
    vstd::arithmetic::div_mod::lemma_div_pos_is_pos(want, ch);
    lemma_mul_div_exact(want / ch, ch);
    assert(ch * (want / ch) == (want / ch) * ch) by (nonlinear_arith);
}

/// Every well-formed source other than a sub-scheduler reference reports a
/// positive rate and at least one channel.
pub proof fn lemma_wf_format(s: Source)
    requires
        s.wf(),
        !(s is Sub),
    ensures
        s.spec_channels() >= 1,
        s.spec_samplerate() >= 1,
    decreases s,
{
    match s {
        Source::Remix(r) => lemma_wf_format(r.inner),
        Source::Resample(r) => lemma_wf_format(r.inner),
        Source::Volume(v) => lemma_wf_format(v.inner),
        _ => {},
    }
}

impl Source {
    /// The nesting depth of the wrapper chain; `fill` preserves it, which
    /// grounds the termination of the mutually recursive fill functions.
    pub open spec fn height(&self) -> nat
        decreases self,
    {
        match self {
            Source::Remix(r) => r.inner.height() + 1,
            Source::Resample(r) => r.inner.height() + 1,
            Source::Volume(v) => v.inner.height() + 1,
            _ => 0,
        }
    }
}

/// A frame count scaled from rate `from` to rate `to`, rounded half away
/// from zero (and saturating at the machine's frame limit).
pub open spec fn spec_scale_len(frames: int, from: int, to: int) -> int
    recommends
        from >= 1,
        to >= 1,
        frames >= 0,
{
    let raw = (2 * frames * to + from) / (2 * from);
    if raw > u64::MAX {
        u64::MAX as int
    } else {
        raw
    }
}

impl Source {
    /// No sub-scheduler reference anywhere in the chain: such a source can
    /// be filled on its own.
    pub open spec fn sub_free(&self) -> bool
        decreases self,
    {
        match self {
            Source::Sine(_) => true,
            Source::Buffer(_) => true,
            Source::Media(_) => true,
            Source::Remix(r) => r.inner.sub_free(),
            Source::Resample(r) => r.inner.sub_free(),
            Source::Volume(v) => v.inner.sub_free(),
            Source::Sub(_) => false,
        }
    }

    /// Structural validity of the whole chain.
    pub open spec fn wf(&self) -> bool
        decreases self,
    {
        match self {
            Source::Sine(s) => s.wf(),
            Source::Buffer(b) => b.wf(),
            Source::Media(m) => m.wf(),
            Source::Remix(r) => {
                &&& r.inner.wf()
                &&& r.inner.sub_free()
                &&& matrix_wf(r.matrix.deep_view(), r.out_ch as int, r.in_ch as int)
                &&& r.in_ch >= 1
                &&& r.out_ch >= 1
                &&& r.inner.spec_channels() == r.in_ch
            },
            Source::Resample(r) => {
                &&& r.inner.wf()
                &&& r.inner.sub_free()
                &&& r.from >= 1
                &&& r.to >= 1
                &&& r.inner.spec_samplerate() == r.from
                &&& r.carry.len() as int % (r.inner.spec_channels() as int) == 0
                &&& r.in_base + r.carry.len() as int / (r.inner.spec_channels() as int)
                    <= u64::MAX
            },
            Source::Volume(v) => {
                &&& v.inner.wf()
                &&& v.inner.sub_free()
                &&& match v.state {
                    VolumeState::Ready(g) => 0 <= g <= VOL_MAX,
                    _ => true,
                }
            },
            Source::Sub(_) => true,
        }
    }

    /// No gain in the chain still waits on its measurement worker.
    pub open spec fn resolved(&self) -> bool
        decreases self,
    {
        match self {
            Source::Sine(_) => true,
            Source::Buffer(_) => true,
            Source::Media(_) => true,
            Source::Remix(r) => r.inner.resolved(),
            Source::Resample(r) => r.inner.resolved(),
            Source::Volume(v) => v.inner.resolved() && !(v.state is Pending),
            Source::Sub(_) => true,
        }
    }

    /// The sample rate the chain reports, in Hz.
    pub open spec fn spec_samplerate(&self) -> u32
        decreases self,
    {
        match self {
            Source::Sine(s) => s.spec_samplerate(),
            Source::Buffer(b) => b.samplerate,
            Source::Media(m) => m.spec_samplerate(),
            Source::Remix(r) => r.inner.spec_samplerate(),
            Source::Resample(r) => r.to,
            Source::Volume(v) => v.inner.spec_samplerate(),
            Source::Sub(_) => 0,
        }
    }

    /// The channel count the chain reports.
    pub open spec fn spec_channels(&self) -> u16
        decreases self,
    {
        match self {
            Source::Sine(s) => s.spec_channels(),
            Source::Buffer(b) => b.channels,
            Source::Media(m) => m.spec_channels(),
            Source::Remix(r) => r.out_ch,
            Source::Resample(r) => r.inner.spec_channels(),
            Source::Volume(v) => v.inner.spec_channels(),
            Source::Sub(_) => 0,
        }
    }

    /// The frames still to come, where the chain can know them: exact for
    /// buffers (zero after a failed normalization), scaled across a rate
    /// change, unknown (`None`) for generators.
    pub open spec fn spec_remaining(&self) -> Option<int>
        decreases self,
    {
        match self {
            Source::Sine(_) => None,
            Source::Buffer(b) => Some((b.data.len() - b.pos) as int / (b.channels as int)),
            Source::Media(m) => (match m.spec_n_frames() {
                Some(n) => Some(n as int),
                None => None,
            }),
            Source::Remix(r) => r.inner.spec_remaining(),
            Source::Resample(r) => match r.inner.spec_remaining() {
                Some(n) => Some(
                    spec_scale_len(n, r.from as int, r.to as int),
                ),
                None => None,
            },
            Source::Volume(v) => match v.state {
                VolumeState::Failed => Some(0),
                _ => v.inner.spec_remaining(),
            },
            Source::Sub(_) => None,
        }
    }

    /// A sine generator leaf.
    pub fn sine(samplerate: u32, channels: u16, freq_millihz: u32) -> (s: Source)
        requires
            samplerate >= 1,
            channels >= 1,
        ensures
            s.wf(),
            s.sub_free(),
            s.resolved(),
            s.spec_samplerate() == samplerate,
            s.spec_channels() == channels,
            s.spec_remaining() is None,
    {
        Source::Sine(Sine::new(samplerate, channels, freq_millihz))
    }

    /// An in-memory buffer leaf over whole interleaved frames.
    pub fn buffer(data: Vec<i32>, samplerate: u32, channels: u16) -> (s: Source)
        requires
            samplerate >= 1,
            channels >= 1,
            data.len() as int % (channels as int) == 0,
        ensures
            s.wf(),
            s.sub_free(),
            s.resolved(),
            s.spec_samplerate() == samplerate,
            s.spec_channels() == channels,
            s.spec_remaining() == Some(data.len() as int / (channels as int)),
    {
        proof {
            vstd::arithmetic::div_mod::lemma_mod_multiples_basic(0, channels as int);
        }
        Source::Buffer(BufferSource { data, pos: 0, samplerate, channels })
    }

    /// A decoded media stream leaf.
    pub fn media(m: crate::media::Media) -> (s: Source)
        requires
            m.wf(),
        ensures
            s.wf(),
            s.sub_free(),
            s.resolved(),
            s.spec_samplerate() == m.spec_samplerate(),
            s.spec_channels() == m.spec_channels(),
            s.spec_remaining() == (match m.spec_n_frames() {
                Some(n) => Some(n as int),
                None => None::<int>,
            }),
    {
        Source::Media(m)
    }

    /// Wraps the source with an explicit mix matrix.
    pub fn remix_with(self, mix: Vec<Vec<i64>>, out_ch: u16) -> (s: Source)
        requires
            self.wf(),
            self.sub_free(),
            matrix_wf(mix.deep_view(), out_ch as int, self.spec_channels() as int),
            out_ch >= 1,
            self.spec_channels() >= 1,
        ensures
            s.wf(),
            s.sub_free(),
            s.resolved() == self.resolved(),
            s.spec_samplerate() == self.spec_samplerate(),
            s.spec_channels() == out_ch,
            s.spec_remaining() == self.spec_remaining(),
    {
        let in_ch = self.channels();
        Source::Remix(Box::new(RemixSource { inner: self, matrix: mix, in_ch, out_ch }))
    }

    /// Wraps the source with the canonical mix matrix for its channel count.
    pub fn remix(self, channels: u16) -> (s: Source)
        requires
            self.wf(),
            self.sub_free(),
            channels >= 1,
            self.spec_channels() >= 1,
        ensures
            s.wf(),
            s.sub_free(),
            s.resolved() == self.resolved(),
            s.spec_samplerate() == self.spec_samplerate(),
            s.spec_channels() == channels,
            s.spec_remaining() == self.spec_remaining(),
    {
        let old_ch = self.channels();
        let m = find_mix(channels, old_ch);
        proof {
            crate::mix::lemma_find_mix_wf(channels as int, old_ch as int);
        }
        self.remix_with(m, channels)
    }

    /// Wraps the source with a rate converter to `samplerate`.
    pub fn resample(self, samplerate: u32) -> (s: Source)
        requires
            self.wf(),
            self.sub_free(),
            samplerate >= 1,
            self.spec_samplerate() >= 1,
            self.spec_channels() >= 1,
        ensures
            s.wf(),
            s.sub_free(),
            s.resolved() == self.resolved(),
            s.spec_samplerate() == samplerate,
            s.spec_channels() == self.spec_channels(),
            s.spec_remaining() == (match self.spec_remaining() {
                Some(n) => Some(
                    spec_scale_len(n, self.spec_samplerate() as int, samplerate as int),
                ),
                None => None::<int>,
            }),
    {
        let from = self.samplerate();
        proof {
            lemma_wf_format(self);
            vstd::arithmetic::div_mod::lemma_mod_multiples_basic(
                0,
                self.spec_channels() as int,
            );
            vstd::arithmetic::div_mod::lemma_div_of0(self.spec_channels() as int);
        }
        Source::Resample(
            Box::new(
                ResampleSource {
                    inner: self,
                    from,
                    to: samplerate,
                    carry: Vec::new(),
                    in_base: 0,
                    out_pos: 0,
                },
            ),
        )
    }

    /// Remixes then resamples the source so that it reports exactly the
    /// given format: the reformat always has `samplerate` and `channels`.
    pub fn reformat(self, samplerate: u32, channels: u16) -> (s: Source)
        requires
            self.wf(),
            self.sub_free(),
            samplerate >= 1,
            channels >= 1,
            self.spec_samplerate() >= 1,
            self.spec_channels() >= 1,
        ensures
            s.wf(),
            s.sub_free(),
            s.spec_samplerate() == samplerate,
            s.spec_channels() == channels,
            s.spec_remaining() == (match self.spec_remaining() {
                Some(n) => Some(
                    spec_scale_len(n, self.spec_samplerate() as int, samplerate as int),
                ),
                None => None::<int>,
            }),
    {
        self.remix(channels).resample(samplerate)
    }

    /// Wraps the source with a fixed gain in millionths.
    pub fn volume(self, gain: i64) -> (s: Source)
        requires
            self.wf(),
            self.sub_free(),
            0 <= gain <= VOL_MAX,
        ensures
            s.wf(),
            s.sub_free(),
            s.resolved() == self.resolved(),
            s.spec_samplerate() == self.spec_samplerate(),
            s.spec_channels() == self.spec_channels(),
            s.spec_remaining() == self.spec_remaining(),
    {
        Source::Volume(Box::new(VolumeSource { inner: self, state: VolumeState::Ready(gain) }))
    }

    /// Wraps the source with a gain that a measurement worker will deliver
    /// through `rx` (in millionths); until then the source is silent, and
    /// if the worker fails it stays exhausted.
    pub fn normalize(self, rx: std::sync::mpsc::Receiver<i64>) -> (s: Source)
        requires
            self.wf(),
            self.sub_free(),
        ensures
            s.wf(),
            s.sub_free(),
            s.spec_samplerate() == self.spec_samplerate(),
            s.spec_channels() == self.spec_channels(),
            s.spec_remaining() == self.spec_remaining(),
    {
        Source::Volume(Box::new(VolumeSource { inner: self, state: VolumeState::Pending(rx) }))
    }

    pub fn samplerate(&self) -> (r: u32)
        ensures
            r == self.spec_samplerate(),
        decreases *self,
    {
        match self {
            Source::Sine(s) => s.samplerate(),
            Source::Buffer(b) => b.samplerate,
            Source::Media(m) => m.samplerate(),
            Source::Remix(r) => r.inner.samplerate(),
            Source::Resample(r) => r.to,
            Source::Volume(v) => v.inner.samplerate(),
            Source::Sub(_) => 0,
        }
    }

    pub fn channels(&self) -> (r: u16)
        ensures
            r == self.spec_channels(),
        decreases *self,
    {
        match self {
            Source::Sine(s) => s.channels(),
            Source::Buffer(b) => b.channels,
            Source::Media(m) => m.channels(),
            Source::Remix(r) => r.out_ch,
            Source::Resample(r) => r.inner.channels(),
            Source::Volume(v) => v.inner.channels(),
            Source::Sub(_) => 0,
        }
    }

    /// The frames still to come, where known.
    pub fn len(&self) -> (r: Option<u64>)
        requires
            self.wf(),
        ensures
            match r {
                Some(n) => self.spec_remaining() == Some(n as int),
                None => self.spec_remaining() is None,
            },
        decreases *self,
    {
        match self {
            Source::Sine(_) => None,
            Source::Buffer(b) => Some(((b.data.len() - b.pos) / b.channels as usize) as u64),
            Source::Media(m) => m.len(),
            Source::Remix(r) => r.inner.len(),
            Source::Resample(r) => {
                match r.inner.len() {
                    Some(n) => Some(scale_len(n, r.from, r.to)),
                    None => None,
                }
            },
            Source::Volume(v) => {
                match v.state {
                    VolumeState::Failed => Some(0),
                    _ => v.inner.len(),
                }
            },
            Source::Sub(_) => None,
        }
    }
}

/// Scales a frame count from rate `from` to rate `to`, rounding half away
/// from zero.
pub(crate) fn scale_len(frames: u64, from: u32, to: u32) -> (r: u64)
    requires
        from >= 1,
        to >= 1,
    ensures
        r == spec_scale_len(frames as int, from as int, to as int),
{
    proof {
        assert(0 <= 2 * (frames as int) * (to as int) <= 0x2_0000_0000_0000_0000_0000_0000
            && (2 * (frames as int)) * (to as int) == 2 * (frames as int) * (to as int))
            by (nonlinear_arith)
            requires
                0 <= frames as int <= 0xffff_ffff_ffff_ffff,
                0 <= to as int <= 0xffff_ffff,
        ;
    }
    let num: u128 = 2u128 * frames as u128 * to as u128 + from as u128;
    let den: u128 = 2u128 * from as u128;
    let r: u128 = num / den;
    proof {
        assert(r as int == (2 * (frames as int) * (to as int) + from) / (2 * (from as int)));
    }
    if r > u64::MAX as u128 {
        u64::MAX
    } else {
        r as u64
    }
}

impl BufferSource {
    /// Structural validity: whole frames, a cursor on a frame boundary.
    pub open spec fn wf(&self) -> bool {
        &&& self.samplerate >= 1
        &&& self.channels >= 1
        &&& self.data.len() as int % (self.channels as int) == 0
        &&& self.pos as int % (self.channels as int) == 0
        &&& self.pos <= self.data.len()
    }
}

/// The largest sample count one `fill` call may request, so that internal
/// buffer sizes stay within address space for any channel count.
pub const MAX_FILL: usize = 0x8000_0000;

/// The largest whole-frame count one `fill` call may request.
pub const MAX_FRAMES: usize = 0x8000;

impl Source {
    /// No rate conversion anywhere in the chain: frame counts pass through
    /// unchanged, so they can be accounted exactly.
    pub open spec fn rate_native(&self) -> bool
        decreases self,
    {
        match self {
            Source::Sine(_) => true,
            Source::Buffer(_) => true,
            Source::Media(_) => false,
            Source::Remix(r) => r.inner.rate_native(),
            Source::Resample(_) => false,
            Source::Volume(v) => v.inner.rate_native(),
            Source::Sub(_) => true,
        }
    }

    /// What `fill` and `force_fill` keep of the chain: shape, format and,
    /// for settled chains of known length, exact frame accounting.
    pub open spec fn fill_post(pre: Source, post: Source, out_len: int, want: int) -> bool {
        &&& post.wf()
        &&& post.sub_free()
        &&& post.spec_samplerate() == pre.spec_samplerate()
        &&& post.spec_channels() == pre.spec_channels()
        &&& post.rate_native() == pre.rate_native()
        &&& post.height() == pre.height()
        &&& pre.spec_channels() >= 1
        &&& 0 <= out_len <= want
        &&& out_len % (pre.spec_channels() as int) == 0
        &&& (pre.resolved() ==> post.resolved())
        &&& (pre.resolved() && pre.rate_native() ==> match pre.spec_remaining() {
            Some(r) => {
                &&& out_len == (pre.spec_channels() as int) * min_frames(
                    want / (pre.spec_channels() as int),
                    r,
                )
                &&& post.spec_remaining() == Some(
                    r - min_frames(want / (pre.spec_channels() as int), r),
                )
            },
            None => post.spec_remaining() is None,
        })
    }

    /// What `fill` says of the returned samples themselves, where the
    /// chain determines them: a buffer hands out its own samples
    /// verbatim; a generator hands out its sine samples at its advancing
    /// position; a ready gain scales the inner fill's own samples; a
    /// remix is the matrix applied frame by frame to the inner fill's own
    /// samples; and a decoded stream that comes up short has truly ended.
    /// (A rate converter's samples come from its held and freshly pulled
    /// input; that selection is not restated here.)
    pub open spec fn fill_content(pre: Source, post: Source, out: Seq<i32>, want: int) -> bool
        decreases pre,
    {
        &&& (pre is Buffer ==> post is Buffer && post->Buffer_0.data == pre->Buffer_0.data
            && post->Buffer_0.pos == pre->Buffer_0.pos + out.len() && out
            == pre->Buffer_0.data@.subrange(
            pre->Buffer_0.pos as int,
            pre->Buffer_0.pos + out.len(),
        ))
        &&& (pre is Sine ==> post is Sine && post->Sine_0.spec_samplerate()
            == pre->Sine_0.spec_samplerate() && post->Sine_0.spec_channels()
            == pre->Sine_0.spec_channels() && post->Sine_0.spec_freq_millihz()
            == pre->Sine_0.spec_freq_millihz() && post->Sine_0.spec_pos()
            == pre->Sine_0.spec_pos() + out.len() && (forall|k: int|
            0 <= k < out.len() ==> #[trigger] out[k] == crate::sine::spec_sine_sample(
                pre->Sine_0.spec_samplerate() as int,
                pre->Sine_0.spec_freq_millihz() as int,
                (pre->Sine_0.spec_pos() + k) as int / (pre->Sine_0.spec_channels() as int),
            )))
        &&& ((pre is Volume && pre->Volume_0.state is Ready) ==> post is Volume
            && post->Volume_0.state == pre->Volume_0.state && exists|iv: Seq<i32>|
            iv.len() == out.len() && Source::fill_post(
                pre->Volume_0.inner,
                post->Volume_0.inner,
                iv.len() as int,
                want,
            ) && Source::fill_content(pre->Volume_0.inner, post->Volume_0.inner, iv, want) && (
            forall|k: int|
                0 <= k < out.len() ==> out[k] == crate::samples::spec_apply_gain(
                    (#[trigger] iv[k]) as int,
                    pre->Volume_0.state->Ready_0 as int,
                )))
        &&& (pre is Remix ==> post is Remix && post->Remix_0.matrix == pre->Remix_0.matrix
            && post->Remix_0.in_ch == pre->Remix_0.in_ch && post->Remix_0.out_ch
            == pre->Remix_0.out_ch && exists|iv: Seq<i32>|
            {
                &&& iv.len() as int % (pre->Remix_0.in_ch as int) == 0
                &&& #[trigger] Source::fill_post(
                    pre->Remix_0.inner,
                    post->Remix_0.inner,
                    iv.len() as int,
                    (want / (pre->Remix_0.out_ch as int)) * (pre->Remix_0.in_ch as int),
                )
                &&& Source::fill_content(
                    pre->Remix_0.inner,
                    post->Remix_0.inner,
                    iv,
                    (want / (pre->Remix_0.out_ch as int)) * (pre->Remix_0.in_ch as int),
                )
                &&& out.len() == (iv.len() as int / (pre->Remix_0.in_ch as int)) * (
                pre->Remix_0.out_ch as int)
                &&& (forall|idx: int|
                    0 <= idx < out.len() ==> #[trigger] out[idx]
                        == crate::mix::spec_remix_sample(
                        pre->Remix_0.matrix.deep_view(),
                        iv,
                        pre->Remix_0.in_ch as int,
                        idx / (pre->Remix_0.out_ch as int),
                        idx % (pre->Remix_0.out_ch as int),
                    ))
            })
        &&& (pre is Media ==> post is Media && (out.len() < (want / (
        pre.spec_channels() as int)) * pre.spec_channels() ==> post->Media_0.spec_eos()))
    }

    /// Pulls up to `want` interleaved samples, in whole frames.  A short or
    /// empty result does not by itself mean the stream has ended; for a
    /// settled chain of known length the call returns exactly the lesser of
    /// the request and what remains.
    pub fn fill(&mut self, want: usize) -> (out: Vec<i32>)
        requires
            old(self).wf(),
            old(self).sub_free(),
            want <= MAX_FILL,
            want as int / (old(self).spec_channels() as int) <= MAX_FRAMES,
        ensures
            Source::fill_post(*old(self), *final(self), out.len() as int, want as int),
            Source::fill_content(*old(self), *final(self), out@, want as int),
        decreases old(self).height(), 0int,
    {
        proof {
            reveal_with_fuel(Source::fill_content, 2);
            lemma_wf_format(*old(self));
            vstd::arithmetic::div_mod::lemma_mod_multiples_basic(
                0,
                old(self).spec_channels() as int,
            );
            vstd::arithmetic::div_mod::lemma_div_pos_is_pos(
                want as int,
                old(self).spec_channels() as int,
            );
        }
        let ghost pre = *self;
        match self {
            Source::Sine(s) => {
                let ch = s.channels() as usize;
                let fw = want / ch;
                proof {
                    lemma_trunc_le(want as int, ch as int);
                }
                let n = fw * ch;
                let mut buf: Vec<i32> = Vec::new();
                buf.resize(n, 0);
                if u64::MAX - s.pos_hint() >= n as u64 {
                    s.fill(&mut buf);
                    proof {
                        assert(Source::fill_content(pre, Source::Sine(*s), buf@, want as int));
                    }
                    buf
                } else {
                    proof {
                        assert(Source::fill_content(
                            pre,
                            Source::Sine(*s),
                            Seq::<i32>::empty(),
                            want as int,
                        ));
                    }
                    Vec::new()
                }
            },
            Source::Buffer(b) => {
                let ch = b.channels as usize;
                let fw = want / ch;
                let avail_samples = b.data.len() - b.pos;
                let avail = avail_samples / ch;
                let take_frames = if fw < avail {
                    fw
                } else {
                    avail
                };
                proof {
                    lemma_buffer_take(
                        b.data.len() as int,
                        b.pos as int,
                        ch as int,
                        fw as int,
                        take_frames as int,
                        want as int,
                    );
                    assert((ch as int) * take_frames == take_frames * (ch as int))
                        by (nonlinear_arith);
                }
                let n = take_frames * ch;
                let mut out: Vec<i32> = Vec::new();
                let mut k: usize = 0;
                while k < n
                    invariant
                        k <= n,
                        out.len() == k,
                        b.pos + n <= b.data.len(),
                        forall|t: int| 0 <= t < k ==> #[trigger] out@[t] == b.data@[b.pos + t],
                    decreases n - k,
                {
                    let v = b.data[b.pos + k];
                    out.push(v);
                    k += 1;
                }
                proof {
                    assert(out@ =~= b.data@.subrange(b.pos as int, b.pos + out.len()));
                }
                b.pos = b.pos + n;
                proof {
                    let chi = b.channels as int;
                    assert(pre.spec_remaining() == Some(avail as int));
                    assert(out.len() == take_frames * chi);
                    assert(chi * min_frames(want as int / chi, avail as int) == take_frames
                        * chi) by (nonlinear_arith)
                        requires
                            take_frames == min_frames(want as int / chi, avail as int),
                    ;
                    assert((b.data.len() - b.pos) as int / chi == avail - take_frames);
                    assert(Source::fill_content(pre, Source::Buffer(*b), out@, want as int));
                }
                out
            },
            Source::Media(m) => {
                let out = m.fill(want);
                proof {
                    assert(Source::fill_content(pre, Source::Media(*m), out@, want as int));
                }
                out
            },
            Source::Remix(r) => {
                let out_ch = r.out_ch as usize;
                let in_ch = r.in_ch as usize;
                let fw = want / out_ch;
                proof {
                    lemma_trunc_le(want as int, out_ch as int);
                    lemma_trunc_le(MAX_FILL as int, in_ch as int);
                    assert(fw <= want) by (nonlinear_arith)
                        requires
                            fw == want as int / (out_ch as int),
                            out_ch >= 1,
                            want >= 0,
                    ;
                    lemma_mul_div_exact(fw as int, in_ch as int);
                    assert(0 <= fw * in_ch <= MAX_FILL) by (nonlinear_arith)
                        requires
                            0 <= fw <= MAX_FRAMES,
                            1 <= in_ch <= 0x1_0000,
                            MAX_FRAMES == 0x8000,
                            MAX_FILL == 0x8000_0000,
                    ;
                }
                let inner_want = fw * in_ch;
                let iv = r.inner.fill(inner_want);
                let frames = iv.len() / in_ch;
                proof {
                    lemma_remix_frames(
                        pre,
                        r.inner,
                        iv.len() as int,
                        inner_want as int,
                        fw as int,
                        frames as int,
                        want as int,
                    );
                }
                proof {
                    assert(frames * (out_ch as int) <= fw * (out_ch as int))
                        by (nonlinear_arith)
                        requires
                            0 <= frames <= fw,
                            out_ch >= 1,
                    ;
                    assert(fw * (out_ch as int) <= want) by (nonlinear_arith)
                        requires
                            fw == want as int / (out_ch as int),
                            out_ch >= 1,
                            want >= 0,
                    ;
                }
                let out = remix_buffer(&r.matrix, &iv, r.in_ch, r.out_ch, frames);
                proof {
                    assert(out.len() == frames * (r.out_ch as int));
                    assert(iv@.len() as int % (pre->Remix_0.in_ch as int) == 0);
                    assert(Source::fill_content(
                        pre->Remix_0.inner,
                        r.inner,
                        iv@,
                        inner_want as int,
                    ));
                    assert(inner_want as int == (want as int / (pre->Remix_0.out_ch as int)) * (
                    pre->Remix_0.in_ch as int));
                    reveal_with_fuel(Source::fill_content, 2);
                    let post = Source::Remix(*r);
                    assert(post->Remix_0.inner == r.inner);
                    assert(Source::fill_content(
                        pre->Remix_0.inner,
                        post->Remix_0.inner,
                        iv@,
                        (want as int / (pre->Remix_0.out_ch as int)) * (
                        pre->Remix_0.in_ch as int),
                    ));
                    assert(Source::fill_post(
                        pre->Remix_0.inner,
                        post->Remix_0.inner,
                        iv@.len() as int,
                        (want as int / (pre->Remix_0.out_ch as int)) * (
                        pre->Remix_0.in_ch as int),
                    ));
                    assert(out.len() == (iv@.len() as int / (pre->Remix_0.in_ch as int)) * (
                    pre->Remix_0.out_ch as int)) by (nonlinear_arith)
                        requires
                            out.len() == frames as int * (r.out_ch as int),
                            frames == iv@.len() as int / (r.in_ch as int),
                            pre->Remix_0.in_ch == r.in_ch,
                            pre->Remix_0.out_ch == r.out_ch,
                    ;
                    lemma_remix_post(
                        pre,
                        r.inner,
                        fw as int,
                        frames as int,
                        want as int,
                        out.len() as int,
                    );
                    if pre.resolved() && pre.rate_native() && pre.spec_remaining() is Some {
                        let rem = pre.spec_remaining().unwrap();
                        assert(iv.len() == (r.in_ch as int) * min_frames(fw as int, rem));
                        assert(frames == min_frames(fw as int, rem)) by (nonlinear_arith)
                            requires
                                frames as int * (r.in_ch as int) == iv.len(),
                                iv.len() == (r.in_ch as int) * min_frames(fw as int, rem),
                                r.in_ch >= 1,
                        ;
                        assert(out.len() == (r.out_ch as int) * min_frames(fw as int, rem))
                            by (nonlinear_arith)
                            requires
                                out.len() == frames as int * (r.out_ch as int),
                                frames == min_frames(fw as int, rem),
                        ;
                    }
                    assert(Source::fill_content(pre, Source::Remix(*r), out@, want as int));
                }
                out
            },
            Source::Resample(r) => {
                let out = resample_fill(r, want);
                proof {
                    assert(Source::fill_content(pre, Source::Resample(*r), out@, want as int));
                }
                out
            },
            Source::Volume(v) => {
                let ghost inner_pre = v.inner;
                resolve_volume(v);
                match &v.state {
                    VolumeState::Ready(g) => {
                        let gain: i64 = *g;
                        let iv = v.inner.fill(want);
                        proof {
                            assert(Source::fill_post(
                                inner_pre,
                                v.inner,
                                iv.len() as int,
                                want as int,
                            ));
                        }
                        let mut out: Vec<i32> = Vec::new();
                        let mut k: usize = 0;
                        let n = iv.len();
                        while k < n
                            invariant
                                k <= n,
                                n == iv.len(),
                                out.len() == k,
                                0 <= gain <= VOL_MAX,
                                forall|t: int|
                                    0 <= t < k ==> #[trigger] out@[t]
                                        == crate::samples::spec_apply_gain(
                                        iv@[t] as int,
                                        gain as int,
                                    ),
                            decreases n - k,
                        {
                            out.push(apply_gain(iv[k], gain));
                            k += 1;
                        }
                        proof {
                            if pre is Volume && pre->Volume_0.state is Ready {
                                assert(gain == pre->Volume_0.state->Ready_0);
                                assert(iv@.len() == out.len() && (forall|t: int|
                                    0 <= t < out.len() ==> out@[t]
                                        == crate::samples::spec_apply_gain(
                                        (iv@[t]) as int,
                                        pre->Volume_0.state->Ready_0 as int,
                                    )));
                                assert(Source::fill_post(
                                    pre->Volume_0.inner,
                                    v.inner,
                                    iv@.len() as int,
                                    want as int,
                                ));
                                assert(Source::fill_content(
                                    pre->Volume_0.inner,
                                    v.inner,
                                    iv@,
                                    want as int,
                                ));
                            }
                            if pre.resolved() && pre.rate_native() && pre.spec_remaining()
                                is Some {
                                let rem = pre.spec_remaining().unwrap();
                                let chi = pre.spec_channels() as int;
                                assert(out.len() == chi * min_frames(want as int / chi, rem));
                                assert(v.inner.spec_remaining() == Some(
                                    rem - min_frames(want as int / chi, rem),
                                ));
                            }
                            assert(Source::fill_content(
                                pre,
                                Source::Volume(*v),
                                out@,
                                want as int,
                            ));
                        }
                        out
                    },
                    _ => {
                        proof {
                            if pre.resolved() && pre.rate_native() && pre.spec_remaining()
                                is Some {
                                let rem = pre.spec_remaining().unwrap();
                                let chi = pre.spec_channels() as int;
                                assert(rem == 0);
                                assert(min_frames(want as int / chi, 0) == 0);
                                assert(chi * min_frames(want as int / chi, rem) == 0)
                                    by (nonlinear_arith)
                                    requires
                                        min_frames(want as int / chi, rem) == 0,
                                ;
                            }
                            assert(Source::fill_content(
                                pre,
                                Source::Volume(*v),
                                Seq::<i32>::empty(),
                                want as int,
                            ));
                        }
                        Vec::new()
                    },
                }
            },
            Source::Sub(_) => {
                proof {
                    assert(false);
                }
                Vec::new()
            },
        }
    }

    /// Everything a repeated pull states: the frame accounting of
    /// `fill_post`; for the chains whose retries compose sample-exactly,
    /// a buffer and a generator, the samples themselves; and for a
    /// decoded stream, that a short total means the stream truly ended.
    pub open spec fn force_fill_post(pre: Source, post: Source, out: Seq<i32>, want: int) -> bool {
        &&& Source::fill_post(pre, post, out.len() as int, want)
        &&& (pre is Buffer ==> post is Buffer && post->Buffer_0.data == pre->Buffer_0.data
            && post->Buffer_0.pos == pre->Buffer_0.pos + out.len() && out
            == pre->Buffer_0.data@.subrange(
            pre->Buffer_0.pos as int,
            pre->Buffer_0.pos + out.len(),
        ))
        &&& (pre is Sine ==> post is Sine && post->Sine_0.spec_samplerate()
            == pre->Sine_0.spec_samplerate() && post->Sine_0.spec_channels()
            == pre->Sine_0.spec_channels() && post->Sine_0.spec_freq_millihz()
            == pre->Sine_0.spec_freq_millihz() && post->Sine_0.spec_pos()
            == pre->Sine_0.spec_pos() + out.len() && (forall|k: int|
            0 <= k < out.len() ==> #[trigger] out[k] == crate::sine::spec_sine_sample(
                pre->Sine_0.spec_samplerate() as int,
                pre->Sine_0.spec_freq_millihz() as int,
                (pre->Sine_0.spec_pos() + k) as int / (pre->Sine_0.spec_channels() as int),
            )))
        &&& (pre is Media ==> post is Media && (out.len() < (want / (
        pre.spec_channels() as int)) * pre.spec_channels() ==> post->Media_0.spec_eos()))
    }

    /// Retries `fill` until the request is satisfied or a call returns
    /// nothing: the loop stops only at a real end of stream (or a silent
    /// pending gain).
    pub fn force_fill(&mut self, want: usize) -> (out: Vec<i32>)
        requires
            old(self).wf(),
            old(self).sub_free(),
            want <= MAX_FILL,
            want as int / (old(self).spec_channels() as int) <= MAX_FRAMES,
        ensures
            Source::force_fill_post(*old(self), *final(self), out@, want as int),
        decreases old(self).height(), 1int,
    {
        proof {
            lemma_wf_format(*old(self));
        }
        let ghost pre = *self;
        let mut out = self.fill(want);
        loop
            invariant
                pre == *old(self),
                self.wf(),
                self.sub_free(),
                want <= MAX_FILL,
                want as int / (pre.spec_channels() as int) <= MAX_FRAMES,
                Source::fill_post(pre, *self, out.len() as int, want as int),
                pre is Buffer ==> (*self) is Buffer && self->Buffer_0.data == pre->Buffer_0.data
                    && self->Buffer_0.pos == pre->Buffer_0.pos + out.len() && out@
                    == pre->Buffer_0.data@.subrange(
                    pre->Buffer_0.pos as int,
                    pre->Buffer_0.pos + out.len(),
                ),
                pre is Sine ==> (*self) is Sine && self->Sine_0.spec_samplerate()
                    == pre->Sine_0.spec_samplerate() && self->Sine_0.spec_channels()
                    == pre->Sine_0.spec_channels() && self->Sine_0.spec_freq_millihz()
                    == pre->Sine_0.spec_freq_millihz() && self->Sine_0.spec_pos()
                    == pre->Sine_0.spec_pos() + out.len() && (forall|k: int|
                    0 <= k < out.len() ==> #[trigger] out@[k] == crate::sine::spec_sine_sample(
                        pre->Sine_0.spec_samplerate() as int,
                        pre->Sine_0.spec_freq_millihz() as int,
                        (pre->Sine_0.spec_pos() + k) as int / (
                        pre->Sine_0.spec_channels() as int),
                    )),
                pre is Media ==> (*self) is Media,
            ensures
                Source::fill_post(pre, *self, out.len() as int, want as int),
                pre is Buffer ==> (*self) is Buffer && self->Buffer_0.data == pre->Buffer_0.data
                    && self->Buffer_0.pos == pre->Buffer_0.pos + out.len() && out@
                    == pre->Buffer_0.data@.subrange(
                    pre->Buffer_0.pos as int,
                    pre->Buffer_0.pos + out.len(),
                ),
                pre is Sine ==> (*self) is Sine && self->Sine_0.spec_samplerate()
                    == pre->Sine_0.spec_samplerate() && self->Sine_0.spec_channels()
                    == pre->Sine_0.spec_channels() && self->Sine_0.spec_freq_millihz()
                    == pre->Sine_0.spec_freq_millihz() && self->Sine_0.spec_pos()
                    == pre->Sine_0.spec_pos() + out.len() && (forall|k: int|
                    0 <= k < out.len() ==> #[trigger] out@[k] == crate::sine::spec_sine_sample(
                        pre->Sine_0.spec_samplerate() as int,
                        pre->Sine_0.spec_freq_millihz() as int,
                        (pre->Sine_0.spec_pos() + k) as int / (
                        pre->Sine_0.spec_channels() as int),
                    )),
                pre is Media ==> (*self) is Media && (out.len() < (want as int / (
                pre.spec_channels() as int)) * pre.spec_channels()
                    ==> self->Media_0.spec_eos()),
            decreases want - out.len(),
        {
            let got = out.len();
            if got >= want {
                proof {
                    lemma_trunc_le(want as int, pre.spec_channels() as int);
                }
                break ;
            }
            let ghost mid = *self;
            proof {
                vstd::arithmetic::div_mod::lemma_div_is_ordered(
                    (want - got) as int,
                    want as int,
                    pre.spec_channels() as int,
                );
            }
            let mut more = self.fill(want - got);
            proof {
                lemma_fill_chain(pre, mid, *self, got as int, more.len() as int, want as int);
            }
            if more.len() == 0 {
                proof {
                    if pre is Media && out.len() < (want as int / (
                    pre.spec_channels() as int)) * pre.spec_channels() {
                        let chi = pre.spec_channels() as int;
                        assert(got as int % chi == 0);
                        assert(got as int + chi <= (want as int / chi) * chi)
                            by (nonlinear_arith)
                            requires
                                got as int % chi == 0,
                                chi >= 1,
                                (got as int) < (want as int / chi) * chi,
                        ;
                        lemma_trunc_le(want as int, chi);
                        assert((want - got) as int / chi >= 1) by {
                            vstd::arithmetic::div_mod::lemma_div_is_ordered(
                                chi,
                                (want - got) as int,
                                chi,
                            );
                            assert(chi / chi == 1) by (nonlinear_arith)
                                requires
                                    chi >= 1,
                            ;
                        }
                        assert(0 < ((want - got) as int / chi) * chi) by (nonlinear_arith)
                            requires
                                (want - got) as int / chi >= 1,
                                chi >= 1,
                        ;
                        assert(self->Media_0.spec_eos());
                    }
                }
                break ;
            }
            let ghost prev = out@;
            let ghost morev = more@;
            out.append(&mut more);
            proof {
                if pre is Sine {
                    assert forall|k: int| 0 <= k < out.len() implies #[trigger] out@[k]
                        == crate::sine::spec_sine_sample(
                        pre->Sine_0.spec_samplerate() as int,
                        pre->Sine_0.spec_freq_millihz() as int,
                        (pre->Sine_0.spec_pos() + k) as int / (
                        pre->Sine_0.spec_channels() as int),
                    ) by {
                        if k < prev.len() {
                            assert(out@[k] == prev[k]);
                        } else {
                            assert(out@[k] == morev[k - prev.len()]);
                            assert(mid->Sine_0.spec_pos() == pre->Sine_0.spec_pos()
                                + prev.len());
                        }
                    }
                }
                if pre is Buffer {
                    assert(out@ =~= pre->Buffer_0.data@.subrange(
                        pre->Buffer_0.pos as int,
                        pre->Buffer_0.pos + out.len(),
                    ));
                }
            }
        }
        out
    }


    /// Whether repositioning is owed to succeed: nothing in the chain
    /// leaves the outcome to an outside call (a media container) or to a
    /// failed or still-pending gain, and no sub-scheduler reference is
    /// present.
    pub open spec fn spec_seek_certain(&self) -> bool
        decreases self,
    {
        match self {
            Source::Sine(_) => true,
            Source::Buffer(_) => true,
            Source::Media(_) => false,
            Source::Remix(r) => r.inner.spec_seek_certain(),
            Source::Resample(r) => r.inner.spec_seek_certain(),
            Source::Volume(v) => (v.state is Ready) && v.inner.spec_seek_certain(),
            Source::Sub(_) => false,
        }
    }

    /// Repositions the stream at `frame`: a generator restarts its phase
    /// there, a buffer moves its cursor (clamped to its end), a rate
    /// converter empties its carry, maps the frame back through the ratio
    /// and repositions its input, and a decoded stream asks its container.
    /// A sub-scheduler cannot be repositioned, a failed normalization
    /// cannot either, and a refused container reposition propagates.
    pub fn seek(&mut self, frame: u64) -> (r: Result<(), SourceError>)
        requires
            old(self).wf(),
            frame <= 0x7fff_ffff_ffff,
        ensures
            final(self).wf(),
            final(self).sub_free() == old(self).sub_free(),
            final(self).spec_samplerate() == old(self).spec_samplerate(),
            final(self).spec_channels() == old(self).spec_channels(),
            old(self).spec_seek_certain() ==> r is Ok,
            (*old(self)) is Sub ==> r is Err,
            (*old(self)) is Sine ==> r is Ok
                && final(self)->Sine_0.spec_pos() == frame * old(self).spec_channels(),
            (*old(self)) is Buffer ==> r is Ok
                && final(self)->Buffer_0.data == old(self)->Buffer_0.data
                && final(self)->Buffer_0.pos as int == min_frames(
                frame * old(self).spec_channels(),
                old(self)->Buffer_0.data.len() as int,
            ),
            (*old(self)) is Resample ==> final(self)->Resample_0.carry.len() == 0
                && final(self)->Resample_0.out_pos == frame
                && final(self)->Resample_0.in_base as int == min_frames(
                (2 * frame * old(self)->Resample_0.from + old(self)->Resample_0.to) / (2 * (
                old(self)->Resample_0.to as int)),
                0x7fff_ffff_ffff,
            ),
            ((*old(self)) is Volume && old(self)->Volume_0.state is Failed)
                ==> r == Err::<(), SourceError>(SourceError::NormalizationFailed),
        decreases *old(self),
    {
        match self {
            Source::Sine(s) => {
                proof {
                    assert(frame as int * s.spec_channels() as int <= u64::MAX)
                        by (nonlinear_arith)
                        requires
                            0 <= frame as int <= 0x7fff_ffff_ffff,
                            0 <= s.spec_channels() as int <= 0xffff,
                    ;
                }
                let moved = s.seek(frame);
                Ok(())
            },
            Source::Buffer(b) => {
                let ch = b.channels as usize;
                let total = b.data.len() / ch;
                proof {
                    lemma_div_exact(b.data.len() as int, ch as int);
                    vstd::arithmetic::div_mod::lemma_div_pos_is_pos(
                        b.data.len() as int,
                        ch as int,
                    );
                }
                if frame >= total as u64 {
                    proof {
                        assert(frame as int * (ch as int) >= total as int * (ch as int))
                            by (nonlinear_arith)
                            requires
                                frame as int >= total as int,
                                ch >= 1,
                        ;
                        assert(total as int * (ch as int) == b.data.len());
                    }
                    b.pos = b.data.len();
                } else {
                    proof {
                        lemma_mul_div_exact(frame as int, ch as int);
                        assert(frame as int * ch <= (total - 1) * (ch as int))
                            by (nonlinear_arith)
                            requires
                                frame as int <= total as int - 1,
                                ch >= 1,
                                frame >= 0,
                        ;
                        assert((total as int - 1) * (ch as int) < total as int * (ch as int))
                            by (nonlinear_arith)
                            requires
                                ch >= 1,
                        ;
                        assert(total as int * (ch as int) == b.data.len());
                    }
                    b.pos = (frame as usize) * ch;
                }
                Ok(())
            },
            Source::Media(m) => {
                if m.seek(frame) {
                    Ok(())
                } else {
                    Err(SourceError::SeekFailed)
                }
            },
            Source::Remix(r) => r.inner.seek(frame),
            Source::Resample(r) => {
                proof {
                    lemma_wf_format(r.inner);
                    assert(0 <= 2 * (frame as int) * (r.from as int)
                        <= 0x2_0000_0000_0000_0000_0000 && (2 * (frame as int)) * (
                    r.from as int) == 2 * (frame as int) * (r.from as int)) by (nonlinear_arith)
                        requires
                            0 <= frame as int <= 0x7fff_ffff_ffff,
                            0 <= r.from as int <= 0xffff_ffff,
                    ;
                }
                let mapped: u128 = (2u128 * frame as u128 * r.from as u128 + r.to as u128) / (
                2u128 * r.to as u128);
                let inner_frame: u64 = if mapped > 0x7fff_ffff_ffff {
                    0x7fff_ffff_ffff
                } else {
                    mapped as u64
                };
                let res = r.inner.seek(inner_frame);
                r.carry = Vec::new();
                r.in_base = inner_frame;
                r.out_pos = frame;
                proof {
                    vstd::arithmetic::div_mod::lemma_mod_multiples_basic(
                        0,
                        r.inner.spec_channels() as int,
                    );
                    vstd::arithmetic::div_mod::lemma_div_of0(r.inner.spec_channels() as int);
                }
                res
            },
            Source::Volume(v) => {
                resolve_volume(v);
                match &v.state {
                    VolumeState::Ready(_) => v.inner.seek(frame),
                    _ => Err(SourceError::NormalizationFailed),
                }
            },
            Source::Sub(_) => Err(SourceError::NotSeekable),
        }
    }
}

/// Resolves a pending gain: blocks on the measurement worker and moves the
/// state to `Ready` (clamped to the valid range) or `Failed`.
fn resolve_volume(v: &mut Box<VolumeSource>)
    requires
        old(v).inner.wf(),
        old(v).inner.sub_free(),
        match old(v).state {
            VolumeState::Ready(g) => 0 <= g <= VOL_MAX,
            _ => true,
        },
    ensures
        final(v).inner == old(v).inner,
        !(final(v).state is Pending),
        match final(v).state {
            VolumeState::Ready(g) => 0 <= g <= VOL_MAX,
            _ => true,
        },
        old(v).state is Ready ==> final(v).state == old(v).state,
        old(v).state is Failed ==> final(v).state is Failed,
{
    let next = match &v.state {
        VolumeState::Pending(rx) => {
            match recv_gain(rx) {
                Some(g) => {
                    let clamped = if g < 0 {
                        0
                    } else if g > VOL_MAX {
                        VOL_MAX
                    } else {
                        g
                    };
                    Some(VolumeState::Ready(clamped))
                },
                None => Some(VolumeState::Failed),
            }
        },
        _ => None,
    };
    if let Some(s) = next {
        v.state = s;
    }
}

/// Frame arithmetic for a buffer fill: the taken prefix is the lesser of
/// the request and what remains, in whole frames.
proof fn lemma_buffer_take(len: int, pos: int, ch: int, fw: int, take: int, want: int)
    requires
        ch >= 1,
        0 <= pos <= len,
        len % ch == 0,
        pos % ch == 0,
        fw == want / ch,
        want >= 0,
        take == min_frames(fw, (len - pos) / ch),
    ensures
        take * ch <= len - pos,
        take * ch <= want,
        pos + take * ch <= len,
        (pos + take * ch) % ch == 0,
        take * ch % ch == 0,
        take == min_frames(want / ch, (len - pos) / ch),
        (len - (pos + take * ch)) / ch == (len - pos) / ch - take,
{
    vstd::arithmetic::div_mod::lemma_sub_mod_noop(len, pos, ch);
    vstd::arithmetic::div_mod::lemma_mod_multiples_basic(0, ch);
    assert((len - pos) % ch == 0);
    lemma_div_exact(len - pos, ch);
    let avail = (len - pos) / ch;
    assert(avail * ch == len - pos);
    lemma_trunc_le(want, ch);
    assert(0 <= take && take <= avail && take <= fw);
    assert(take * ch <= avail * ch && take * ch <= fw * ch && take * ch >= 0)
        by (nonlinear_arith)
        requires
            0 <= take,
            take <= avail,
            take <= fw,
            ch >= 1,
    ;
    lemma_mul_div_exact(take, ch);
    vstd::arithmetic::div_mod::lemma_add_mod_noop(pos, take * ch, ch);
    assert((pos + take * ch) % ch == 0);
    assert(len - (pos + take * ch) == (avail - take) * ch) by (nonlinear_arith)
        requires
            avail * ch == len - pos,
    ;
    lemma_mul_div_exact(avail - take, ch);
}

/// Frame accounting through a remix: the inner fill's sample count, divided
/// by the input channel count, is the frame count of the output.
proof fn lemma_remix_frames(
    pre: Source,
    inner_post: Source,
    got: int,
    inner_want: int,
    fw: int,
    frames: int,
    want: int,
)
    requires
        pre is Remix,
        pre.wf(),
        Source::fill_post(
            pre->Remix_0.inner,
            inner_post,
            got,
            inner_want,
        ),
        frames == got / (pre->Remix_0.in_ch as int),
        fw == want / (pre->Remix_0.out_ch as int),
        inner_want <= fw * (pre->Remix_0.in_ch as int),
        want >= 0,
    ensures
        frames * (pre->Remix_0.in_ch as int) == got,
        frames <= fw,
{
    let ic = pre->Remix_0.in_ch as int;
    assert(got % ic == 0);
    vstd::arithmetic::div_mod::lemma_fundamental_div_mod(got, ic);
    assert(frames * ic == got) by (nonlinear_arith)
        requires
            ic >= 1,
            got % ic == 0,
            frames == got / ic,
            got >= 0,
    ;
    assert(frames <= fw) by (nonlinear_arith)
        requires
            ic >= 1,
            frames * ic == got,
            got <= fw * ic,
            fw >= 0,
            frames >= 0,
    ;
}

/// The remix output satisfies the fill contract whenever the inner fill
/// did.
proof fn lemma_remix_post(
    pre: Source,
    inner_post: Source,
    fw: int,
    frames: int,
    want: int,
    out_len: int,
)
    requires
        pre is Remix,
        pre.wf(),
        out_len == frames * (pre->Remix_0.out_ch as int),
        fw == want / (pre->Remix_0.out_ch as int),
        frames >= 0,
        frames <= fw,
        want >= 0,
    ensures
        out_len <= want,
        out_len % (pre->Remix_0.out_ch as int) == 0,
{
    let oc = pre->Remix_0.out_ch as int;
    assert(frames * oc <= fw * oc) by (nonlinear_arith)
        requires
            oc >= 1,
            0 <= frames <= fw,
    ;
    assert(fw * oc <= want) by (nonlinear_arith)
        requires
            oc >= 1,
            fw == want / oc,
            want >= 0,
    ;
    assert((frames * oc) % oc == 0) by (nonlinear_arith)
        requires
            oc >= 1,
            frames >= 0,
    ;
}

/// Two consecutive fills on one chain compose: the counts add up and the
/// accounting clause still holds for the sum, so over any sequence of
/// fills a settled chain of known length hands out exactly its length.
pub proof fn lemma_fill_chain(pre: Source, mid: Source, post: Source, got: int, more: int, want: int)
    requires
        Source::fill_post(pre, mid, got, want),
        Source::fill_post(mid, post, more, want - got),
    ensures
        Source::fill_post(pre, post, got + more, want),
{
    let ch = pre.spec_channels() as int;
    vstd::arithmetic::div_mod::lemma_add_mod_noop(got, more, ch);
    vstd::arithmetic::div_mod::lemma_mod_multiples_basic(0, ch);
    assert((got + more) % ch == 0);
    if pre.resolved() && pre.rate_native() {
        match pre.spec_remaining() {
            Some(r) => {
                let fw = want / ch;
                let k1 = min_frames(fw, r);
                assert(got == ch * k1);
                assert(k1 >= 0) by (nonlinear_arith)
                    requires
                        ch >= 1,
                        got >= 0,
                        got == ch * k1,
                ;
                let r2 = r - k1;
                let fw2 = (want - got) / ch;
                let k2 = min_frames(fw2, r2);
                assert(more == ch * k2);
                assert(fw2 == fw - k1) by {
                    assert(want - got == want - ch * k1);
                    vstd::arithmetic::div_mod::lemma_hoist_over_denominator(
                        want,
                        -k1,
                        ch as nat,
                    );
                    assert(want + (-k1) * ch == want - ch * k1) by (nonlinear_arith);
                };
                assert(k1 + k2 == min_frames(fw, r));
                assert(got + more == ch * (k1 + k2)) by (nonlinear_arith)
                    requires
                        got == ch * k1,
                        more == ch * k2,
                ;
            },
            None => {},
        }
    }
}


/// Frame conservation: one fill of a settled, rate-native chain of known
/// remaining length returns exactly the lesser of the request and what
/// remains, and the remainder shrinks by the same count — so across any
/// sequence of fills the frames received sum to the source's length.
pub proof fn lemma_fill_conserves_frames(pre: Source, post: Source, out_len: int, want: int)
    requires
        Source::fill_post(pre, post, out_len, want),
        pre.resolved(),
        pre.rate_native(),
        pre.spec_remaining() is Some,
    ensures
        out_len == (pre.spec_channels() as int) * min_frames(
            want / (pre.spec_channels() as int),
            pre.spec_remaining().unwrap(),
        ),
        post.spec_remaining() == Some(
            pre.spec_remaining().unwrap() - out_len / (pre.spec_channels() as int),
        ),
{
    let ch = pre.spec_channels() as int;
    let m = min_frames(want / ch, pre.spec_remaining().unwrap());
    assert(m >= 0) by {
        vstd::arithmetic::div_mod::lemma_div_pos_is_pos(want, ch);
        assert(out_len == ch * m);
        assert(out_len >= 0);
        assert(ch >= 1);
        assert(ch * m >= 0);
        if m < 0 {
            assert(ch * m < 0) by (nonlinear_arith)
                requires
                    ch >= 1,
                    m < 0,
            ;
        }
    }
    assert(ch * m == m * ch) by (nonlinear_arith);
    lemma_mul_div_exact(m, ch);
}

/// One fill of a rate converter: pulls the input frames the window maps
/// to, emits each output frame as a copy of input frame `k * from / to`,
/// and keeps only the still-needed tail of the input.
fn resample_fill(r: &mut Box<ResampleSource>, want: usize) -> (out: Vec<i32>)
    requires
        old(r).inner.wf(),
        old(r).inner.sub_free(),
        old(r).from >= 1,
        old(r).to >= 1,
        old(r).inner.spec_samplerate() == old(r).from,
        old(r).carry.len() as int % (old(r).inner.spec_channels() as int) == 0,
        old(r).in_base + old(r).carry.len() as int / (old(r).inner.spec_channels() as int)
            <= u64::MAX,
        want <= MAX_FILL,
        want as int / (old(r).inner.spec_channels() as int) <= MAX_FRAMES,
    ensures
        final(r).inner.wf(),
        final(r).inner.sub_free(),
        final(r).from == old(r).from,
        final(r).to == old(r).to,
        final(r).inner.spec_samplerate() == old(r).from,
        final(r).inner.spec_channels() == old(r).inner.spec_channels(),
        final(r).inner.height() == old(r).inner.height(),
        final(r).carry.len() as int % (final(r).inner.spec_channels() as int) == 0,
        final(r).in_base + final(r).carry.len() as int / (final(r).inner.spec_channels() as int)
            <= u64::MAX,
        old(r).inner.resolved() ==> final(r).inner.resolved(),
        out.len() <= want,
        out.len() as int % (old(r).inner.spec_channels() as int) == 0,
    decreases old(r).inner.height(), 2int,
{
    proof {
        lemma_wf_format(old(r).inner);
    }
    let ch = r.inner.channels() as usize;
    let fw = want / ch;
    proof {
        vstd::arithmetic::div_mod::lemma_mod_multiples_basic(0, ch as int);
        lemma_trunc_le(want as int, ch as int);
        lemma_div_exact(r.carry.len() as int, ch as int);
    }
    if fw == 0 || r.out_pos > u64::MAX - fw as u64 {
        return Vec::new();
    }
    // How many input frames the last requested output frame needs.
    proof {
        assert((r.out_pos as int + fw - 1) * (r.from as int)
            <= 0x1_0000_0000_0000_0000_0000_0000) by (nonlinear_arith)
            requires
                0 <= r.out_pos as int + fw - 1 <= 0xffff_ffff_ffff_ffff,
                0 <= r.from as int <= 0xffff_ffff,
        ;
    }
    let last_idx: u128 = (r.out_pos as u128 + fw as u128 - 1) * r.from as u128 / r.to as u128;
    if last_idx >= 0xffff_ffff_ffff_0000u128 {
        return Vec::new();
    }
    let ghost frames0 = r.carry.len() as int / (ch as int);
    let have: u64 = r.in_base + (r.carry.len() / ch) as u64;
    let need: u64 = last_idx as u64 + 1;
    if need > have {
        let missing = need - have;
        let pull_frames: usize = if missing > MAX_FRAMES as u64 {
            MAX_FRAMES
        } else {
            missing as usize
        };
        proof {
            lemma_mul_div_exact(pull_frames as int, ch as int);
            assert(0 <= pull_frames * ch <= MAX_FILL) by (nonlinear_arith)
                requires
                    0 <= pull_frames as int <= MAX_FRAMES,
                    1 <= ch as int <= 0x1_0000,
                    MAX_FRAMES == 0x8000,
                    MAX_FILL == 0x8000_0000,
            ;
        }
        let pull: usize = pull_frames * ch;
        let mut fresh = r.inner.force_fill(pull);
        let ghost got = fresh.len() as int;
        proof {
            vstd::arithmetic::div_mod::lemma_add_mod_noop(
                r.carry.len() as int,
                got,
                ch as int,
            );
            // the pulled frames never push the held input past `need`
            vstd::arithmetic::div_mod::lemma_div_is_ordered(
                got,
                pull_frames as int * (ch as int),
                ch as int,
            );
            lemma_mul_div_exact(pull_frames as int, ch as int);
            lemma_div_exact(got, ch as int);
            vstd::arithmetic::div_mod::lemma_hoist_over_denominator(
                got,
                frames0,
                ch as nat,
            );
            assert(frames0 * (ch as int) == r.carry.len());
            assert((r.carry.len() + got) as int / (ch as int) == frames0 + got / (ch as int));
            assert(got / (ch as int) <= pull_frames as int);
            assert(pull_frames as int <= missing as int);
        }
        r.carry.append(&mut fresh);
    }
    proof {
        lemma_div_exact(r.carry.len() as int, ch as int);
    }
    let have2: u64 = r.in_base + (r.carry.len() / ch) as u64;
    let mut out: Vec<i32> = Vec::new();
    let mut k: usize = 0;
    let ghost carry_now = r.carry@;
    let ghost in_base_now = r.in_base as int;
    while k < fw
        invariant
            k <= fw,
            fw >= 1,
            fw * ch <= want,
            ch >= 1,
            out.len() == k * ch,
            r.out_pos + fw <= u64::MAX,
            r.from >= 1,
            r.to >= 1,
            r.carry@ == carry_now,
            r.in_base == in_base_now,
            r.out_pos == old(r).out_pos,
            have2 == r.in_base + r.carry.len() as int / (ch as int),
            (r.carry.len() as int / (ch as int)) * ch == r.carry.len(),
        decreases fw - k,
    {
        proof {
            assert((r.out_pos as int + k) * (r.from as int)
                <= 0x1_0000_0000_0000_0000_0000_0000) by (nonlinear_arith)
                requires
                    0 <= r.out_pos as int + k <= 0xffff_ffff_ffff_ffff,
                    0 <= r.from as int <= 0xffff_ffff,
            ;
        }
        let raw_idx: u128 = (r.out_pos as u128 + k as u128) * r.from as u128 / r.to as u128;
        // a rounded reposition may leave the input a frame ahead of the
        // mapping; clamp to the first input frame still held
        let idx: u128 = if raw_idx < r.in_base as u128 {
            r.in_base as u128
        } else {
            raw_idx
        };
        if idx >= have2 as u128 {
            break ;
        }
        proof {
            assert(0 <= (idx - r.in_base) as int && ((idx - r.in_base) as int) < (
            r.carry.len() as int) / (ch as int));
            assert(((idx - r.in_base) as int) * ch + ch <= (r.carry.len() as int / (ch as int))
                * ch) by (nonlinear_arith)
                requires
                    0 <= (idx - r.in_base) as int,
                    ((idx - r.in_base) as int) < r.carry.len() as int / (ch as int),
                    ch >= 1,
            ;
        }
        let off: usize = ((idx as u64 - r.in_base) as usize) * ch;
        let mut c: usize = 0;
        while c < ch
            invariant
                c <= ch,
                out.len() == k * ch + c,
                off + ch <= r.carry.len(),
                k < fw,
            decreases ch - c,
        {
            let v = r.carry[off + c];
            out.push(v);
            c += 1;
        }
        proof {
            assert(k * ch + ch == (k + 1) * ch) by (nonlinear_arith);
        }
        k += 1;
    }
    let produced = k;
    r.out_pos = r.out_pos + produced as u64;
    // Drop input frames no longer reachable from the new output position.
    proof {
        assert((r.out_pos as int) * (r.from as int) <= 0x1_0000_0000_0000_0000_0000_0000)
            by (nonlinear_arith)
            requires
                0 <= r.out_pos as int <= 0xffff_ffff_ffff_ffff,
                0 <= r.from as int <= 0xffff_ffff,
        ;
    }
    let next_idx: u128 = r.out_pos as u128 * r.from as u128 / r.to as u128;
    let keep_from: u64 = if next_idx >= have2 as u128 {
        have2
    } else if next_idx <= r.in_base as u128 {
        r.in_base
    } else {
        next_idx as u64
    };
    let drop_frames: usize = (keep_from - r.in_base) as usize;
    proof {
        assert(0 <= drop_frames as int <= r.carry.len() as int / (ch as int));
        assert(drop_frames * ch <= (r.carry.len() as int / (ch as int)) * ch)
            by (nonlinear_arith)
            requires
                ch >= 1,
                0 <= drop_frames as int <= r.carry.len() as int / (ch as int),
        ;
        lemma_mul_div_exact(drop_frames as int, ch as int);
    }
    let drop_samples: usize = drop_frames * ch;
    let mut rest: Vec<i32> = Vec::new();
    let mut t: usize = drop_samples;
    while t < r.carry.len()
        invariant
            drop_samples <= t <= r.carry.len(),
            rest.len() == t - drop_samples,
        decreases r.carry.len() - t,
    {
        let v = r.carry[t];
        rest.push(v);
        t += 1;
    }
    proof {
        vstd::arithmetic::div_mod::lemma_sub_mod_noop(
            r.carry.len() as int,
            drop_samples as int,
            ch as int,
        );
        vstd::arithmetic::div_mod::lemma_mod_multiples_basic(0, ch as int);
        assert(rest.len() as int % (ch as int) == 0);
        lemma_div_exact(rest.len() as int, ch as int);
        assert(keep_from + rest.len() as int / (ch as int) == r.in_base + r.carry.len() as int / (
        ch as int)) by (nonlinear_arith)
            requires
                ch >= 1,
                rest.len() == r.carry.len() - drop_frames as int * ch,
                (rest.len() as int / (ch as int)) * ch == rest.len(),
                (r.carry.len() as int / (ch as int)) * ch == r.carry.len(),
                keep_from == r.in_base + drop_frames,
        ;
    }
    r.carry = rest;
    r.in_base = keep_from;
    proof {
        lemma_mul_div_exact(produced as int, ch as int);
        assert((out.len() as int) % (ch as int) == 0 && out.len() <= want) by (nonlinear_arith)
            requires
                out.len() == produced as int * ch,
                0 <= produced <= fw,
                fw * ch <= want,
                ch >= 1,
                (produced as int * ch) % (ch as int) == 0,
        ;
    }
    out
}

} // verus!
