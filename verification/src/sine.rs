use vstd::prelude::*;
use crate::samples::SAMPLE_UNIT;

verus! {

/// A sine-wave generator: sample `n` holds `sin(2*pi*f*n/sr)` duplicated
/// across all channels, computed with a fixed-point rational approximation
/// of the sine (exact at 0, the extremes and the half-period, within 0.0017
/// of full scale elsewhere).  The stream is unbounded.
pub struct Sine {
    samplerate: u32,
    channels: u16,
    freq_millihz: u32,
    /// Interleaved samples emitted so far; the frame counter is
    /// `pos / channels`.
    pos: u64,
}

/// The approximated sine sample for frame `n` at rate `sr` and frequency
/// `freq_millihz / 1000` Hz, scaled to `SAMPLE_UNIT`: the phase is reduced
/// to half-period ticks `i` out of `h = 1000 * sr`, and the magnitude is
/// the rational `16q * SAMPLE_UNIT / (5h^2 - 4q)` with `q = i * (h - i)`,
/// negated on the second half-period.
pub open spec fn spec_sine_sample(sr: int, freq_millihz: int, n: int) -> int
    recommends
        sr >= 1,
        n >= 0,
{
    let c = 2000 * sr;
    let h = 1000 * sr;
    let ph = (2 * freq_millihz * n) % c;
    let i = if ph < h {
        ph
    } else {
        ph - h
    };
    let q = i * (h - i);
    let v = 16 * q * SAMPLE_UNIT / (5 * h * h - 4 * q);
    if ph < h {
        v
    } else {
        -v
    }
}

/// The sine approximation never exceeds full scale.
pub proof fn lemma_sine_sample_bounded(sr: int, freq_millihz: int, n: int)
    requires
        sr >= 1,
        n >= 0,
        freq_millihz >= 0,
    ensures
        -SAMPLE_UNIT <= spec_sine_sample(sr, freq_millihz, n) <= SAMPLE_UNIT,
{
    let c = 2000 * sr;
    let h = 1000 * sr;
    let ph = (2 * freq_millihz * n) % c;
    assert(2 * freq_millihz * n >= 0) by (nonlinear_arith)
        requires
            freq_millihz >= 0,
            n >= 0,
    ;
    assert(0 <= ph < c) by (nonlinear_arith)
        requires
            c > 0,
            2 * freq_millihz * n >= 0,
            ph == (2 * freq_millihz * n) % c,
    ;
    let i = if ph < h {
        ph
    } else {
        ph - h
    };
    assert(0 <= i < h);
    let q = i * (h - i);
    lemma_sine_value_bounds(h, i);
}

/// For `0 <= i < h`, the rational sine magnitude is well defined (positive
/// denominator) and lies in `[0, SAMPLE_UNIT]`.
pub proof fn lemma_sine_value_bounds(h: int, i: int)
    requires
        h >= 1,
        0 <= i < h,
    ensures
        i * (h - i) >= 0,
        4 * (i * (h - i)) <= h * h,
        5 * h * h - 4 * (i * (h - i)) > 0,
        0 <= 16 * (i * (h - i)) * SAMPLE_UNIT / (5 * h * h - 4 * (i * (h - i))) <= SAMPLE_UNIT,
{
    let q = i * (h - i);
    assert(q == i * (h - i) && q >= 0 && 4 * q <= h * h) by (nonlinear_arith)
        requires
            q == i * (h - i),
            0 <= i,
            i < h,
    ;
    let den = 5 * h * h - 4 * q;
    assert(den >= 4 * (h * h) && h * h > 0 && den > 0) by (nonlinear_arith)
        requires
            den == 5 * h * h - 4 * q,
            4 * q <= h * h,
            h >= 1,
    ;
    let num = 16 * q * SAMPLE_UNIT;
    assert(num >= 0 && num <= SAMPLE_UNIT * den) by (nonlinear_arith)
        requires
            num == 16 * q * SAMPLE_UNIT,
            den == 5 * h * h - 4 * q,
            4 * q <= h * h,
            q >= 0,
    ;
    assert(0 <= num / den <= SAMPLE_UNIT) by (nonlinear_arith)
        requires
            den > 0,
            num >= 0,
            num <= SAMPLE_UNIT * den,
    ;
}

impl Sine {
    /// Structural validity: a positive rate and at least one channel.
    pub open spec fn wf(&self) -> bool {
        &&& self.spec_samplerate() >= 1
        &&& self.spec_channels() >= 1
    }

    pub closed spec fn spec_samplerate(&self) -> u32 {
        self.samplerate
    }

    pub closed spec fn spec_channels(&self) -> u16 {
        self.channels
    }

    pub closed spec fn spec_freq_millihz(&self) -> u32 {
        self.freq_millihz
    }

    pub closed spec fn spec_pos(&self) -> u64 {
        self.pos
    }

    /// A generator at `samplerate` Hz with `channels` channels and a tone
    /// frequency of `freq_millihz / 1000` Hz, starting at frame 0.
    pub fn new(samplerate: u32, channels: u16, freq_millihz: u32) -> (s: Sine)
        requires
            samplerate >= 1,
            channels >= 1,
        ensures
            s.wf(),
            s.spec_samplerate() == samplerate,
            s.spec_channels() == channels,
            s.spec_freq_millihz() == freq_millihz,
            s.spec_pos() == 0,
    {
        Sine { samplerate, channels, freq_millihz, pos: 0 }
    }

    pub fn samplerate(&self) -> (r: u32)
        ensures
            r == self.spec_samplerate(),
    {
        self.samplerate
    }

    pub fn channels(&self) -> (r: u16)
        ensures
            r == self.spec_channels(),
    {
        self.channels
    }

    /// The interleaved samples emitted so far.
    pub fn pos_hint(&self) -> (r: u64)
        ensures
            r == self.spec_pos(),
    {
        self.pos
    }

    /// Fills the whole buffer with sine samples, duplicating each frame's
    /// value across channels, and advances the position.  Always writes
    /// `buffer.len()` samples: the stream never ends.
    pub fn fill(&mut self, buffer: &mut Vec<i32>) -> (written: usize)
        requires
            old(self).wf(),
            old(self).spec_pos() + buffer.len() <= u64::MAX,
        ensures
            written == old(buffer).len(),
            final(buffer).len() == old(buffer).len(),
            final(self).wf(),
            final(self).spec_samplerate() == old(self).spec_samplerate(),
            final(self).spec_channels() == old(self).spec_channels(),
            final(self).spec_freq_millihz() == old(self).spec_freq_millihz(),
            final(self).spec_pos() == old(self).spec_pos() + old(buffer).len(),
            forall|k: int|
                0 <= k < old(buffer).len() ==> #[trigger] final(buffer)@[k] == spec_sine_sample(
                    old(self).spec_samplerate() as int,
                    old(self).spec_freq_millihz() as int,
                    (old(self).spec_pos() + k) as int / (old(self).spec_channels() as int),
                ),
    {
        let len = buffer.len();
        let mut k: usize = 0;
        while k < len
            invariant
                k <= len,
                buffer.len() == len,
                self.wf(),
                self.samplerate == old(self).spec_samplerate(),
                self.channels == old(self).spec_channels(),
                self.freq_millihz == old(self).spec_freq_millihz(),
                self.pos == old(self).spec_pos(),
                self.pos + len <= u64::MAX,
                forall|t: int|
                    0 <= t < k ==> #[trigger] buffer@[t] == spec_sine_sample(
                        self.samplerate as int,
                        self.freq_millihz as int,
                        (self.pos + t) as int / (self.channels as int),
                    ),
            decreases len - k,
        {
            let frame: u64 = (self.pos + k as u64) / self.channels as u64;
            let v = sine_sample(self.samplerate, self.freq_millihz, frame);
            buffer.set(k, v);
            k += 1;
        }
        self.pos = self.pos + len as u64;
        len
    }

    /// Repositions the stream at the start of `frame`.
    pub fn seek(&mut self, frame: u64) -> (r: bool)
        requires
            old(self).wf(),
            frame * old(self).spec_channels() <= u64::MAX,
        ensures
            r,
            final(self).wf(),
            final(self).spec_samplerate() == old(self).spec_samplerate(),
            final(self).spec_channels() == old(self).spec_channels(),
            final(self).spec_freq_millihz() == old(self).spec_freq_millihz(),
            final(self).spec_pos() == frame * old(self).spec_channels(),
    {
        self.pos = frame * self.channels as u64;
        true
    }
}

/// Computes one sine sample in unsigned 128-bit arithmetic, proved equal to
/// the specification value.
fn sine_sample(sr: u32, freq_millihz: u32, n: u64) -> (v: i32)
    requires
        sr >= 1,
    ensures
        v == spec_sine_sample(sr as int, freq_millihz as int, n as int),
        -SAMPLE_UNIT <= v <= SAMPLE_UNIT,
{
    let c: u128 = 2000u128 * sr as u128;
    let h: u128 = 1000u128 * sr as u128;
    proof {
        assert(0 <= 2 * (freq_millihz as int) * (n as int)
            <= 200_000_000_000_000_000_000_000_000_000) by (nonlinear_arith)
            requires
                0 <= freq_millihz as int <= 0xffff_ffff,
                0 <= n as int <= 0xffff_ffff_ffff_ffff,
        ;
    }
    let ph: u128 = (2u128 * freq_millihz as u128 * n as u128) % c;
    proof {
        assert(0 <= ph < c) by (nonlinear_arith)
            requires
                c as int > 0,
                ph as int == (2 * (freq_millihz as int) * (n as int)) % (c as int),
        ;
    }
    let i: u128 = if ph < h {
        ph
    } else {
        ph - h
    };
    proof {
        lemma_sine_value_bounds(h as int, i as int);
        assert((i as int) * ((h as int) - (i as int)) <= (h as int) * (h as int))
            by (nonlinear_arith)
            requires
                0 <= i as int,
                (i as int) < (h as int),
        ;
        assert((h as int) * (h as int) <= 0x1000_0000_0000_0000_0000_0000) by (nonlinear_arith)
            requires
                0 <= h as int <= 5_000_000_000_000,
        ;
    }
    let q: u128 = i * (h - i);
    proof {
        assert(16 * (q as int) * (SAMPLE_UNIT as int)
            <= 0x1000_0000_0000_0000_0000_0000_0000_0000) by (nonlinear_arith)
            requires
                0 <= q as int <= 0x1000_0000_0000_0000_0000_0000,
        ;
        assert(5 * ((h as int) * (h as int)) == 5 * (h as int) * (h as int)) by (nonlinear_arith);
    }
    let den: u128 = 5 * (h * h) - 4 * q;
    let num: u128 = 16 * q * SAMPLE_UNIT as u128;
    let mag: u128 = num / den;
    proof {
        assert(num as int == 16 * (q as int) * (SAMPLE_UNIT as int)) by (nonlinear_arith)
            requires
                num as int == (16 * (q as int)) * (SAMPLE_UNIT as int),
        ;
        assert(mag as int == spec_sine_sample(sr as int, freq_millihz as int, n as int)
            || -(mag as int) == spec_sine_sample(sr as int, freq_millihz as int, n as int));
    }
    let m: i32 = mag as i32;
    if ph < h {
        m
    } else {
        -m
    }
}

} // verus!
