use vstd::prelude::*;

verus! {

/// Why a media stream could not be opened.
#[derive(Clone, Copy, Debug, PartialEq, Eq, Structural)]
pub enum MediaError {
    /// No installed reader recognises the container.
    UnsupportedFormat,
    /// No audio track with a known codec, or no decoder for it.
    UnsupportedCodec,
    /// The track reports no sample rate or no channels.
    BadParameters,
}

/// What one decode attempt produced.
pub enum MediaDecode {
    /// Interleaved samples, at the decoder's full 32-bit scale.
    Samples(Vec<i32>),
    /// A recoverable packet error: skip the packet and go on.
    Skip,
    /// An unrecoverable decoder error: treat the stream as ended.
    Fatal,
}

/// The open container and its audio decoder.  Both are symphonia trait
/// objects, which cannot be declared to the verifier, so the pair is held
/// opaquely and reached only through the trusted wrappers below.
#[verifier::external_body]
pub struct MediaStream {
    format: Box<dyn symphonia::core::formats::FormatReader + 'static>,
    decoder: Box<dyn symphonia::core::codecs::audio::AudioDecoder>,
}

#[verifier::external_type_specification]
#[verifier::external_body]
pub struct ExPacket(symphonia::core::packet::Packet);

/// What probing a media stream over the given bytes yields, as a function
/// of the bytes alone: nothing when no installed reader recognises them or
/// no audio track has a known codec, else the chosen track's sample rate,
/// channel count and known frame count, exactly as the container reports
/// them.  The result stands for symphonia's probe on this build's reader
/// registry.
pub uninterp spec fn spec_open(bytes: Seq<u8>) -> Option<(u32, u16, Option<u64>)>;

/// Relies on symphonia's default probe: reads the container over the
/// given bytes and reports the chosen track's sample rate, channel count,
/// frame count and id.  The call is a function of the bytes alone (the
/// registry is fixed by this build), named `spec_open`: it succeeds
/// exactly when `spec_open` has a value, and reports that value.
#[verifier::external_body]
fn media_probe_format(data: &Vec<u8>) -> (r: Result<(u32, u16, Option<u64>, u32), MediaError>)
    ensures
        r is Ok <==> spec_open(data@) is Some,
        r is Ok ==> {
            let (rate, chans, frames) = spec_open(data@).unwrap();
            &&& r.unwrap().0 == rate
            &&& r.unwrap().1 == chans
            &&& r.unwrap().2 == frames
        },
        r is Err ==> r->Err_0 == MediaError::UnsupportedFormat || r->Err_0
            == MediaError::UnsupportedCodec,
{
    let mss = symphonia::core::io::MediaSourceStream::new(Box::new(std::io::Cursor::new(data.clone())), Default::default());
    let format = symphonia::default::get_probe().probe(&Default::default(), mss, Default::default(), Default::default()).map_err(|_| MediaError::UnsupportedFormat)?;
    let track = format.first_track_known_codec(symphonia::core::formats::TrackType::Audio).ok_or(MediaError::UnsupportedCodec)?;
    match &track.codec_params {
        Some(symphonia::core::codecs::CodecParameters::Audio(p)) => Ok((p.sample_rate.unwrap_or(0), p.channels.as_ref().map(|c| c.count()).unwrap_or(0) as u16, track.num_frames, track.id)),
        _ => Err(MediaError::UnsupportedCodec),
    }
}

/// Whether the full open over the given bytes succeeds — the probe plus
/// the decoder built from this build's codec registry — as a function of
/// the bytes alone.
pub uninterp spec fn spec_open_stream(bytes: Seq<u8>) -> bool;

/// Relies on symphonia's default probe and codec registry: opens the
/// container over the given bytes and builds the chosen track's decoder.
/// The call is a function of the bytes alone, named `spec_open_stream`;
/// it cannot succeed where the probe (`spec_open`) fails.
#[verifier::external_body]
fn media_open_stream(data: Vec<u8>) -> (r: Result<MediaStream, MediaError>)
    ensures
        r is Ok <==> spec_open_stream(data@),
        spec_open(data@) is None ==> r is Err,
        r is Err ==> r->Err_0 == MediaError::UnsupportedFormat || r->Err_0
            == MediaError::UnsupportedCodec,
{
    let mss = symphonia::core::io::MediaSourceStream::new(Box::new(std::io::Cursor::new(data)), Default::default());
    let format = symphonia::default::get_probe().probe(&Default::default(), mss, Default::default(), Default::default()).map_err(|_| MediaError::UnsupportedFormat)?;
    let track = format.first_track_known_codec(symphonia::core::formats::TrackType::Audio).ok_or(MediaError::UnsupportedCodec)?;
    let params = match &track.codec_params {
        Some(symphonia::core::codecs::CodecParameters::Audio(p)) => p.clone(),
        _ => return Err(MediaError::UnsupportedCodec),
    };
    let decoder = symphonia::default::get_codecs().make_audio_decoder(&params, &Default::default()).map_err(|_| MediaError::UnsupportedCodec)?;
    Ok(MediaStream { format, decoder })
}

/// Relies on FormatReader::next_packet: the next packet of the container,
/// `None` once the media has ended.  A required reader reset counts as
/// the end of the stream; any other error is `Err`.
#[verifier::external_body]
fn media_next_packet(m: &mut MediaStream) -> (r: Result<
    Option<symphonia::core::packet::Packet>,
    (),
>) {
    match m.format.next_packet() {
        Ok(p) => Ok(p),
        Err(symphonia::core::errors::Error::ResetRequired) => Ok(None),
        Err(_) => Err(()),
    }
}

/// Relies on the packet's public track id field.
#[verifier::external_body]
fn packet_track(p: &symphonia::core::packet::Packet) -> (r: u32) {
    p.track_id
}

/// Relies on AudioDecoder::decode and the generic buffer's interleaved
/// copy: the packet's samples at the converter's full 32-bit scale (the
/// caller scales them down to the library's sample unit).  Packet I/O and
/// decode errors are recoverable (`Skip`); anything else ends the stream
/// (`Fatal`).
#[verifier::external_body]
fn media_decode(m: &mut MediaStream, p: &symphonia::core::packet::Packet) -> (r: MediaDecode) {
    match m.decoder.decode(p) {
        Ok(buf) => {
            let mut out: Vec<i32> = Vec::new();
            buf.copy_to_vec_interleaved(&mut out);
            MediaDecode::Samples(out)
        },
        Err(symphonia::core::errors::Error::IoError(_)) => MediaDecode::Skip,
        Err(symphonia::core::errors::Error::DecodeError(_)) => MediaDecode::Skip,
        Err(_) => MediaDecode::Fatal,
    }
}

/// Relies on FormatReader::seek with a track timestamp and
/// AudioDecoder::reset: repositions the container near the frame and
/// resets the decoder, as a seek requires.
#[verifier::external_body]
fn media_seek(m: &mut MediaStream, track: u32, frame: u64) -> (r: bool) {
    let ok = m.format.seek(
        symphonia::core::formats::SeekMode::Coarse,
        symphonia::core::formats::SeekTo::Timestamp {
            ts: symphonia::core::units::Timestamp::new(frame.min(i64::MAX as u64) as i64),
            track_id: track,
        },
    ).is_ok();
    m.decoder.reset();
    ok
}


/// Scales full-range decoder samples down to the library's fixed-point
/// unit: the decoder's full scale is 128 times the sample unit.
fn scale_to_unit(v: Vec<i32>) -> (r: Vec<i32>)
    ensures
        r.len() == v.len(),
        forall|k: int|
            0 <= k < v.len() ==> #[trigger] r@[k] == crate::samples::div_trunc(
                v@[k] as int,
                128,
            ),
{
    let mut r: Vec<i32> = Vec::new();
    let mut k: usize = 0;
    while k < v.len()
        invariant
            k <= v.len(),
            r.len() == k,
            forall|q: int|
                0 <= q < k ==> #[trigger] r@[q] == crate::samples::div_trunc(
                    v@[q] as int,
                    128,
                ),
        decreases v.len() - k,
    {
        let s = v[k];
        let scaled: i32 = if s >= 0 {
            s / 128
        } else {
            (-((-(s as i64)) / 128)) as i32
        };
        r.push(scaled);
        k += 1;
    }
    r
}

/// The smaller of two sample counts.
pub open spec fn min_len(a: int, b: int) -> int {
    if a < b {
        a
    } else {
        b
    }
}

/// How many packets in a row may fail or belong to other tracks before a
/// fill gives up on the stream.
pub const MAX_PACKET_TRIES: usize = 65536;

/// A decoded media stream presented as a pull source: packets are decoded
/// on demand, recoverable packet errors are skipped, and only a decoder
/// reset or the end of the container ends the stream.
pub struct Media {
    stream: MediaStream,
    track: u32,
    samplerate: u32,
    channels: u16,
    n_frames: Option<u64>,
    /// Decoded samples not yet handed out.
    pending: Vec<i32>,
    /// How many of them have been handed out.
    used: usize,
    /// Whether the stream has ended for good.
    eos: bool,
}

impl Media {
    /// Structural validity: a positive format and a cursor inside the
    /// pending buffer.
    pub open spec fn wf(&self) -> bool {
        &&& self.spec_samplerate() >= 1
        &&& self.spec_channels() >= 1
        &&& self.spec_used() <= self.spec_pending().len()
    }

    pub closed spec fn spec_samplerate(&self) -> u32 {
        self.samplerate
    }

    pub closed spec fn spec_channels(&self) -> u16 {
        self.channels
    }

    pub closed spec fn spec_n_frames(&self) -> Option<u64> {
        self.n_frames
    }

    pub closed spec fn spec_pending(&self) -> Seq<i32> {
        self.pending@
    }

    pub closed spec fn spec_used(&self) -> int {
        self.used as int
    }

    /// Whether the stream has ended for good: once set, every further
    /// fill beyond the buffered samples returns nothing.
    pub closed spec fn spec_eos(&self) -> bool {
        self.eos
    }

    /// The sample rate the track reports.
    pub fn samplerate(&self) -> (r: u32)
        ensures
            r == self.spec_samplerate(),
    {
        self.samplerate
    }

    /// The channel count the track reports.
    pub fn channels(&self) -> (r: u16)
        ensures
            r == self.spec_channels(),
    {
        self.channels
    }

    /// The container's frame count, where it reports one.
    pub fn len(&self) -> (r: Option<u64>)
        ensures
            r == self.spec_n_frames(),
    {
        self.n_frames
    }

    /// Opens a stream over in-memory encoded bytes: it opens exactly when
    /// the probe (`spec_open`) recognises the bytes, the track reports a
    /// nonzero sample rate and channel count, and the full open
    /// (`spec_open_stream`, the probe plus the registry's decoder) goes
    /// through — and then carries exactly the probed format.
    pub fn new_from_bytes(data: Vec<u8>) -> (r: Result<Media, MediaError>)
        ensures
            r is Ok <==> (spec_open(data@) is Some && spec_open(data@).unwrap().0 >= 1
                && spec_open(data@).unwrap().1 >= 1 && spec_open_stream(data@)),
            r == Err::<Media, MediaError>(MediaError::BadParameters) <==> (spec_open(data@)
                is Some && (spec_open(data@).unwrap().0 == 0 || spec_open(data@).unwrap().1
                == 0)),
            r is Ok ==> {
                let (rate, chans, frames) = spec_open(data@).unwrap();
                &&& r.unwrap().wf()
                &&& r.unwrap().spec_samplerate() == rate
                &&& r.unwrap().spec_channels() == chans
                &&& r.unwrap().spec_n_frames() == frames
                &&& !r.unwrap().spec_eos()
                &&& r.unwrap().spec_pending().len() == 0
                &&& r.unwrap().spec_used() == 0
            },
    {
        let (samplerate, channels, n_frames, track) = match media_probe_format(&data) {
            Ok(t) => t,
            Err(e) => {
                return Err(e);
            },
        };
        if samplerate == 0 || channels == 0 {
            return Err(MediaError::BadParameters);
        }
        let stream = match media_open_stream(data) {
            Ok(st) => st,
            Err(e) => {
                return Err(e);
            },
        };
        Ok(
            Media {
                stream,
                track,
                samplerate,
                channels,
                n_frames,
                pending: Vec::new(),
                used: 0,
                eos: false,
            },
        )
    }

    /// Pulls the next decodable packet of this stream's track into the
    /// pending buffer: packets of other tracks and recoverable errors are
    /// skipped (up to the retry bound), and a true end of stream sets the
    /// end flag for good.
    fn refill(&mut self) -> (got: bool)
        requires
            old(self).wf(),
        ensures
            final(self).wf(),
            final(self).spec_samplerate() == old(self).spec_samplerate(),
            final(self).spec_channels() == old(self).spec_channels(),
            final(self).spec_n_frames() == old(self).spec_n_frames(),
            got ==> final(self).spec_used() < final(self).spec_pending().len(),
            !got ==> final(self).spec_eos(),
            old(self).spec_eos() ==> final(self).spec_eos(),
    {
        let mut tries: usize = 0;
        while tries < MAX_PACKET_TRIES
            invariant
                self.wf(),
                self.spec_samplerate() == old(self).spec_samplerate(),
                self.spec_channels() == old(self).spec_channels(),
                self.spec_n_frames() == old(self).spec_n_frames(),
                old(self).spec_eos() ==> self.spec_eos(),
            decreases MAX_PACKET_TRIES - tries,
        {
            let packet = match media_next_packet(&mut self.stream) {
                Ok(Some(p)) => p,
                Ok(None) => {
                    self.eos = true;
                    return false;
                },
                Err(_) => {
                    self.eos = true;
                    return false;
                },
            };
            if packet_track(&packet) != self.track {
                tries += 1;
                continue ;
            }
            match media_decode(&mut self.stream, &packet) {
                MediaDecode::Samples(v) => {
                    if v.len() > 0 {
                        self.pending = scale_to_unit(v);
                        self.used = 0;
                        return true;
                    }
                    tries += 1;
                },
                MediaDecode::Skip => {
                    tries += 1;
                },
                MediaDecode::Fatal => {
                    self.eos = true;
                    return false;
                },
            }
        }
        self.eos = true;
        false
    }

    /// Copies up to `room` samples out of the pending buffer, verbatim.
    fn take_buffered(&mut self, room: usize) -> (out: Vec<i32>)
        requires
            old(self).wf(),
        ensures
            final(self).wf(),
            final(self).spec_samplerate() == old(self).spec_samplerate(),
            final(self).spec_channels() == old(self).spec_channels(),
            final(self).spec_n_frames() == old(self).spec_n_frames(),
            final(self).spec_pending() == old(self).spec_pending(),
            final(self).spec_eos() == old(self).spec_eos(),
            out.len() == min_len(
                room as int,
                old(self).spec_pending().len() - old(self).spec_used(),
            ),
            final(self).spec_used() == old(self).spec_used() + out.len(),
            forall|k: int|
                0 <= k < out.len() ==> #[trigger] out@[k] == old(self).spec_pending()[old(
                    self,
                ).spec_used() + k],
    {
        let avail = self.pending.len() - self.used;
        let take = if avail < room {
            avail
        } else {
            room
        };
        let mut out: Vec<i32> = Vec::new();
        let mut q: usize = 0;
        while q < take
            invariant
                q <= take,
                self.wf(),
                *self == *old(self),
                self.used + take <= self.pending.len(),
                out.len() == q,
                forall|k: int|
                    0 <= k < q ==> #[trigger] out@[k] == self.spec_pending()[self.spec_used()
                        + k],
            decreases take - q,
        {
            let v = self.pending[self.used + q];
            out.push(v);
            q += 1;
        }
        self.used = self.used + take;
        out
    }

    /// Pulls up to `want` samples, decoding as needed, in whole frames:
    /// the already-buffered samples go out first, verbatim; a short fill
    /// means the stream has truly ended; and once ended with nothing
    /// buffered, nothing more comes.
    pub fn fill(&mut self, want: usize) -> (out: Vec<i32>)
        requires
            old(self).wf(),
        ensures
            final(self).wf(),
            final(self).spec_samplerate() == old(self).spec_samplerate(),
            final(self).spec_channels() == old(self).spec_channels(),
            final(self).spec_n_frames() == old(self).spec_n_frames(),
            out.len() <= want,
            out.len() as int % (old(self).spec_channels() as int) == 0,
            forall|k: int|
                0 <= k < out.len() && k < old(self).spec_pending().len() - old(
                    self,
                ).spec_used() ==> #[trigger] out@[k] == old(self).spec_pending()[old(
                    self,
                ).spec_used() + k],
            out.len() < (want as int / (old(self).spec_channels() as int)) * old(
                self,
            ).spec_channels() ==> final(self).spec_eos(),
            (old(self).spec_eos() && old(self).spec_used() >= old(
                self,
            ).spec_pending().len()) ==> out.len() == 0,
    {
        let ch = self.channels as usize;
        proof {
            vstd::arithmetic::div_mod::lemma_fundamental_div_mod(want as int, ch as int);
            vstd::arithmetic::div_mod::lemma_mod_division_less_than_divisor(
                want as int,
                ch as int,
            );
            vstd::arithmetic::div_mod::lemma_div_pos_is_pos(want as int, ch as int);
            assert(ch * (want as int / (ch as int)) == (want as int / (ch as int)) * ch)
                by (nonlinear_arith);
        }
        let n = want / ch * ch;
        if self.eos && self.used >= self.pending.len() {
            return Vec::new();
        }
        let mut out = self.take_buffered(n);
        let ghost first = out@;
        loop
            invariant
                self.wf(),
                self.spec_samplerate() == old(self).spec_samplerate(),
                self.spec_channels() == old(self).spec_channels(),
                self.spec_n_frames() == old(self).spec_n_frames(),
                out.len() <= n,
                n <= want,
                ch == self.spec_channels(),
                first.len() <= out.len(),
                out@.take(first.len() as int) == first,
            ensures
                self.wf(),
                self.spec_samplerate() == old(self).spec_samplerate(),
                self.spec_channels() == old(self).spec_channels(),
                self.spec_n_frames() == old(self).spec_n_frames(),
                out.len() <= n,
                out.len() < n ==> self.spec_eos(),
                first.len() <= out.len(),
                out@.take(first.len() as int) == first,
            decreases n - out.len(),
        {
            if out.len() == n {
                break ;
            }
            if self.eos {
                break ;
            }
            if !self.refill() {
                break ;
            }
            let mut more = self.take_buffered(n - out.len());
            proof {
                assert(more.len() >= 1);
            }
            let ghost out_old = out@;
            out.append(&mut more);
            proof {
                assert(out@.take(first.len() as int) =~= out_old.take(first.len() as int));
            }
        }
        proof {
            vstd::arithmetic::div_mod::lemma_mod_multiples_basic(
                want as int / (ch as int),
                ch as int,
            );
            if out.len() == n {
                vstd::arithmetic::div_mod::lemma_fundamental_div_mod(n as int, ch as int);
                assert(n as int % (ch as int) == 0);
                lemma_div_mul_exact_media(n as int, ch as int);
            }
        }
        proof {
            vstd::arithmetic::div_mod::lemma_fundamental_div_mod(out.len() as int, ch as int);
            vstd::arithmetic::div_mod::lemma_mod_division_less_than_divisor(
                out.len() as int,
                ch as int,
            );
            vstd::arithmetic::div_mod::lemma_div_pos_is_pos(out.len() as int, ch as int);
            assert(ch * (out.len() as int / (ch as int)) == (out.len() as int / (ch as int))
                * ch) by (nonlinear_arith);
            vstd::arithmetic::div_mod::lemma_mod_multiples_basic(
                out.len() as int / (ch as int),
                ch as int,
            );
        }
        let keep = out.len() / ch * ch;
        let ghost pre_trunc = out@;
        out.truncate(keep);
        proof {
            assert forall|k: int|
                0 <= k < out.len() && k < old(self).spec_pending().len() - old(
                    self,
                ).spec_used() implies #[trigger] out@[k] == old(self).spec_pending()[old(
                self,
            ).spec_used() + k] by {
                assert(out@[k] == pre_trunc[k]);
                if k < first.len() {
                    assert(pre_trunc.take(first.len() as int)[k] == pre_trunc[k]);
                    assert(pre_trunc[k] == first[k]);
                }
            }
        }
        out
    }

    /// Repositions near the given frame: the buffered samples are cleared
    /// and the end flag reset, so decoding resumes from the new position.
    /// The returned flag is whether the container accepted the reposition;
    /// that is the reader's decision and nothing is promised of it.
    pub fn seek(&mut self, frame: u64) -> (r: bool)
        requires
            old(self).wf(),
        ensures
            final(self).wf(),
            final(self).spec_samplerate() == old(self).spec_samplerate(),
            final(self).spec_channels() == old(self).spec_channels(),
            final(self).spec_n_frames() == old(self).spec_n_frames(),
            final(self).spec_pending().len() == 0,
            final(self).spec_used() == 0,
            !final(self).spec_eos(),
    {
        let ok = media_seek(&mut self.stream, self.track, frame);
        self.pending = Vec::new();
        self.used = 0;
        self.eos = false;
        ok
    }
}


/// A multiple of the channel count truncates to itself.
proof fn lemma_div_mul_exact_media(n: int, ch: int)
    requires
        ch >= 1,
        n >= 0,
        n % ch == 0,
    ensures
        (n / ch) * ch == n,
{
    vstd::arithmetic::div_mod::lemma_fundamental_div_mod(n, ch);
    assert((n / ch) * ch == ch * (n / ch)) by (nonlinear_arith);
}

} // verus!
