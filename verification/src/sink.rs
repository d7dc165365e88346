use vstd::prelude::*;

verus! {

/// The encodings an encoder can produce.
pub enum Format {
    Mp3,
    Other(String),
}

/// A sink that writes encoded audio through an inner writer.  The writer
/// and encoder are supplied by the surrounding program; this type only
/// carries them together with the stream's format.
pub struct Stream<F, E> {
    pub inner: F,
    pub encoder: E,
}

impl<F, E> Stream<F, E> {
    /// Pairs a writer with an encoder.
    pub fn new(inner: F, encoder: E) -> (r: Stream<F, E>)
        ensures
            r.inner == inner,
            r.encoder == encoder,
    {
        Stream { inner, encoder }
    }
}

/// A pacing wrapper around a sink: it remembers the moment (in
/// microseconds of audio written) when the audio delivered so far runs
/// out, so the surrounding program can sleep until one chunk before that
/// deadline.
pub struct Realtime<S> {
    pub inner: S,
    /// The run-out deadline in microseconds since the first write, if a
    /// write has happened.
    pub runout_micros: Option<u64>,
}

impl<S> Realtime<S> {
    /// A pacing wrapper that has not written yet.
    pub fn new(inner: S) -> (r: Realtime<S>)
        ensures
            r.inner == inner,
            r.runout_micros is None,
    {
        Realtime { inner, runout_micros: None }
    }

    /// Accounts one chunk of `chunk_micros` of audio written at moment
    /// `now_micros`: returns how long to sleep before writing (so the
    /// buffered audio stays one chunk ahead of real time) and advances the
    /// run-out deadline by the chunk.
    pub fn pace(&mut self, now_micros: u64, chunk_micros: u64) -> (sleep_micros: u64)
        requires
            now_micros + 2 * chunk_micros <= u64::MAX,
            (match old(self).runout_micros {
                Some(r) => r + chunk_micros <= u64::MAX,
                None => true,
            }),
        ensures
            (match old(self).runout_micros {
                Some(r) => {
                    &&& sleep_micros == (if r > now_micros + chunk_micros {
                        r - now_micros - chunk_micros
                    } else {
                        0
                    })
                    &&& final(self).runout_micros == Some((r + chunk_micros) as u64)
                },
                None => {
                    &&& sleep_micros == 0
                    &&& final(self).runout_micros == Some((now_micros + chunk_micros) as u64)
                },
            }),
            final(self).inner == old(self).inner,
    {
        match self.runout_micros {
            Some(r) => {
                let sleep = if r > now_micros + chunk_micros {
                    r - now_micros - chunk_micros
                } else {
                    0
                };
                self.runout_micros = Some(r + chunk_micros);
                sleep
            },
            None => {
                self.runout_micros = Some(now_micros + chunk_micros);
                0
            },
        }
    }
}

} // verus!
