use sprunk::{find_mix, Source, SAMPLE_UNIT, VOL_UNIT};

fn sine_buffer(frames: usize, samplerate: u32, channels: u16, freq_millihz: u32) -> Source {
    let mut sine = Source::sine(samplerate, channels, freq_millihz);
    let data = sine.force_fill(frames * channels as usize);
    assert_eq!(data.len(), frames * channels as usize);
    Source::buffer(data, samplerate, channels)
}

#[test]
fn shapes() {
    // make sure find_mix(i, j) is (i, j) shaped
    for i in 0..10 {
        for j in 0..10 {
            let mix = find_mix(i, j);

            assert_eq!(mix.len(), i as usize);
            for col in mix.iter() {
                assert_eq!(col.len(), j as usize);
            }
        }
    }
}

#[test]
fn reformat_reports_requested_format() {
    // every stream reformatted to (r, c) reports exactly (r, c)
    let cases: &[(u32, u16)] = &[(48000, 2), (44100, 1), (8000, 6), (96000, 3)];
    for &(r, c) in cases {
        let s = Source::sine(22050, 4, 440_000).reformat(r, c);
        assert_eq!(s.samplerate(), r);
        assert_eq!(s.channels(), c);
    }
    let b = Source::buffer(vec![0i32; 8], 16000, 2).reformat(48000, 1);
    assert_eq!(b.samplerate(), 48000);
    assert_eq!(b.channels(), 1);
}

#[test]
fn identity_remix_reproduces_frames() {
    // the canonical (n, n) matrix reproduces every frame exactly for
    // n = 1 and n = 2 (integer samples make the identity exact)
    for n in 1u16..=2 {
        let frames = 100usize;
        let mut data = Vec::new();
        for k in 0..frames * n as usize {
            data.push(((k as i32 * 9173) % 16_000_000) - 8_000_000);
        }
        let original = data.clone();
        let mut s = Source::buffer(data, 48000, n).remix(n);
        let out = s.force_fill(frames * n as usize);
        assert_eq!(out, original);
    }
}

#[test]
fn stereo_downmix_averages() {
    // the (1, 2) canonical matrix averages the two channels
    let data = vec![1_000_000i32, 3_000_000, -2_000_000, -4_000_000];
    let mut s = Source::buffer(data, 48000, 2).remix(1);
    let out = s.force_fill(2);
    assert_eq!(out, vec![2_000_000, -3_000_000]);
}

#[test]
fn upmix_duplicates_mono() {
    let data = vec![5_000_000i32, -7_000_000];
    let mut s = Source::buffer(data, 48000, 1).remix(2);
    let out = s.force_fill(4);
    assert_eq!(out, vec![5_000_000, 5_000_000, -7_000_000, -7_000_000]);
}

#[test]
fn sine_is_bounded_and_nonzero() {
    let mut s = Source::sine(48000, 1, 440_000);
    let out = s.force_fill(48000);
    assert_eq!(out.len(), 48000);
    let mut nonzero = 0usize;
    for &v in out.iter() {
        assert!(v.abs() <= SAMPLE_UNIT);
        if v != 0 {
            nonzero += 1;
        }
    }
    assert!(nonzero > 40000);
}

#[test]
fn sine_first_sample_is_zero_and_quarter_wave_peaks() {
    // sin(0) = 0, and at a quarter period the value is full scale
    let mut s = Source::sine(1000, 1, 250_000);
    let out = s.force_fill(8);
    assert_eq!(out[0], 0);
    assert_eq!(out[1], SAMPLE_UNIT);
    assert_eq!(out[2], 0);
    assert_eq!(out[3], -SAMPLE_UNIT);
}

#[test]
fn buffer_fill_accounts_frames() {
    let mut s = Source::buffer(vec![7i32; 1000], 48000, 2);
    assert_eq!(s.len(), Some(500));
    let first = s.fill(600);
    assert_eq!(first.len(), 600);
    assert_eq!(s.len(), Some(200));
    let rest = s.fill(600);
    assert_eq!(rest.len(), 400);
    assert_eq!(s.len(), Some(0));
    let empty = s.fill(600);
    assert_eq!(empty.len(), 0);
}

#[test]
fn volume_scales_samples() {
    let mut s = Source::buffer(vec![1_000_000i32; 4], 48000, 1).volume(VOL_UNIT / 2);
    let out = s.force_fill(4);
    assert_eq!(out, vec![500_000; 4]);
}

#[test]
fn deferred_volume_waits_for_worker() {
    let (tx, rx) = std::sync::mpsc::channel();
    let mut s = Source::buffer(vec![1_000_000i32; 4], 48000, 1).normalize(rx);
    tx.send(2 * VOL_UNIT).unwrap();
    let out = s.force_fill(4);
    assert_eq!(out, vec![2_000_000; 4]);
}

#[test]
fn failed_normalization_is_silent_forever() {
    let (tx, rx) = std::sync::mpsc::channel::<i64>();
    drop(tx);
    let mut s = Source::buffer(vec![1_000_000i32; 4], 48000, 1).normalize(rx);
    let out = s.fill(4);
    assert_eq!(out.len(), 0);
    assert_eq!(s.len(), Some(0));
}

#[test]
fn resample_doubles_frames_upward() {
    // zero-order hold from 24 kHz to 48 kHz repeats every frame twice
    let mut s = Source::buffer(vec![1i32, 2, 3, 4], 24000, 1).resample(48000);
    assert_eq!(s.samplerate(), 48000);
    assert_eq!(s.len(), Some(8));
    let out = s.force_fill(8);
    assert_eq!(out, vec![1, 1, 2, 2, 3, 3, 4, 4]);
}

#[test]
fn resample_halves_frames_downward() {
    let mut s = Source::buffer(vec![10i32, 20, 30, 40], 48000, 1).resample(24000);
    assert_eq!(s.len(), Some(2));
    let out = s.force_fill(2);
    assert_eq!(out, vec![10, 30]);
}

#[test]
fn crossfade_windows_are_bounded_and_end_silent() {
    // two one-second tones at 48 kHz stereo, the second scheduled at
    // frame 24000; output is audio in [0, 72000) and silence after
    let (handle, mut src) = sprunk::Scheduler::new(48000, 2);
    let first = sine_buffer(48000, 48000, 2, 440_000);
    let second = sine_buffer(48000, 48000, 2, 880_000);
    handle.add(&mut src, sprunk::Time::frames(0), first);
    handle.add(&mut src, sprunk::Time::frames(24000), second);
    handle.set_volume(
        &mut src,
        sprunk::Time::frames(0),
        0,
        sprunk::Time::micros(5000),
    );
    handle.set_volume(
        &mut src,
        sprunk::Time::frames(0),
        VOL_UNIT,
        sprunk::Time::frames(24000),
    );
    handle.set_volume(
        &mut src,
        sprunk::Time::frames(24000),
        0,
        sprunk::Time::frames(24000),
    );

    let mut all: Vec<i32> = Vec::new();
    loop {
        let chunk = src.fill(24000);
        if chunk.is_empty() {
            break;
        }
        all.extend_from_slice(&chunk);
    }
    assert!(all.len() >= 72000 * 2);
    let mut nonzero = 0usize;
    for (k, &v) in all.iter().enumerate() {
        assert!(v.abs() <= SAMPLE_UNIT, "peak exceeded at sample {}", k);
        if k >= 72000 * 2 {
            assert_eq!(v, 0, "audio after the second file's end at sample {}", k);
        } else if v != 0 {
            nonzero += 1;
        }
    }
    assert!(nonzero > 48000, "crossfade produced too little audio");
}

#[test]
fn scheduler_conserves_buffer_frames() {
    // every frame of a finite source at native rate and channels comes
    // out exactly once, wherever the windows fall
    let frames = 1000usize;
    let (handle, mut src) = sprunk::Scheduler::new(8000, 1);
    let data = vec![123_456i32; frames];
    let buffer = Source::buffer(data, 8000, 1);
    handle.add(&mut src, sprunk::Time::frames(100), buffer);
    let mut nonzero = 0usize;
    loop {
        let chunk = src.fill(256);
        if chunk.is_empty() {
            break;
        }
        for &v in chunk.iter() {
            if v != 0 {
                nonzero += 1;
            }
        }
    }
    assert_eq!(nonzero, frames);
}

#[test]
fn seek_repositions_buffers() {
    let mut s = Source::buffer(vec![1i32, 2, 3, 4, 5, 6], 8000, 1);
    assert!(s.seek(4).is_ok());
    assert_eq!(s.force_fill(4), vec![5, 6]);
    assert!(s.seek(0).is_ok());
    assert_eq!(s.force_fill(6), vec![1, 2, 3, 4, 5, 6]);
}

#[test]
fn failed_normalization_refuses_seek() {
    let (tx, rx) = std::sync::mpsc::channel::<i64>();
    drop(tx);
    let mut s = Source::buffer(vec![1i32; 4], 8000, 1).normalize(rx);
    assert_eq!(s.seek(0), Err(sprunk::SourceError::NormalizationFailed));
}

#[test]
fn garbage_bytes_are_not_media() {
    let junk = vec![0u8; 64];
    assert!(sprunk::Media::new_from_bytes(junk).is_err());
}
