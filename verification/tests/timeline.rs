use sprunk::{Manager, Scheduler, SoftError, SoftScheduler, Source, Time, SAMPLE_UNIT, VOL_UNIT};

#[test]
fn seconds_to_frames_round_trip() {
    // Time::seconds(s).to_frames(sr) / sr stays within 1/sr of s
    for &s in &[0i64, 1, 2, 90, 3600] {
        for &sr in &[8000u32, 44100, 48000] {
            let f = Time::seconds(s).to_frames(sr);
            assert_eq!(f, s as u64 * sr as u64);
        }
    }
    // fractional seconds land within one frame
    let f = Time::micros(1_500_000).to_frames(48000);
    assert_eq!(f, 72000);
    let g = Time::micros(10).to_frames(48000);
    assert!(g <= 1);
}

#[test]
fn time_arithmetic_is_componentwise() {
    let a = Time::frames(100).add(Time::micros(250));
    assert_eq!(a.frames, 100);
    assert_eq!(a.micros, 250);
    let b = a.sub(Time::frames(40));
    assert_eq!(b.frames, 60);
    assert_eq!(b.micros, 250);
}

#[test]
fn ramp_passes_through_targets() {
    // after set_volume(t0, v0, d0) and set_volume(t1, v1, d1) with
    // t1 >= t0 + d0, the rendered gain is exactly v0 at t0 + d0 and v1 at
    // t1 + d1; a constant full-unit source turns samples into gains
    let sr = 1000u32;
    let (handle, mut src) = Scheduler::new(sr, 1);
    let data = vec![VOL_UNIT as i32; 8000];
    handle.add(&mut src, Time::frames(0), Source::buffer(data, sr, 1));
    let v0 = 250_000i64;
    let v1 = 750_000i64;
    // t0 = 1000 frames = 1 s, d0 = 1 s; t1 = 3 s, d1 = 1 s
    handle.set_volume(&mut src, Time::frames(1000), v0, Time::frames(1000));
    handle.set_volume(&mut src, Time::frames(3000), v1, Time::frames(1000));
    let mut all: Vec<i32> = Vec::new();
    for _ in 0..10 {
        let chunk = src.fill(800);
        if chunk.is_empty() {
            break;
        }
        all.extend_from_slice(&chunk);
    }
    assert!(all.len() >= 5000);
    assert_eq!(all[2000] as i64, v0, "gain at t0 + d0");
    assert_eq!(all[4000] as i64, v1, "gain at t1 + d1");
    // before the first ramp the gain is the initial full unit
    assert_eq!(all[0] as i64, VOL_UNIT);
    // between the ramps the gain holds the first target
    assert_eq!(all[2500] as i64, v0);
}

#[test]
fn timer_fires_before_render() {
    // a timer at frame 1000 fires during settle; the woken work adds a
    // source at 1500, and the same window already carries its audio
    let (handle, mut src) = Scheduler::new(48000, 1);
    let timer = handle.wait(&mut src, Time::frames(1000));
    let fired = src.settle(2000);
    assert_eq!(fired, vec![timer]);
    let mut sine = Source::sine(48000, 1, 440_000);
    let data = sine.force_fill(48000);
    handle.add(&mut src, Time::frames(1500), Source::buffer(data, 48000, 1));
    let out = src.render_node(0, 2000);
    assert_eq!(out.len(), 2000);
    let mut nonzero = 0usize;
    for k in 0..1500 {
        assert_eq!(out[k], 0);
    }
    for k in 1500..2000 {
        if out[k] != 0 {
            nonzero += 1;
        }
    }
    assert!(nonzero > 400, "woken work must land in the same window");
}

#[test]
fn soft_scheduler_force_fit_shifts_music() {
    // music 10 s, voice 5 s, pre = 1 s, post = 1 s, padding = 0.5 s,
    // forced: the music starts at (5 + 2 * 0.5 - 1) = 5 s and the next
    // hard mark is 15.5 s
    let sr = 48000u32;
    let (root, mut src) = Scheduler::new(sr, 1);
    let mut soft = SoftScheduler::new(&root, &mut src, 500_000, VOL_UNIT / 2);
    let music = Source::buffer(vec![1_000i32; 10 * sr as usize], sr, 1);
    let voice = Source::buffer(vec![2_000i32; 5 * sr as usize], sr, 1);
    let r = soft.add(
        &mut src,
        music,
        Some(voice),
        1_000_000,
        Some(1_000_000),
        true,
    );
    assert!(r.is_ok());
    assert_eq!(soft.hard, 15_500_000);
    assert_eq!(soft.soft, 6_000_000);
    // the music lane's queued piece starts at 5 s = 240000 frames
    let main_node = &src.nodes[soft.main.id];
    assert_eq!(main_node.scheduled.len(), 1);
    assert_eq!(main_node.scheduled[0].0, 5 * sr as u64);
    // the voice lane's queued piece starts at the ducked window plus the
    // ramp padding
    let over_node = &src.nodes[soft.over.id];
    assert_eq!(over_node.scheduled.len(), 1);
    assert_eq!(over_node.scheduled[0].0, sr as u64 / 2);
    // the music lane carries the duck and lift ramps
    assert_eq!(main_node.ramps.len(), 4);
}

#[test]
fn soft_scheduler_rejects_unknown_length() {
    let sr = 48000u32;
    let (root, mut src) = Scheduler::new(sr, 1);
    let mut soft = SoftScheduler::new(&root, &mut src, 500_000, VOL_UNIT / 2);
    let endless = Source::sine(sr, 1, 440_000);
    let r = soft.add(&mut src, endless, None, 0, None, false);
    assert_eq!(r, Err(SoftError::UnknownLength));
    // the marks and the lanes are untouched on the error path
    assert_eq!(soft.soft, 0);
    assert_eq!(soft.hard, 0);
    assert_eq!(src.nodes[soft.main.id].scheduled.len(), 0);
    assert_eq!(src.nodes[soft.over.id].scheduled.len(), 0);
}

#[test]
fn soft_scheduler_skips_unfit_voice() {
    // an unforced voice-over longer than the soft window is skipped
    let sr = 48000u32;
    let (root, mut src) = Scheduler::new(sr, 1);
    let mut soft = SoftScheduler::new(&root, &mut src, 500_000, VOL_UNIT / 2);
    let music = Source::buffer(vec![1_000i32; 10 * sr as usize], sr, 1);
    let voice = Source::buffer(vec![2_000i32; 5 * sr as usize], sr, 1);
    let r = soft.add(&mut src, music, Some(voice), 1_000_000, None, false);
    assert!(r.is_ok());
    assert_eq!(soft.hard, 10_500_000);
    let over_node = &src.nodes[soft.over.id];
    assert_eq!(over_node.scheduled.len(), 0, "unfit voice must be skipped");
    assert_eq!(src.nodes[soft.main.id].ramps.len(), 0);
}

#[test]
fn subscheduler_renders_into_parent() {
    let (root, mut src) = Scheduler::new(8000, 1);
    let child = root.subscheduler(&mut src);
    child.add(&mut src, Time::frames(0), Source::buffer(vec![9i32; 100], 8000, 1));
    let out = src.fill(50);
    assert_eq!(out.len(), 50);
    assert!(out.iter().all(|&v| v == 9));
}

#[test]
fn scheduler_seek_is_refused() {
    let (_root, mut src) = Scheduler::new(8000, 1);
    assert!(src.seek(0).is_err());
}

#[test]
fn stale_scheduled_entries_are_dropped() {
    // an entry whose start is already behind the timeline never plays
    let (handle, mut src) = Scheduler::new(8000, 1);
    handle.add(&mut src, Time::frames(0), Source::buffer(vec![5i32; 100], 8000, 1));
    let first = src.fill(200);
    assert_eq!(first.len(), 200);
    // now the offset is 200; an entry at frame 50 is stale
    handle.add(&mut src, Time::frames(50), Source::buffer(vec![7i32; 100], 8000, 1));
    // a timer keeps the node alive so the next window renders
    handle.wait(&mut src, Time::frames(100_000));
    let second = src.fill(200);
    assert_eq!(second.len(), 200);
    assert!(second.iter().all(|&v| v != 7));
}

#[test]
fn manager_accounts_pending_frames() {
    let (mut manager, handle) = Manager::new(8000, 1, 100);
    handle.add(
        &mut manager.source,
        Time::frames(0),
        Source::buffer(vec![3i32; 1000], 8000, 1),
    );
    let chunks = manager.advance(Time::frames(350));
    // 350 owed: three whole buffers rendered, 50 still owed
    assert_eq!(chunks.len(), 3);
    assert_eq!(manager.pending, 50);
    for c in &chunks {
        assert_eq!(c.len(), 100);
        assert!(c.iter().all(|&v| v == 3));
    }
    manager.skip(Time::frames(100));
    assert!(manager.pending <= 100);
}

#[test]
fn manager_next_chunk_reaches_end() {
    let (mut manager, handle) = Manager::new(8000, 1, 100);
    handle.add(
        &mut manager.source,
        Time::frames(0),
        Source::buffer(vec![4i32; 250], 8000, 1),
    );
    let mut produced = 0usize;
    loop {
        let chunk = manager.next_chunk();
        if chunk.is_empty() {
            break;
        }
        produced += chunk.iter().filter(|&&v| v != 0).count();
    }
    assert_eq!(produced, 250);
}

#[test]
fn realtime_pacing_keeps_one_chunk_ahead() {
    let mut rt = sprunk::Realtime::new(());
    assert_eq!(rt.pace(1000, 500), 0);
    // the deadline is 1500; writing again at 1100 sleeps until 1000
    assert_eq!(rt.pace(1100, 500), 0);
    // deadline 2000; at 1200 the sleep is 2000 - 1200 - 500 = 300
    assert_eq!(rt.pace(1200, 500), 300);
}

#[test]
fn soft_scheduler_rejects_out_of_range_plans() {
    // a plan past the supported timeline is refused rather than wrapped
    let sr = 48000u32;
    let (root, mut src) = Scheduler::new(sr, 1);
    let mut soft = SoftScheduler::new(&root, &mut src, 0, VOL_UNIT / 2);
    // drive the soft mark out of range with enormous pre gaps
    let first = Source::buffer(vec![1i32; 2], 1, 1);
    let r = soft.add(&mut src, first, None, 1_000_000_000_000, None, false);
    assert!(matches!(r, Ok(_)));
    let second = Source::buffer(vec![1i32; 2], 1, 1);
    let r2 = soft.add(&mut src, second, None, 1_000_000_000_000, None, false);
    assert_eq!(r2, Err(SoftError::OutOfRange));
}

#[test]
fn timers_get_distinct_rising_identities() {
    // every queued wait gets a fresh identity, so later windows can tell
    // which one fired
    let (handle, mut src) = Scheduler::new(8000, 1);
    let a = handle.wait(&mut src, Time::frames(10));
    let b = handle.wait(&mut src, Time::frames(20));
    let c = handle.wait(&mut src, Time::frames(30));
    assert!(a < b && b < c);
    let fired = src.settle(100);
    assert_eq!(fired, vec![a, b, c]);
}
