use vstd::prelude::*;
use crate::samples::{VOL_MAX, VOL_UNIT};
use crate::scheduler::{Scheduler, SchedulerSource};
use crate::source::Source;
use crate::time::{round_half_even, spec_to_frames, Time, MICROS_PER_SECOND};

verus! {

/// A bound on the timeline values the planner works with: one million
/// seconds of audio, far above any radio programme.
pub const PLAN_LIMIT: i64 = 1_000_000_000_000;

/// Why a placement failed.
#[derive(Clone, Copy, Debug, PartialEq, Eq, Structural)]
pub enum SoftError {
    /// The main piece has no known length, so its end cannot be planned.
    UnknownLength,
    /// The plan ran past the supported timeline bounds.
    OutOfRange,
}

/// Places "main" pieces back to back on a music lane with a voice-over
/// lane on top: each voice-over is ducked into a soft window at the end of
/// the previous piece, stretched when forced, and the music is ramped down
/// and back up around it.
pub struct SoftScheduler {
    /// Ramp length and minimum gap, in microseconds.
    pub padding: i64,
    /// The ducked music gain in millionths.
    pub over_volume: i64,
    /// End of the previous soft window, in microseconds of timeline.
    pub soft: i64,
    /// Earliest start of the next main piece, in microseconds of timeline.
    pub hard: i64,
    /// The music lane.
    pub main: Scheduler,
    /// The voice-over lane.
    pub over: Scheduler,
}

/// The plan a single placement computes, all in microseconds: where the
/// main piece starts and ends, whether and where the voice-over lands, and
/// the next soft and hard marks.
pub ghost struct Plan {
    pub start: int,
    pub end: int,
    pub over_start: Option<int>,
    pub over_amt: int,
    pub soft_end: int,
    pub new_soft: int,
    pub new_hard: int,
}

/// The pure placement rule of the soft scheduler, over microseconds: the
/// piece starts at `hard`; a voice-over of length `over_amt` (its run time
/// plus two paddings) is placed so that it ends `pre` after the start,
/// shifting the start right by the overflow when it does not fit and
/// `force` is set, and is skipped when it does not fit otherwise.
pub open spec fn spec_plan(
    soft: int,
    hard: int,
    padding: int,
    pre: int,
    post: Option<int>,
    main_len: int,
    over_amt: Option<int>,
    force: bool,
) -> Plan {
    let start0 = hard;
    let soft_end0 = start0 + pre;
    let soft_amt = soft_end0 - soft;
    let placed = match over_amt {
        Some(amt) => amt < soft_amt || force,
        None => false,
    };
    let bonus = match over_amt {
        Some(amt) => if placed && amt - soft_amt > 0 {
            amt - soft_amt
        } else {
            0
        },
        None => 0,
    };
    let start = start0 + bonus;
    let soft_end = soft_end0 + bonus;
    let end = start + main_len;
    Plan {
        start: start,
        end: end,
        over_start: if placed {
            Some(soft_end - over_amt.unwrap())
        } else {
            None
        },
        over_amt: (match over_amt {
            Some(a) => a,
            None => 0,
        }),
        soft_end: soft_end,
        new_soft: (match post {
            Some(p) => start + p,
            None => end,
        }),
        new_hard: end + padding,
    }
}

/// A voice-over that fits without force sits inside the soft window: it
/// starts no earlier than the window's left edge and ends exactly at the
/// (unshifted) window's right edge, before the main piece begins.
pub proof fn lemma_unforced_over_contained(
    soft: int,
    hard: int,
    padding: int,
    pre: int,
    post: Option<int>,
    main_len: int,
    amt: int,
    force: bool,
)
    requires
        !force,
        amt < (hard + pre) - soft,
        spec_plan(soft, hard, padding, pre, post, main_len, Some(amt), force).over_start
            is Some,
    ensures
        ({
            let p = spec_plan(soft, hard, padding, pre, post, main_len, Some(amt), force);
            &&& p.over_start.unwrap() > soft
            &&& p.over_start.unwrap() + amt == p.soft_end
            &&& p.start == hard
        }),
{
}

/// Consecutive placements never overlap on the music lane: each plan's
/// start lies at or after the previous hard mark, and the next hard mark
/// lies a padding after the piece's end.
pub proof fn lemma_music_never_overlaps(
    soft: int,
    hard: int,
    padding: int,
    pre: int,
    post: Option<int>,
    main_len: int,
    over_amt: Option<int>,
    force: bool,
)
    requires
        main_len >= 0,
        padding >= 0,
    ensures
        ({
            let p = spec_plan(soft, hard, padding, pre, post, main_len, over_amt, force);
            &&& p.start >= hard
            &&& p.end == p.start + main_len
            &&& p.new_hard == p.end + padding
            &&& p.new_hard >= p.start + main_len
        }),
{
}


/// The microsecond plan one placement computes from the current marks and
/// the opened sources (defined where the main length is known): the
/// scheduler-rate length of the main piece, the voice-over's run time plus
/// both ramps, and the placement rule over them.
pub open spec fn spec_add_plan(
    state: SoftScheduler,
    src: SchedulerSource,
    main_src: Source,
    over_src: Option<Source>,
    pre: i64,
    post: Option<i64>,
    force: bool,
) -> Plan {
    let sr = src.samplerate as int;
    let scaled = crate::source::spec_scale_len(
        main_src.spec_remaining().unwrap(),
        main_src.spec_samplerate() as int,
        sr,
    );
    let main_len = spec_frames_micros(scaled, sr);
    let over_amt = (match over_src {
        Some(o) => match o.spec_remaining() {
            Some(n) => Some(spec_frames_micros(n, o.spec_samplerate() as int) + 2 * state.padding),
            None => None,
        },
        None => None,
    });
    let post_opt = (match post {
        Some(p) => Some(p as int),
        None => None,
    });
    spec_plan(
        state.soft as int,
        state.hard as int,
        state.padding as int,
        pre as int,
        post_opt,
        main_len,
        over_amt,
        force,
    )
}

impl SoftScheduler {
    /// Structural validity: bounded parameters and marks, and lanes inside
    /// the tree.
    pub open spec fn wf(&self, src: SchedulerSource) -> bool {
        &&& 0 <= self.padding <= PLAN_LIMIT
        &&& 0 <= self.over_volume <= VOL_MAX
        &&& 0 <= self.soft <= PLAN_LIMIT
        &&& 0 <= self.hard <= PLAN_LIMIT
        &&& self.main.id < src.nodes.len()
        &&& self.over.id < src.nodes.len()
        &&& self.main.id != self.over.id
        &&& self.main.samplerate == src.samplerate
        &&& self.main.channels == src.channels
        &&& self.over.samplerate == src.samplerate
        &&& self.over.channels == src.channels
        &&& 1 <= src.samplerate <= 1_000_000
    }

    /// Two fresh lanes under the root, with the given ramp padding (in
    /// microseconds) and ducked gain (in millionths).
    pub fn new(root: &Scheduler, src: &mut SchedulerSource, padding: i64, over_volume: i64) -> (s:
        SoftScheduler)
        requires
            old(src).wf(),
            root.id < old(src).nodes.len(),
            root.samplerate == old(src).samplerate,
            root.channels == old(src).channels,
            0 <= padding <= PLAN_LIMIT,
            0 <= over_volume <= VOL_MAX,
            1 <= old(src).samplerate <= 1_000_000,
        ensures
            final(src).wf(),
            final(src).samplerate == old(src).samplerate,
            final(src).channels == old(src).channels,
            final(src).next_timer == old(src).next_timer,
            s.wf(*final(src)),
            s.padding == padding,
            s.over_volume == over_volume,
            s.soft == 0,
            s.hard == 0,
    {
        let main = root.subscheduler(src);
        let over = root.subscheduler(src);
        SoftScheduler { padding, over_volume, soft: 0, hard: 0, main, over }
    }
}


/// The length of `frames` frames at rate `sr`, in microseconds, rounded
/// half to even.
pub open spec fn spec_frames_micros(frames: int, sr: int) -> int {
    round_half_even(frames * (MICROS_PER_SECOND as int), sr)
}

/// A plan value within the supported timeline.
pub open spec fn plan_in_range(p: Plan) -> bool {
    &&& 0 <= p.start <= PLAN_LIMIT
    &&& 0 <= p.end <= PLAN_LIMIT
    &&& 0 <= p.soft_end <= PLAN_LIMIT
    &&& 0 <= p.new_soft <= PLAN_LIMIT
    &&& 0 <= p.new_hard <= PLAN_LIMIT
    &&& (match p.over_start {
        Some(o) => 0 <= o <= PLAN_LIMIT,
        None => true,
    })
}

/// A whole-microsecond time within the planning range converts to a frame
/// index within machine bounds.
proof fn lemma_plan_time_frames(us: int, sr: int)
    requires
        0 <= us <= 16 * PLAN_LIMIT,
        1 <= sr <= 1_000_000,
    ensures
        0 <= spec_to_frames(Time { frames: 0, micros: us as i64 }, sr) <= u64::MAX,
{
    crate::time::lemma_round_div_bound(us * sr, MICROS_PER_SECOND as int);
    let t = Time { frames: 0u64, micros: us as i64 };
    assert(spec_to_frames(t, sr) == round_half_even(us * sr, MICROS_PER_SECOND as int));
    assert(us * sr <= 16 * PLAN_LIMIT * 1_000_000) by (nonlinear_arith)
        requires
            0 <= us <= 16 * PLAN_LIMIT,
            1 <= sr <= 1_000_000,
    ;
}

impl SoftScheduler {
    /// Places one main piece, with an optional voice-over ducked into the
    /// soft window before it.  Returns the timer that fires when the piece
    /// starts.  A main piece of unknown length is rejected; a plan that
    /// leaves the supported timeline (including a forced voice-over that
    /// would start before time zero) is rejected as out of range.
    #[verifier::rlimit(60)]
    pub fn add(
        &mut self,
        src: &mut SchedulerSource,
        main_src: Source,
        over_src: Option<Source>,
        pre: i64,
        post: Option<i64>,
        force: bool,
    ) -> (r: Result<u64, SoftError>)
        requires
            old(self).wf(*old(src)),
            old(src).wf(),
            main_src.wf(),
            main_src.sub_free(),
            1 <= main_src.spec_samplerate() <= 1_000_000,
            main_src.spec_channels() >= 1,
            (match over_src {
                Some(o) => o.wf() && o.sub_free() && 1 <= o.spec_samplerate() <= 1_000_000
                    && o.spec_channels() >= 1,
                None => true,
            }),
            0 <= pre <= PLAN_LIMIT,
            (match post {
                Some(p) => 0 <= p <= PLAN_LIMIT,
                None => true,
            }),
            old(src).next_timer < u64::MAX,
        ensures
            final(src).wf(),
            final(src).samplerate == old(src).samplerate,
            final(src).channels == old(src).channels,
            final(self).wf(*final(src)),
            final(self).padding == old(self).padding,
            final(self).over_volume == old(self).over_volume,
            final(self).main == old(self).main,
            final(self).over == old(self).over,
            main_src.spec_remaining() is None <==> r == Err::<u64, SoftError>(SoftError::UnknownLength),
            r is Err ==> *final(src) == *old(src) && final(self).soft == old(self).soft
                && final(self).hard == old(self).hard,
            main_src.spec_remaining() is Some ==> (r is Ok <==> plan_in_range(
                spec_add_plan(*old(self), *old(src), main_src, over_src, pre, post, force),
            )),
            r is Ok ==> ({
                let p = spec_add_plan(*old(self), *old(src), main_src, over_src, pre, post, force);
                let sr = old(src).samplerate as int;
                let scaled = crate::source::spec_scale_len(
                    main_src.spec_remaining().unwrap(),
                    main_src.spec_samplerate() as int,
                    sr,
                );
                let startf = spec_to_frames(
                    Time { frames: 0u64, micros: p.start as i64 },
                    sr,
                ) as u64;
                let mid = old(self).main.id as int;
                let oid = old(self).over.id as int;
                &&& plan_in_range(p)
                &&& final(self).soft == p.new_soft
                &&& final(self).hard == p.new_hard
                &&& r == Ok::<u64, SoftError>(old(src).next_timer)
                &&& final(src).next_timer == old(src).next_timer + 1
                &&& final(src).nodes[mid].timers@ == old(src).nodes[mid].timers@.push(
                    (startf, old(src).next_timer),
                )
                &&& final(src).nodes[mid].scheduled.len() == old(src).nodes[
                    mid
                ].scheduled.len() + 1
                &&& final(src).nodes[mid].scheduled@.last().0 == startf
                &&& final(src).nodes[mid].scheduled@.last().1.spec_remaining() == Some(scaled)
                &&& final(src).nodes[mid].ramps@.len() == old(src).nodes[mid].ramps@.len() + (
                if p.over_start is Some {
                    4int
                } else {
                    0int
                })
                &&& (p.over_start is Some ==> exists|
                    m1: SchedulerSource,
                    e1: Time,
                    m2: SchedulerSource,
                    e2: Time,
                |
                    #![trigger crate::scheduler::set_volume_post(
                        *old(src),
                        m1,
                        mid,
                        Time { frames: 0u64, micros: p.over_start.unwrap() as i64 },
                        old(self).over_volume,
                        Time { frames: 0u64, micros: old(self).padding },
                        e1,
                    ), crate::scheduler::set_volume_post(
                        m1,
                        m2,
                        mid,
                        Time { frames: 0u64, micros: (p.soft_end - old(self).padding) as i64 },
                        VOL_UNIT,
                        Time { frames: 0u64, micros: old(self).padding },
                        e2,
                    )]
                    {
                        &&& crate::scheduler::set_volume_post(
                            *old(src),
                            m1,
                            mid,
                            Time { frames: 0u64, micros: p.over_start.unwrap() as i64 },
                            old(self).over_volume,
                            Time { frames: 0u64, micros: old(self).padding },
                            e1,
                        )
                        &&& crate::scheduler::set_volume_post(
                            m1,
                            m2,
                            mid,
                            Time { frames: 0u64, micros: (p.soft_end - old(
                                self,
                            ).padding) as i64 },
                            VOL_UNIT,
                            Time { frames: 0u64, micros: old(self).padding },
                            e2,
                        )
                        &&& final(src).nodes[mid].ramps@ == m2.nodes[mid].ramps@
                    })
                &&& (p.over_start is Some ==> final(src).nodes[oid].scheduled.len() == old(
                    src,
                ).nodes[oid].scheduled.len() + 1 && final(src).nodes[oid].scheduled@.last().0
                    == spec_to_frames(
                    Time { frames: 0u64, micros: (p.over_start.unwrap() + old(
                        self,
                    ).padding) as i64 },
                    sr,
                ) as u64)
                &&& (p.over_start is None ==> final(src).nodes[oid].scheduled == old(
                    src,
                ).nodes[oid].scheduled)
            }),
    {
        let sr = src.samplerate;
        let padding = self.padding;

        // the main piece must have a known length
        let main_rate = main_src.samplerate();
        let main_len_frames = match main_src.len() {
            Some(n) => crate::source::scale_len(n, main_rate, sr),
            None => {
                return Err(SoftError::UnknownLength);
            },
        };
        let main_len_us: i128 = Time::frames(main_len_frames).to_micros(sr);

        // the voice-over's run time plus both ramps, where known
        let over_amt_us: Option<i128> = match &over_src {
            Some(o) => {
                match o.len() {
                    Some(n) => Some(
                        Time::frames(n).to_micros(o.samplerate()) + 2 * padding as i128,
                    ),
                    None => None,
                }
            },
            None => None,
        };

        // the microsecond plan
        let start0: i128 = self.hard as i128;
        let soft_end0: i128 = start0 + pre as i128;
        let soft_amt: i128 = soft_end0 - self.soft as i128;
        let placed: bool = match over_amt_us {
            Some(amt) => amt < soft_amt || force,
            None => false,
        };
        let bonus: i128 = match over_amt_us {
            Some(amt) => {
                if placed && amt - soft_amt > 0 {
                    amt - soft_amt
                } else {
                    0
                }
            },
            None => 0,
        };
        let start: i128 = start0 + bonus;
        let soft_end: i128 = soft_end0 + bonus;
        let end: i128 = start + main_len_us;
        let new_soft: i128 = match post {
            Some(p) => start + p as i128,
            None => end,
        };
        let new_hard: i128 = end + padding as i128;

        // the whole plan must fit the supported timeline
        if end > PLAN_LIMIT as i128 || new_soft > PLAN_LIMIT as i128 || new_hard
            > PLAN_LIMIT as i128 || soft_end > PLAN_LIMIT as i128 || start
            > PLAN_LIMIT as i128 {
            return Err(SoftError::OutOfRange);
        }
        let ghost mut g_m1 = *src;
        let ghost mut g_m2 = *src;
        let ghost mut g_e1 = Time { frames: 0u64, micros: 0i64 };
        let ghost mut g_e2 = Time { frames: 0u64, micros: 0i64 };
        if placed {
            let amt = match over_amt_us {
                Some(a) => a,
                None => 0,
            };
            let over_start: i128 = soft_end - amt;
            if over_start < 0 {
                return Err(SoftError::OutOfRange);
            }
            proof {
                lemma_plan_time_frames(over_start as int, sr as int);
                lemma_plan_time_frames(over_start as int + padding as int, sr as int);
                lemma_plan_time_frames(over_start as int + 5000, sr as int);
                lemma_plan_time_frames((soft_end - padding as int) as int, sr as int);
                lemma_plan_time_frames(
                    (soft_end - padding as int) as int + padding as int,
                    sr as int,
                );
                lemma_plan_time_frames(
                    (soft_end - padding as int) as int + 5000,
                    sr as int,
                );
            }
            let duck = self.main.set_volume(
                src,
                Time::micros(over_start as i64),
                self.over_volume,
                Time::micros(padding),
            );
            proof {
                g_m1 = *src;
                g_e1 = duck;
                assert(src.nodes[self.main.id as int].ramps@.len() == old(src).nodes[
                    self.main.id as int
                ].ramps@.len() + 2);
            }
            let lift = self.main.set_volume(
                src,
                Time::micros((soft_end - padding as i128) as i64),
                VOL_UNIT,
                Time::micros(padding),
            );
            proof {
                g_m2 = *src;
                g_e2 = lift;
                assert(src.nodes[self.main.id as int].ramps@.len() == old(src).nodes[
                    self.main.id as int
                ].ramps@.len() + 4);
            }
            if let Some(o) = over_src {
                proof {
                    lemma_plan_time_frames(over_start as int + padding as int, sr as int);
                }
                let queued = self.over.add(
                    src,
                    Time::micros((over_start + padding as i128) as i64),
                    o,
                );
                proof {
                    assert(src.nodes[self.main.id as int].ramps@.len() == old(src).nodes[
                        self.main.id as int
                    ].ramps@.len() + 4);
                }
            }
        }

        // the main piece itself
        proof {
            lemma_plan_time_frames(start as int, sr as int);
        }
        let ghost src_before_main = *src;
        let queued_end = self.main.add(src, Time::micros(start as i64), main_src);

        // the timer the caller resumes on, at the audible transition
        let ghost src_before_wait = *src;
        let timer = self.main.wait(src, Time::micros(start as i64));
        let ghost start_frame_g = spec_to_frames(
            Time { frames: 0u64, micros: start as i64 },
            old(src).samplerate as int,
        ) as u64;

        self.soft = new_soft as i64;
        self.hard = new_hard as i64;
        proof {
            let p = spec_add_plan(*old(self), *old(src), main_src, over_src, pre, post, force);
            let mid = old(self).main.id as int;
            let oid = old(self).over.id as int;
            assert(p.start == start as int);
            assert(p.new_soft == new_soft as int);
            assert(p.new_hard == new_hard as int);
            assert(p.over_start is Some <==> placed);
            assert(src_before_wait.nodes[mid].scheduled@.last()
                == src.nodes[mid].scheduled@.last());
            assert(src.nodes[mid].scheduled@.last().1.spec_remaining() == Some(
                crate::source::spec_scale_len(
                    main_src.spec_remaining().unwrap(),
                    main_src.spec_samplerate() as int,
                    old(src).samplerate as int,
                ),
            ));
            assert(src.nodes[mid].ramps@.len() == old(src).nodes[mid].ramps@.len() + (
            if placed {
                4int
            } else {
                0int
            }));
            if placed {
                assert(src.nodes[oid].scheduled.len() == old(src).nodes[oid].scheduled.len()
                    + 1);
            } else {
                assert(src.nodes[oid].scheduled == old(src).nodes[oid].scheduled);
            }
            assert(src.nodes[mid].timers@ == old(src).nodes[mid].timers@.push(
                (start_frame_g, old(src).next_timer),
            ));
            if placed {
                assert(p.over_start.unwrap() == soft_end as int - p.over_amt);
                assert(crate::scheduler::set_volume_post(
                    *old(src),
                    g_m1,
                    mid,
                    Time { frames: 0u64, micros: p.over_start.unwrap() as i64 },
                    old(self).over_volume,
                    Time { frames: 0u64, micros: old(self).padding },
                    g_e1,
                ));
                assert(crate::scheduler::set_volume_post(
                    g_m1,
                    g_m2,
                    mid,
                    Time { frames: 0u64, micros: (p.soft_end - old(self).padding) as i64 },
                    VOL_UNIT,
                    Time { frames: 0u64, micros: old(self).padding },
                    g_e2,
                ));
                assert(src.nodes[mid].ramps@ == g_m2.nodes[mid].ramps@);
            }
        }
        Ok(timer)
    }
}

} // verus!
