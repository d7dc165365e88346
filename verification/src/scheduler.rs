use vstd::prelude::*;
use crate::samples::{div_trunc, mix_add, apply_gain, VOL_MAX, VOL_UNIT};
use crate::source::{Source, SourceError, MAX_FILL, MAX_FRAMES};
use crate::time::{spec_to_frames, Time};

verus! {

/// One mixing node on the shared timeline: its own frame counter, pending
/// timers, scheduled and active sources, and a piecewise-linear gain
/// envelope.
pub struct Node {
    /// Output frames rendered so far.
    pub offset: u64,
    /// One-shot timers: `(frame, timer id)`, fired when a render window
    /// reaches the frame.
    pub timers: Vec<(u64, u64)>,
    /// Sources awaiting activation: `(start frame, source)`.
    pub scheduled: Vec<(u64, Source)>,
    /// Sources currently playing; a `Sub` entry is a child node.
    pub active: Vec<Source>,
    /// The gain in force at the left edge of the envelope, in millionths.
    pub volume: i64,
    /// Ramp points `(frame, target gain)`, sorted by frame.
    pub ramps: Vec<(u64, i64)>,
}

/// The mixer: a tree of nodes rooted at node 0, rendered bottom-up into
/// one interleaved output stream.
pub struct SchedulerSource {
    pub nodes: Vec<Node>,
    pub samplerate: u32,
    pub channels: u16,
    /// The next timer id to hand out.
    pub next_timer: u64,
}

/// A handle onto one node of a `SchedulerSource`, used by the program
/// director to schedule sources, ramps and timers.
#[derive(Clone, Copy, Debug, PartialEq, Eq, Structural)]
pub struct Scheduler {
    pub id: usize,
    pub samplerate: u32,
    pub channels: u16,
}

/// A ramp list is sorted by frame with all gains in range.
pub open spec fn ramps_wf(ramps: Seq<(u64, i64)>) -> bool {
    &&& forall|a: int, b: int|
        0 <= a <= b < ramps.len() ==> (#[trigger] ramps[a]).0 <= (#[trigger] ramps[b]).0
    &&& forall|a: int| 0 <= a < ramps.len() ==> 0 <= (#[trigger] ramps[a]).1 <= VOL_MAX
}

/// A source a node may hold: either a strictly deeper child reference or a
/// self-contained chain in the node's format.
pub open spec fn entry_wf(s: Source, i: int, len: int, sr: u32, ch: u16) -> bool {
    match s {
        Source::Sub(j) => i < j < len,
        _ => {
            &&& s.wf()
            &&& s.sub_free()
            &&& s.spec_samplerate() == sr
            &&& s.spec_channels() == ch
        },
    }
}

/// Structural validity of one node within the tree.
pub open spec fn node_wf(n: Node, i: int, len: int, sr: u32, ch: u16) -> bool {
    &&& 0 <= n.volume <= VOL_MAX
    &&& ramps_wf(n.ramps@)
    &&& forall|k: int|
        0 <= k < n.scheduled.len() ==> {
            &&& (#[trigger] n.scheduled[k]).1.wf()
            &&& n.scheduled[k].1.sub_free()
            &&& n.scheduled[k].1.spec_samplerate() == sr
            &&& n.scheduled[k].1.spec_channels() == ch
        }
    &&& forall|k: int|
        0 <= k < n.active.len() ==> entry_wf(#[trigger] n.active[k], i, len, sr, ch)
}

impl SchedulerSource {
    /// Structural validity of the whole tree.
    pub open spec fn wf(&self) -> bool {
        &&& self.samplerate >= 1
        &&& self.channels >= 1
        &&& self.nodes.len() >= 1
        &&& forall|i: int|
            0 <= i < self.nodes.len() ==> node_wf(
                #[trigger] self.nodes[i],
                i,
                self.nodes.len() as int,
                self.samplerate,
                self.channels,
            )
    }
}

/// An empty node starting at the given frame with unit gain.
fn empty_node(offset: u64) -> (n: Node)
    ensures
        n.offset == offset,
        n.timers.len() == 0,
        n.scheduled.len() == 0,
        n.active.len() == 0,
        n.volume == VOL_UNIT,
        n.ramps.len() == 0,
{
    Node {
        offset,
        timers: Vec::new(),
        scheduled: Vec::new(),
        active: Vec::new(),
        volume: VOL_UNIT,
        ramps: Vec::new(),
    }
}

/// Replaces element `i` of a vector, returning the previous value and
/// leaving every other element in place.
fn vec_replace<T>(v: &mut Vec<T>, i: usize, x: T) -> (prev: T)
    requires
        i < old(v).len(),
    ensures
        final(v)@ =~= old(v)@.update(i as int, x),
        prev == old(v)@[i as int],
{
    v.push(x);
    let prev = v.swap_remove(i);
    proof {
        assert(v@ =~= old(v)@.update(i as int, x));
    }
    prev
}

impl Scheduler {
    /// A fresh mixer at the given format, with the handle onto its root
    /// node.
    pub fn new(samplerate: u32, channels: u16) -> (pair: (Scheduler, SchedulerSource))
        requires
            samplerate >= 1,
            channels >= 1,
        ensures
            pair.1.wf(),
            pair.1.samplerate == samplerate,
            pair.1.channels == channels,
            pair.1.nodes.len() == 1,
            pair.1.nodes[0].offset == 0,
            pair.1.nodes[0].timers.len() == 0,
            pair.1.nodes[0].scheduled.len() == 0,
            pair.1.nodes[0].active.len() == 0,
            pair.1.nodes[0].volume == VOL_UNIT,
            pair.1.nodes[0].ramps.len() == 0,
            pair.1.next_timer == 0,
            pair.0.id == 0,
            pair.0.samplerate == samplerate,
            pair.0.channels == channels,
    {
        let mut nodes: Vec<Node> = Vec::new();
        nodes.push(empty_node(0));
        let src = SchedulerSource { nodes, samplerate, channels, next_timer: 0 };
        let handle = Scheduler { id: 0, samplerate, channels };
        (handle, src)
    }

    /// Allocates a child node at this node's current offset and pushes its
    /// output into this node's active list, returning the child handle.
    pub fn subscheduler(&self, src: &mut SchedulerSource) -> (child: Scheduler)
        requires
            old(src).wf(),
            self.id < old(src).nodes.len(),
            self.samplerate == old(src).samplerate,
            self.channels == old(src).channels,
        ensures
            final(src).wf(),
            final(src).samplerate == old(src).samplerate,
            final(src).channels == old(src).channels,
            final(src).next_timer == old(src).next_timer,
            final(src).nodes.len() == old(src).nodes.len() + 1,
            child.id == old(src).nodes.len(),
            child.samplerate == self.samplerate,
            child.channels == self.channels,
            final(src).nodes[child.id as int].offset == old(src).nodes[self.id as int].offset,
            final(src).nodes[child.id as int].active.len() == 0,
            final(src).nodes[child.id as int].scheduled.len() == 0,
            final(src).nodes[child.id as int].timers.len() == 0,
            final(src).nodes[self.id as int].active@ == old(src).nodes[self.id as int].active@.push(
                Source::Sub(child.id),
            ),
            forall|j: int|
                0 <= j < old(src).nodes.len() && j != self.id ==> final(src).nodes[j] == old(
                    src,
                ).nodes[j],
    {
        let child_id = src.nodes.len();
        let offset = src.nodes[self.id].offset;
        src.nodes.push(empty_node(offset));
        let mut parent = vec_replace(&mut src.nodes, self.id, empty_node(0));
        parent.active.push(Source::Sub(child_id));
        let replaced = vec_replace(&mut src.nodes, self.id, parent);
        proof {
            assert forall|i: int| 0 <= i < src.nodes.len() implies node_wf(
                #[trigger] src.nodes[i],
                i,
                src.nodes.len() as int,
                src.samplerate,
                src.channels,
            ) by {
                if i != self.id && i < old(src).nodes.len() {
                    assert(src.nodes[i] == old(src).nodes[i]);
                    assert(node_wf(
                        old(src).nodes[i],
                        i,
                        old(src).nodes.len() as int,
                        old(src).samplerate,
                        old(src).channels,
                    ));
                    assert forall|k: int|
                        0 <= k < src.nodes[i].active.len() implies entry_wf(
                        #[trigger] src.nodes[i].active[k],
                        i,
                        src.nodes.len() as int,
                        src.samplerate,
                        src.channels,
                    ) by {
                        assert(entry_wf(
                            old(src).nodes[i].active[k],
                            i,
                            old(src).nodes.len() as int,
                            old(src).samplerate,
                            old(src).channels,
                        ));
                    }
                }
            }
        }
        Scheduler { id: child_id, samplerate: self.samplerate, channels: self.channels }
    }

    /// Registers a one-shot timer at `time` on this node and returns its
    /// id; the timer fires when a render window crosses the frame.
    pub fn wait(&self, src: &mut SchedulerSource, time: Time) -> (timer: u64)
        requires
            old(src).wf(),
            self.id < old(src).nodes.len(),
            self.samplerate == old(src).samplerate,
            old(src).samplerate >= 1,
            0 <= spec_to_frames(time, old(src).samplerate as int) <= u64::MAX,
            old(src).next_timer < u64::MAX,
        ensures
            final(src).wf(),
            final(src).samplerate == old(src).samplerate,
            final(src).channels == old(src).channels,
            final(src).nodes.len() == old(src).nodes.len(),
            timer == old(src).next_timer,
            final(src).next_timer == old(src).next_timer + 1,
            final(src).nodes[self.id as int].timers@ == old(src).nodes[self.id as int].timers@.push(
                (spec_to_frames(time, old(src).samplerate as int) as u64, timer),
            ),
            final(src).nodes[self.id as int].offset == old(src).nodes[self.id as int].offset,
            final(src).nodes[self.id as int].active == old(src).nodes[self.id as int].active,
            final(src).nodes[self.id as int].scheduled == old(src).nodes[self.id as int].scheduled,
            final(src).nodes[self.id as int].ramps == old(src).nodes[self.id as int].ramps,
            final(src).nodes[self.id as int].volume == old(src).nodes[self.id as int].volume,
            forall|j: int|
                0 <= j < old(src).nodes.len() && j != self.id ==> final(src).nodes[j] == old(
                    src,
                ).nodes[j],
    {
        let frame = time.to_frames(src.samplerate);
        let timer = src.next_timer;
        src.next_timer = timer + 1;
        let mut node = vec_replace(&mut src.nodes, self.id, empty_node(0));
        node.timers.push((frame, timer));
        let replaced = vec_replace(&mut src.nodes, self.id, node);
        proof {
            lemma_tree_update_wf(*old(src), *src, self.id as int);
        }
        timer
    }
}

/// Updating one node in place preserves tree validity whenever the new
/// node is itself valid at its position: all other nodes keep their
/// position, count and format.
proof fn lemma_tree_update_wf(pre: SchedulerSource, post: SchedulerSource, id: int)
    requires
        pre.wf(),
        post.nodes.len() == pre.nodes.len(),
        post.samplerate == pre.samplerate,
        post.channels == pre.channels,
        0 <= id < pre.nodes.len(),
        forall|j: int| 0 <= j < pre.nodes.len() && j != id ==> post.nodes[j] == pre.nodes[j],
        node_wf(post.nodes[id], id, post.nodes.len() as int, post.samplerate, post.channels),
    ensures
        post.wf(),
{
    assert forall|i: int| 0 <= i < post.nodes.len() implies node_wf(
        #[trigger] post.nodes[i],
        i,
        post.nodes.len() as int,
        post.samplerate,
        post.channels,
    ) by {
        if i != id {
            assert(post.nodes[i] == pre.nodes[i]);
            assert(node_wf(pre.nodes[i], i, pre.nodes.len() as int, pre.samplerate, pre.channels));
        }
    }
}


/// The end of a render window starting at `offset`, saturating at the
/// frame counter's limit.
pub open spec fn window_end(offset: int, frames: int) -> int {
    if offset + frames > u64::MAX {
        u64::MAX as int
    } else {
        offset + frames
    }
}

/// The gain the envelope applies at frame `f`, walking the ramp list from
/// a running value `volume` anchored at `pos0`: ramps at or before the
/// anchor replace the running value (a discontinuity), a later ramp `(t,
/// v)` is approached linearly over `[pos0, t]`, and once reached it
/// becomes the new anchor.
pub open spec fn spec_env_gain(ramps: Seq<(u64, i64)>, volume: int, pos0: int, f: int) -> int
    decreases ramps.len(),
{
    if ramps.len() == 0 {
        volume
    } else {
        let t = ramps[0].0 as int;
        let v = ramps[0].1 as int;
        if t < pos0 {
            spec_env_gain(ramps.skip(1), volume, pos0, f)
        } else if t <= f {
            spec_env_gain(ramps.skip(1), v, t, f)
        } else {
            volume + div_trunc((v - volume) * (f - pos0), t - pos0)
        }
    }
}

/// The envelope passes exactly through a ramp's target at the ramp's
/// frame: at the frame of the last ramp point not later than `f`, the
/// applied gain equals that point's target.  After two calls
/// `set_volume(t0, v0, d0)` and `set_volume(t1, v1, d1)` with
/// `t1 >= t0 + d0`, the gain is therefore exactly `v0` at `t0 + d0` and
/// exactly `v1` at `t1 + d1`.
pub proof fn lemma_env_gain_hits_target(ramps: Seq<(u64, i64)>, volume: int, pos0: int, k: int)
    requires
        ramps_wf(ramps),
        0 <= k < ramps.len(),
        pos0 <= ramps[k].0,
        forall|j: int| k < j < ramps.len() ==> (#[trigger] ramps[j]).0 > ramps[k].0,
    ensures
        spec_env_gain(ramps, volume, pos0, ramps[k].0 as int) == ramps[k].1,
    decreases ramps.len(),
{
    let f = ramps[k].0 as int;
    let t = ramps[0].0 as int;
    let v = ramps[0].1 as int;
    assert(t <= f);
    if k == 0 {
        if t < pos0 {
            assert(false);
        } else {
            lemma_env_gain_settled(ramps.skip(1), v, t, f);
        }
    } else {
        assert(ramps.skip(1)[k - 1] == ramps[k]);
        assert(forall|j: int|
            k - 1 < j < ramps.skip(1).len() ==> (#[trigger] ramps.skip(1)[j]).0 > ramps.skip(
                1,
            )[k - 1].0);
        if t < pos0 {
            lemma_env_gain_hits_target(ramps.skip(1), volume, pos0, k - 1);
        } else {
            lemma_env_gain_hits_target(ramps.skip(1), v, t, k - 1);
        }
    }
}


/// A gain ramp reaches its target exactly: when `set_volume` appends its
/// two points past every existing ramp frame, the envelope at the ramp's
/// end frame is exactly the target gain, whatever the running gain and
/// anchor were.  Two such calls with the second past the first therefore
/// render `v0` at `t0 + d0` and `v1` at `t1 + d1`.
pub proof fn lemma_set_volume_reaches_target(
    r0: Seq<(u64, i64)>,
    r1: Seq<(u64, i64)>,
    r2: Seq<(u64, i64)>,
    startf: u64,
    endf: u64,
    g0: i64,
    target: i64,
    volume: int,
    pos0: int,
)
    requires
        ramps_wf(r0),
        forall|k: int| 0 <= k < r0.len() ==> (#[trigger] r0[k]).0 <= startf,
        startf <= endf,
        ramp_inserted(r0, startf, g0, r1),
        ramp_inserted(r1, endf, target, r2),
        pos0 <= endf,
        0 <= g0 <= crate::samples::VOL_MAX,
        0 <= target <= crate::samples::VOL_MAX,
    ensures
        spec_env_gain(r2, volume, pos0, endf as int) == target,
{
    let i1 = choose|idx: int|
        {
            &&& 0 <= idx <= r0.len()
            &&& (forall|k: int| 0 <= k < idx ==> (#[trigger] r0[k]).0 <= startf)
            &&& (forall|k: int| idx <= k < r0.len() ==> (#[trigger] r0[k]).0 > startf)
            &&& r1 == r0.insert(idx, (startf, g0))
        };
    assert(i1 == r0.len()) by {
        if i1 < r0.len() {
            assert(r0[i1].0 > startf);
            assert(r0[i1].0 <= startf);
        }
    }
    assert(r1 =~= r0.push((startf, g0)));
    assert(forall|k: int| 0 <= k < r1.len() ==> (#[trigger] r1[k]).0 <= endf);
    let i2 = choose|idx: int|
        {
            &&& 0 <= idx <= r1.len()
            &&& (forall|k: int| 0 <= k < idx ==> (#[trigger] r1[k]).0 <= endf)
            &&& (forall|k: int| idx <= k < r1.len() ==> (#[trigger] r1[k]).0 > endf)
            &&& r2 == r1.insert(idx, (endf, target))
        };
    assert(i2 == r1.len()) by {
        if i2 < r1.len() {
            assert(r1[i2].0 > endf);
            assert(r1[i2].0 <= endf);
        }
    }
    assert(r2 =~= r1.push((endf, target)));
    assert(r2.last() == (endf, target));
    assert(ramps_wf(r2)) by {
        assert forall|a: int, b: int| 0 <= a <= b < r2.len() implies (#[trigger] r2[a]).0
            <= (#[trigger] r2[b]).0 by {
            if b < r0.len() {
            } else if b == r0.len() {
                if a < r0.len() {
                    assert(r2[a] == r0[a]);
                }
            } else {
                if a < r0.len() {
                    assert(r2[a] == r0[a]);
                }
            }
        }
        assert forall|a: int| 0 <= a < r2.len() implies 0 <= (#[trigger] r2[a]).1
            <= crate::samples::VOL_MAX by {
            if a < r0.len() {
                assert(r2[a] == r0[a]);
            }
        }
    }
    lemma_env_gain_hits_target(r2, volume, pos0, r2.len() - 1);
}


/// An insertion whose frame is at or past every existing point is an
/// append.
proof fn lemma_insert_appends(
    pre: Seq<(u64, i64)>,
    frame: u64,
    value: i64,
    post: Seq<(u64, i64)>,
)
    requires
        ramp_inserted(pre, frame, value, post),
        forall|k: int| 0 <= k < pre.len() ==> (#[trigger] pre[k]).0 <= frame,
    ensures
        post =~= pre.push((frame, value)),
{
    let idx = choose|idx: int|
        {
            &&& 0 <= idx <= pre.len()
            &&& (forall|k: int| 0 <= k < idx ==> (#[trigger] pre[k]).0 <= frame)
            &&& (forall|k: int| idx <= k < pre.len() ==> (#[trigger] pre[k]).0 > frame)
            &&& post == pre.insert(idx, (frame, value))
        };
    assert(idx == pre.len()) by {
        if idx < pre.len() {
            assert(pre[idx].0 > frame);
            assert(pre[idx].0 <= frame);
        }
    }
}

/// Two ramps in order reach both their targets: after `set_volume(t0, v0,
/// d0)` and `set_volume(t1, v1, d1)` on a node whose existing points all
/// lie at or before `t0`, with `t0 + d0 < t1`, the envelope is exactly
/// `v0` at the first ramp's end and exactly `v1` at the second's,
/// whatever the running gain and anchor — the second call does not
/// disturb the first target.
pub proof fn lemma_two_ramps_reach_targets(
    r0: Seq<(u64, i64)>,
    r1: Seq<(u64, i64)>,
    r2: Seq<(u64, i64)>,
    r3: Seq<(u64, i64)>,
    r4: Seq<(u64, i64)>,
    s0: u64,
    e0: u64,
    s1: u64,
    e1: u64,
    g0: i64,
    v0: i64,
    g1: i64,
    v1: i64,
    volume: int,
    pos0: int,
)
    requires
        ramps_wf(r0),
        forall|k: int| 0 <= k < r0.len() ==> (#[trigger] r0[k]).0 <= s0,
        s0 <= e0,
        e0 < s1,
        s1 <= e1,
        ramp_inserted(r0, s0, g0, r1),
        ramp_inserted(r1, e0, v0, r2),
        ramp_inserted(r2, s1, g1, r3),
        ramp_inserted(r3, e1, v1, r4),
        pos0 <= e0,
        0 <= g0 <= crate::samples::VOL_MAX,
        0 <= v0 <= crate::samples::VOL_MAX,
        0 <= g1 <= crate::samples::VOL_MAX,
        0 <= v1 <= crate::samples::VOL_MAX,
    ensures
        spec_env_gain(r4, volume, pos0, e0 as int) == v0,
        spec_env_gain(r4, volume, pos0, e1 as int) == v1,
{
    lemma_insert_appends(r0, s0, g0, r1);
    lemma_insert_appends(r1, e0, v0, r2);
    lemma_insert_appends(r2, s1, g1, r3);
    lemma_insert_appends(r3, e1, v1, r4);
    assert(r4 =~= r0.push((s0, g0)).push((e0, v0)).push((s1, g1)).push((e1, v1)));
    assert forall|a: int, b: int| 0 <= a <= b < r4.len() implies (#[trigger] r4[a]).0
        <= (#[trigger] r4[b]).0 by {
        if a < r0.len() {
            assert(r4[a] == r0[a]);
        }
        if b < r0.len() {
            assert(r4[b] == r0[b]);
        }
    }
    assert forall|a: int| 0 <= a < r4.len() implies 0 <= (#[trigger] r4[a]).1
        <= crate::samples::VOL_MAX by {
        if a < r0.len() {
            assert(r4[a] == r0[a]);
        }
    }
    assert(ramps_wf(r4));
    let k0 = r0.len() as int + 1;
    assert(r4[k0] == (e0, v0));
    assert forall|j: int| k0 < j < r4.len() implies (#[trigger] r4[j]).0 > e0 by {
        assert(j == k0 + 1 || j == k0 + 2);
    }
    lemma_env_gain_hits_target(r4, volume, pos0, k0);
    assert(r4.last() == (e1, v1));
    lemma_env_gain_hits_target(r4, volume, pos0, r4.len() - 1);
}

/// When every remaining ramp lies strictly after `f`, the gain at `f` is
/// the running value itself (the anchor sits at `f`).
proof fn lemma_env_gain_settled(ramps: Seq<(u64, i64)>, volume: int, pos0: int, f: int)
    requires
        pos0 == f,
        forall|j: int| 0 <= j < ramps.len() ==> (#[trigger] ramps[j]).0 > f,
    ensures
        spec_env_gain(ramps, volume, pos0, f) == volume,
    decreases ramps.len(),
{
    if ramps.len() > 0 {
        let t = ramps[0].0 as int;
        let v = ramps[0].1 as int;
        assert(t > f);
        assert((v - volume) * (f - pos0) == 0) by (nonlinear_arith)
            requires
                f - pos0 == 0,
        ;
        assert(div_trunc(0, t - pos0) == 0);
    }
}

/// An interpolated gain between two in-range gains stays in range.
proof fn lemma_interp_in_range(a: int, b: int, x: int, d: int)
    requires
        0 <= a <= VOL_MAX,
        0 <= b <= VOL_MAX,
        0 <= x <= d,
        d > 0,
    ensures
        0 <= a + div_trunc((b - a) * x, d) <= VOL_MAX,
{
    let p = (b - a) * x;
    if b >= a {
        assert(0 <= p <= (b - a) * d) by (nonlinear_arith)
            requires
                p == (b - a) * x,
                b >= a,
                0 <= x <= d,
        ;
        assert(0 <= p / d && p / d <= b - a) by (nonlinear_arith)
            requires
                d > 0,
                0 <= p,
                p <= (b - a) * d,
        ;
        assert(div_trunc(p, d) == p / d);
    } else {
        assert(0 <= -p <= (a - b) * d) by (nonlinear_arith)
            requires
                p == (b - a) * x,
                b < a,
                0 <= x <= d,
        ;
        assert(0 <= (-p) / d && (-p) / d <= a - b) by (nonlinear_arith)
            requires
                d > 0,
                0 <= -p,
                -p <= (a - b) * d,
        ;
        assert(div_trunc(p, d) == -((-p) / d));
    }
}

/// Computes the envelope gain at absolute frame `f` for the segment
/// `(volume @ pos0) -> (v @ t)`.
fn interp_gain(volume: i64, v: i64, pos0: u64, t: u64, f: u64) -> (g: i64)
    requires
        0 <= volume <= VOL_MAX,
        0 <= v <= VOL_MAX,
        pos0 <= f <= t,
        pos0 < t,
    ensures
        g == volume + div_trunc((v - volume) * (f - pos0), t - pos0),
        0 <= g <= VOL_MAX,
{
    proof {
        lemma_interp_in_range(volume as int, v as int, (f - pos0) as int, (t - pos0) as int);
        assert(-0x1_0000_0000_0000_0000_0000_0000_0000 <= (v - volume) * ((f - pos0) as int)
            <= 0x1_0000_0000_0000_0000_0000_0000_0000) by (nonlinear_arith)
            requires
                -VOL_MAX <= v - volume <= VOL_MAX,
                0 <= (f - pos0) as int <= 0xffff_ffff_ffff_ffff,
        ;
    }
    let num: i128 = (v as i128 - volume as i128) * (f as i128 - pos0 as i128);
    let den: i128 = t as i128 - pos0 as i128;
    let q: i128 = if num >= 0 {
        num / den
    } else {
        -((-num) / den)
    };
    (volume as i128 + q) as i64
}

impl SchedulerSource {
    /// Fires every timer that the coming window of `frames` frames will
    /// cross: due timers are removed from their nodes and their ids
    /// returned, so that the caller can resume the tasks waiting on them
    /// before the window is rendered.
    pub fn settle(&mut self, frames: usize) -> (fired: Vec<u64>)
        requires
            old(self).wf(),
        ensures
            final(self).wf(),
            final(self).samplerate == old(self).samplerate,
            final(self).channels == old(self).channels,
            final(self).next_timer == old(self).next_timer,
            final(self).nodes.len() == old(self).nodes.len(),
            forall|i: int|
                0 <= i < old(self).nodes.len() ==> {
                    let pre = #[trigger] old(self).nodes[i];
                    let post = final(self).nodes[i];
                    &&& post.offset == pre.offset
                    &&& post.scheduled == pre.scheduled
                    &&& post.active == pre.active
                    &&& post.volume == pre.volume
                    &&& post.ramps == pre.ramps
                    &&& post.timers@ == pre.timers@.filter(
                        |tm: (u64, u64)| !(tm.0 < window_end(pre.offset as int, frames as int)),
                    )
                },
            forall|i: int, k: int|
                0 <= i < old(self).nodes.len() && 0 <= k < old(self).nodes[i].timers.len() && (
                #[trigger] old(self).nodes[i].timers[k]).0 < window_end(
                    old(self).nodes[i].offset as int,
                    frames as int,
                ) ==> fired@.contains(old(self).nodes[i].timers[k].1),
    {
        let mut fired: Vec<u64> = Vec::new();
        let n = self.nodes.len();
        let mut i: usize = 0;
        while i < n
            invariant
                i <= n,
                n == self.nodes.len(),
                n == old(self).nodes.len(),
                self.wf(),
                self.samplerate == old(self).samplerate,
                self.channels == old(self).channels,
                self.next_timer == old(self).next_timer,
                forall|j: int| i <= j < n ==> self.nodes[j] == old(self).nodes[j],
                forall|j: int|
                    0 <= j < i ==> {
                        let pre = #[trigger] old(self).nodes[j];
                        let post = self.nodes[j];
                        &&& post.offset == pre.offset
                        &&& post.scheduled == pre.scheduled
                        &&& post.active == pre.active
                        &&& post.volume == pre.volume
                        &&& post.ramps == pre.ramps
                        &&& post.timers@ == pre.timers@.filter(
                            |tm: (u64, u64)| !(tm.0 < window_end(
                                pre.offset as int,
                                frames as int,
                            )),
                        )
                    },
                forall|j: int, k: int|
                    0 <= j < i && 0 <= k < old(self).nodes[j].timers.len() && (#[trigger] old(
                        self,
                    ).nodes[j].timers[k]).0 < window_end(
                        old(self).nodes[j].offset as int,
                        frames as int,
                    ) ==> fired@.contains(old(self).nodes[j].timers[k].1),
            decreases n - i,
        {
            let ghost iter_pre = *self;
            let mut node = vec_replace(&mut self.nodes, i, empty_node(0));
            let offset = node.offset;
            let end: u64 = if offset > u64::MAX - frames as u64 {
                u64::MAX
            } else {
                offset + frames as u64
            };
            let ghost pred = |tm: (u64, u64)|
                !(tm.0 < window_end(old(self).nodes[i as int].offset as int, frames as int));
            let old_timers = node.timers;
            let ghost ot = old_timers@;
            let mut kept: Vec<(u64, u64)> = Vec::new();
            let mut t: usize = 0;
            let ghost fired0 = fired@;
            while t < old_timers.len()
                invariant
                    t <= old_timers.len(),
                    old_timers@ == ot,
                    end == window_end(offset as int, frames as int),
                    pred == (|tm: (u64, u64)|
                        !(tm.0 < window_end(offset as int, frames as int))),
                    kept@ == ot.take(t as int).filter(pred),
                    fired0.len() <= fired@.len(),
                    forall|q: int| 0 <= q < fired0.len() ==> fired0[q] == #[trigger] fired@[q],
                    forall|k: int|
                        0 <= k < t && (#[trigger] ot[k]).0 < window_end(
                            offset as int,
                            frames as int,
                        ) ==> fired@.contains(ot[k].1),
                decreases old_timers.len() - t,
            {
                let entry = old_timers[t];
                proof {
                    assert(ot.take(t + 1).drop_last() =~= ot.take(t as int));
                    assert(ot.take(t + 1).last() == ot[t as int]);
                    reveal_with_fuel(Seq::filter, 2);
                }
                let ghost fired_before = fired@;
                if entry.0 < end {
                    fired.push(entry.1);
                } else {
                    kept.push(entry);
                }
                proof {
                    assert(kept@ == ot.take(t + 1).filter(pred));
                    assert forall|k: int|
                        0 <= k < t + 1 && (#[trigger] ot[k]).0 < window_end(
                            offset as int,
                            frames as int,
                        ) implies fired@.contains(ot[k].1) by {
                        if k < t {
                            let q = choose|q: int|
                                0 <= q < fired_before.len() && fired_before[q] == ot[k].1;
                            assert(fired@[q] == ot[k].1);
                        } else {
                            assert(fired@.last() == ot[k].1);
                        }
                    }
                }
                t += 1;
            }
            proof {
                assert(ot.take(ot.len() as int) =~= ot);
            }
            node.timers = kept;
            let replaced = vec_replace(&mut self.nodes, i, node);
            proof {
                lemma_tree_update_wf(iter_pre, *self, i as int);
                assert forall|q: int, k: int|
                    0 <= q < i + 1 && 0 <= k < old(self).nodes[q].timers.len() && (#[trigger] old(
                        self,
                    ).nodes[q].timers[k]).0 < window_end(
                        old(self).nodes[q].offset as int,
                        frames as int,
                    ) implies fired@.contains(old(self).nodes[q].timers[k].1) by {
                    if q < i {
                        let w = choose|w: int|
                            0 <= w < fired0.len() && fired0[w] == old(self).nodes[q].timers[k].1;
                        assert(fired@[w] == old(self).nodes[q].timers[k].1);
                    } else {
                        assert(old(self).nodes[q].timers@ == ot);
                    }
                }
            }
            i += 1;
        }
        fired
    }
}


/// Scales every sample of a window by the envelope: sample `k` (frame
/// `offset + k / ch`) is multiplied by the gain `spec_env_gain` assigns to
/// its frame.  Returns the ramps still ahead of the window and the running
/// gain at the window's end, which together anchor the next window's
/// envelope.
#[verifier::rlimit(100)]
pub fn apply_envelope(
    buf: &mut Vec<i32>,
    ramps: Vec<(u64, i64)>,
    volume: i64,
    offset: u64,
    frames: usize,
    ch: u16,
) -> (res: (Vec<(u64, i64)>, i64))
    requires
        old(buf).len() == frames * ch,
        ramps_wf(ramps@),
        0 <= volume <= VOL_MAX,
        offset + frames <= u64::MAX,
        ch >= 1,
        1 <= frames,
    ensures
        final(buf).len() == old(buf).len(),
        ramps_wf(res.0@),
        0 <= res.1 <= VOL_MAX,
        res.0@.len() <= ramps@.len(),
        res.0@ =~= ramps@.skip(ramps@.len() - res.0@.len()),
        forall|q: int|
            0 <= q < ramps@.len() - res.0@.len() ==> (#[trigger] ramps@[q]).0 <= offset
                + frames,
        forall|q: int|
            ramps@.len() - res.0@.len() <= q < ramps@.len() ==> (#[trigger] ramps@[q]).0
                > offset + frames,
        res.1 == spec_env_gain(ramps@, volume as int, offset as int, offset + frames),
        forall|k: int|
            0 <= k < old(buf).len() ==> #[trigger] final(buf)@[k] == crate::samples::spec_apply_gain(
                old(buf)@[k] as int,
                spec_env_gain(ramps@, volume as int, offset as int, offset + k / (ch as int)),
            ),
{
    let ghost orig = ramps@;
    let ghost v0 = volume as int;
    let end: u64 = offset + frames as u64;
    let mut vol: i64 = volume;
    let mut pos0: u64 = offset;
    let mut ri: usize = 0;
    let mut j: usize = 0;
    let mut tail_gain: i64 = vol;
    proof {
        assert(orig.skip(0) =~= orig);
    }
    loop
        invariant_except_break
            pos0 == offset + j,
        invariant
            ramps_wf(orig),
            orig == ramps@,
            ramps.len() == orig.len(),
            0 <= vol <= VOL_MAX,
            ri <= ramps.len(),
            forall|q: int| 0 <= q < ri ==> (#[trigger] orig[q]).0 <= end,
            j <= frames,
            offset <= pos0,
            end == offset + frames,
            offset + frames <= u64::MAX,
            ch >= 1,
            frames >= 1,
            buf.len() == frames * ch,
            old(buf).len() == frames * ch,
            forall|f: int|
                offset + j <= f ==> #[trigger] spec_env_gain(
                    orig.skip(ri as int),
                    vol as int,
                    pos0 as int,
                    f,
                ) == spec_env_gain(orig, v0, offset as int, f),
            forall|k: int|
                0 <= k < j * ch ==> #[trigger] buf@[k] == crate::samples::spec_apply_gain(
                    old(buf)@[k] as int,
                    spec_env_gain(orig, v0, offset as int, offset + k / (ch as int)),
                ),
            forall|k: int| j * ch <= k < buf.len() ==> #[trigger] buf@[k] == old(buf)@[k],
        ensures
            j == frames,
            ri <= ramps.len(),
            0 <= tail_gain <= VOL_MAX,
            tail_gain == spec_env_gain(orig, v0, offset as int, end as int),
            forall|k: int|
                0 <= k < buf.len() ==> #[trigger] buf@[k] == crate::samples::spec_apply_gain(
                    old(buf)@[k] as int,
                    spec_env_gain(orig, v0, offset as int, offset + k / (ch as int)),
                ),
            forall|q: int|
                ri <= q < orig.len() ==> (#[trigger] orig[q]).0 > end,
            forall|q: int| 0 <= q < ri ==> (#[trigger] orig[q]).0 <= end,
        decreases ramps.len() - ri + 1, frames - j,
    {
        // Consume ramp points at or before the anchor: a point at the
        // anchor replaces the running gain outright.
        if ri < ramps.len() && ramps[ri].0 <= pos0 {
            let t = ramps[ri].0;
            let v = ramps[ri].1;
            let ghost prev_vol = vol as int;
            let ghost prev_ri = ri as int;
            if t == pos0 {
                vol = v;
            }
            ri += 1;
            proof {
                assert(orig.skip(prev_ri).skip(1) =~= orig.skip(ri as int));
                assert(orig.skip(prev_ri)[0] == orig[prev_ri]);
                assert forall|f: int|
                    offset + j <= f implies #[trigger] spec_env_gain(
                    orig.skip(ri as int),
                    vol as int,
                    pos0 as int,
                    f,
                ) == spec_env_gain(orig, v0, offset as int, f) by {
                    assert(spec_env_gain(orig.skip(prev_ri), prev_vol, pos0 as int, f)
                        == spec_env_gain(orig, v0, offset as int, f));
                }
            }
            continue ;
        }
        if ri == ramps.len() {
            // No ramps ahead: the rest of the window keeps the running
            // gain.
            proof {
                assert(orig.skip(ri as int).len() == 0);
            }
            while j < frames
                invariant
                    j <= frames,
                    ch >= 1,
                    frames >= 1,
                    buf.len() == frames * ch,
                    old(buf).len() == frames * ch,
                    0 <= vol <= VOL_MAX,
                    offset + frames <= u64::MAX,
                    forall|f: int|
                        offset + j <= f ==> #[trigger] spec_env_gain(
                            orig.skip(ri as int),
                            vol as int,
                            pos0 as int,
                            f,
                        ) == spec_env_gain(orig, v0, offset as int, f),
                    orig.skip(ri as int).len() == 0,
                    ri <= orig.len(),
                    forall|k: int|
                        0 <= k < j * ch ==> #[trigger] buf@[k]
                            == crate::samples::spec_apply_gain(
                            old(buf)@[k] as int,
                            spec_env_gain(
                                orig,
                                v0,
                                offset as int,
                                offset + k / (ch as int),
                            ),
                        ),
                    forall|k: int| j * ch <= k < buf.len() ==> #[trigger] buf@[k] == old(
                        buf,
                    )@[k],
                decreases frames - j,
            {
                proof {
                    assert(spec_env_gain(orig.skip(ri as int), vol as int, pos0 as int, offset
                        + j) == vol as int);
                    assert(spec_env_gain(orig, v0, offset as int, offset + j) == vol as int);
                }
                let ghost pre_call = buf@;
                apply_gain_frame(buf, j, ch, vol, frames);
                proof {
                    lemma_frame_gain_step(
                        orig,
                        v0,
                        offset as int,
                        vol as int,
                        j as int,
                        ch as int,
                        frames as int,
                        buf@,
                        pre_call,
                        old(buf)@,
                    );
                }
                j += 1;
            }
            tail_gain = vol;
            proof {
                assert(spec_env_gain(orig.skip(ri as int), vol as int, pos0 as int, end as int)
                    == vol);
            }
            break ;
        }
        let t = ramps[ri].0;
        let v = ramps[ri].1;
        let jstop: usize = if t - offset < frames as u64 {
            (t - offset) as usize
        } else {
            frames
        };
        while j < jstop
            invariant
                j <= jstop,
                jstop <= frames,
                ch >= 1,
                frames >= 1,
                buf.len() == frames * ch,
                old(buf).len() == frames * ch,
                0 <= vol <= VOL_MAX,
                0 <= v <= VOL_MAX,
                offset <= pos0,
                pos0 < t,
                offset + frames <= u64::MAX,
                jstop <= t - offset,
                pos0 <= offset + j,
                ri < orig.len(),
                orig[ri as int] == (t, v),
                forall|f: int|
                    offset + j <= f ==> #[trigger] spec_env_gain(
                        orig.skip(ri as int),
                        vol as int,
                        pos0 as int,
                        f,
                    ) == spec_env_gain(orig, v0, offset as int, f),
                forall|k: int|
                    0 <= k < j * ch ==> #[trigger] buf@[k] == crate::samples::spec_apply_gain(
                        old(buf)@[k] as int,
                        spec_env_gain(orig, v0, offset as int, offset + k / (ch as int)),
                    ),
                forall|k: int| j * ch <= k < buf.len() ==> #[trigger] buf@[k] == old(buf)@[k],
            decreases jstop - j,
        {
            let g = interp_gain(vol, v, pos0, t, offset + j as u64);
            proof {
                assert(spec_env_gain(orig.skip(ri as int), vol as int, pos0 as int, offset + j)
                    == g as int);
                assert forall|f: int|
                    offset + j + 1 <= f implies #[trigger] spec_env_gain(
                    orig.skip(ri as int),
                    vol as int,
                    pos0 as int,
                    f,
                ) == spec_env_gain(orig, v0, offset as int, f) by {
                    assert(spec_env_gain(orig.skip(ri as int), vol as int, pos0 as int, f)
                        == spec_env_gain(orig, v0, offset as int, f));
                }
            }
            let ghost pre_call = buf@;
            apply_gain_frame(buf, j, ch, g, frames);
            proof {
                lemma_frame_gain_step(
                    orig,
                    v0,
                    offset as int,
                    g as int,
                    j as int,
                    ch as int,
                    frames as int,
                    buf@,
                    pre_call,
                    old(buf)@,
                );
            }
            j += 1;
        }
        if t <= end {
            proof {
                assert(orig.skip(ri as int).skip(1) =~= orig.skip(ri + 1));
                assert forall|f: int|
                    offset + j <= f implies #[trigger] spec_env_gain(
                    orig.skip(ri + 1),
                    v as int,
                    t as int,
                    f,
                ) == spec_env_gain(orig, v0, offset as int, f) by {
                    assert(t <= f);
                    assert(spec_env_gain(orig.skip(ri as int), vol as int, pos0 as int, f)
                        == spec_env_gain(orig, v0, offset as int, f));
                }
            }
            vol = v;
            pos0 = t;
            ri += 1;
        } else {
            // The segment outlives the window: finish it at the window's
            // edge and remember the interpolated gain there.
            while j < frames
                invariant
                    j <= frames,
                    ch >= 1,
                    frames >= 1,
                    buf.len() == frames * ch,
                    old(buf).len() == frames * ch,
                    0 <= vol <= VOL_MAX,
                    0 <= v <= VOL_MAX,
                    offset <= pos0,
                    pos0 < t,
                    end < t,
                    end == offset + frames,
                    offset + frames <= u64::MAX,
                    pos0 <= offset + j,
                    ri < orig.len(),
                    orig[ri as int] == (t, v),
                    forall|f: int|
                        offset + j <= f ==> #[trigger] spec_env_gain(
                            orig.skip(ri as int),
                            vol as int,
                            pos0 as int,
                            f,
                        ) == spec_env_gain(orig, v0, offset as int, f),
                    forall|k: int|
                        0 <= k < j * ch ==> #[trigger] buf@[k]
                            == crate::samples::spec_apply_gain(
                            old(buf)@[k] as int,
                            spec_env_gain(
                                orig,
                                v0,
                                offset as int,
                                offset + k / (ch as int),
                            ),
                        ),
                    forall|k: int| j * ch <= k < buf.len() ==> #[trigger] buf@[k] == old(
                        buf,
                    )@[k],
                decreases frames - j,
            {
                let g = interp_gain(vol, v, pos0, t, offset + j as u64);
                proof {
                    assert(spec_env_gain(
                        orig.skip(ri as int),
                        vol as int,
                        pos0 as int,
                        offset + j,
                    ) == g as int);
                    assert forall|f: int|
                        offset + j + 1 <= f implies #[trigger] spec_env_gain(
                        orig.skip(ri as int),
                        vol as int,
                        pos0 as int,
                        f,
                    ) == spec_env_gain(orig, v0, offset as int, f) by {
                        assert(spec_env_gain(orig.skip(ri as int), vol as int, pos0 as int, f)
                            == spec_env_gain(orig, v0, offset as int, f));
                    }
                }
                let ghost pre_call = buf@;
                apply_gain_frame(buf, j, ch, g, frames);
                proof {
                    lemma_frame_gain_step(
                        orig,
                        v0,
                        offset as int,
                        g as int,
                        j as int,
                        ch as int,
                        frames as int,
                        buf@,
                        pre_call,
                        old(buf)@,
                    );
                }
                j += 1;
            }
            tail_gain = interp_gain(vol, v, pos0, t, end);
            proof {
                assert(spec_env_gain(orig.skip(ri as int), vol as int, pos0 as int, end as int)
                    == tail_gain as int);
            }
            break ;
        }
    }
    let mut rest: Vec<(u64, i64)> = Vec::new();
    let mut q: usize = ri;
    while q < ramps.len()
        invariant
            ri <= q <= ramps.len(),
            rest@ =~= ramps@.subrange(ri as int, q as int),
        decreases ramps.len() - q,
    {
        let e = ramps[q];
        rest.push(e);
        q += 1;
    }
    proof {
        assert(rest@ =~= orig.skip(ri as int));
        assert(rest@ =~= orig.skip(orig.len() - rest@.len()));
        assert forall|a: int, b: int| 0 <= a <= b < rest@.len() implies (#[trigger] rest@[a]).0
            <= (#[trigger] rest@[b]).0 by {
            assert(rest@[a] == orig[ri + a]);
            assert(rest@[b] == orig[ri + b]);
        }
        assert forall|a: int| 0 <= a < rest@.len() implies 0 <= (#[trigger] rest@[a]).1
            <= VOL_MAX by {
            assert(rest@[a] == orig[ri + a]);
        }
    }
    (rest, tail_gain)
}

/// Multiplies the `ch` samples of frame `j` by one gain.
fn apply_gain_frame(buf: &mut Vec<i32>, j: usize, ch: u16, g: i64, frames: usize)
    requires
        old(buf).len() == frames * (ch as int),
        j < frames,
        ch >= 1,
        0 <= g <= VOL_MAX,
    ensures
        final(buf).len() == old(buf).len(),
        forall|k: int|
            j * ch <= k < j * ch + ch ==> #[trigger] final(buf)@[k]
                == crate::samples::spec_apply_gain(old(buf)@[k] as int, g as int),
        forall|k: int|
            0 <= k < old(buf).len() && !(j * ch <= k < j * ch + ch)
                ==> #[trigger] final(buf)@[k] == old(buf)@[k] as int,
{
    proof {
        assert(j * ch + ch <= frames * (ch as int) && j * ch >= 0) by (nonlinear_arith)
            requires
                0 <= j < frames,
                ch >= 1,
        ;
    }
    let base = j * ch as usize;
    let mut c: usize = 0;
    while c < ch as usize
        invariant
            c <= ch,
            base == j * ch,
            base + ch <= buf.len(),
            buf.len() == old(buf).len(),
            0 <= g <= VOL_MAX,
            forall|k: int|
                base <= k < base + c ==> #[trigger] buf@[k] == crate::samples::spec_apply_gain(
                    old(buf)@[k] as int,
                    g as int,
                ),
            forall|k: int|
                0 <= k < buf.len() && !(base <= k < base + c) ==> #[trigger] buf@[k] == old(
                    buf,
                )@[k],
        decreases ch - c,
    {
        let s = buf[base + c];
        let scaled = apply_gain(s, g);
        buf.set(base + c, scaled);
        c += 1;
    }
}

/// After scaling frame `j` by the gain the envelope assigns to it, the
/// transformed prefix extends by one frame and the samples past it stay
/// untouched.
proof fn lemma_frame_gain_step(
    orig: Seq<(u64, i64)>,
    v0: int,
    offset: int,
    g: int,
    j: int,
    ch: int,
    frames: int,
    now: Seq<i32>,
    pre_call: Seq<i32>,
    before: Seq<i32>,
)
    requires
        ch >= 1,
        0 <= j < frames,
        now.len() == frames * ch,
        pre_call.len() == frames * ch,
        before.len() == frames * ch,
        g == spec_env_gain(orig, v0, offset, offset + j),
        forall|k: int|
            j * ch <= k < j * ch + ch ==> #[trigger] now[k] == crate::samples::spec_apply_gain(
                pre_call[k] as int,
                g,
            ),
        forall|k: int|
            0 <= k < pre_call.len() && !(j * ch <= k < j * ch + ch) ==> #[trigger] now[k]
                == pre_call[k],
        forall|k: int|
            0 <= k < j * ch ==> #[trigger] pre_call[k] == crate::samples::spec_apply_gain(
                before[k] as int,
                spec_env_gain(orig, v0, offset, offset + k / ch),
            ),
        forall|k: int| j * ch <= k < pre_call.len() ==> #[trigger] pre_call[k] == before[k],
    ensures
        forall|k: int|
            0 <= k < (j + 1) * ch ==> #[trigger] now[k] == crate::samples::spec_apply_gain(
                before[k] as int,
                spec_env_gain(orig, v0, offset, offset + k / ch),
            ),
        forall|k: int| (j + 1) * ch <= k < now.len() ==> #[trigger] now[k] == before[k],
        (j + 1) * ch == j * ch + ch,
{
    assert((j + 1) * ch == j * ch + ch) by (nonlinear_arith);
    assert(j * ch >= 0 && j * ch + ch <= frames * ch) by (nonlinear_arith)
        requires
            0 <= j < frames,
            ch >= 1,
    ;
    assert forall|k: int| 0 <= k < (j + 1) * ch implies #[trigger] now[k]
        == crate::samples::spec_apply_gain(
        before[k] as int,
        spec_env_gain(orig, v0, offset, offset + k / ch),
    ) by {
        if j * ch <= k {
            vstd::arithmetic::div_mod::lemma_fundamental_div_mod_converse(
                k,
                ch,
                j,
                k - j * ch,
            );
            assert(k / ch == j);
            assert(pre_call[k] == before[k]);
        }
    }
}

/// The all-silent window of `n` samples.
pub open spec fn spec_zero_window(n: int) -> Seq<i32> {
    Seq::new(n as nat, |k: int| 0i32)
}

/// One chunk saturating-added into a window, starting at sample `dest`.
pub open spec fn spec_mix_chunk(base: Seq<i32>, chunk: Seq<i32>, dest: int) -> Seq<i32> {
    Seq::new(
        base.len(),
        |k: int|
            if dest <= k < dest + chunk.len() {
                (crate::samples::spec_mix_add(base[k] as int, chunk[k - dest] as int)) as i32
            } else {
                base[k]
            },
    )
}

/// The saturating add-mix of per-source chunks over a silent window of
/// `n` samples, each chunk laid in from sample zero, in list order.
pub open spec fn spec_mix_fold(chunks: Seq<Seq<i32>>, n: int) -> Seq<i32>
    decreases chunks.len(),
{
    if chunks.len() == 0 {
        spec_zero_window(n)
    } else {
        spec_mix_chunk(spec_mix_fold(chunks.drop_last(), n), chunks.last(), 0)
    }
}

/// One chunk overwriting a window, starting at sample `dest`.
pub open spec fn spec_overwrite_chunk(base: Seq<i32>, chunk: Seq<i32>, dest: int) -> Seq<i32> {
    Seq::new(
        base.len(),
        |k: int|
            if dest <= k < dest + chunk.len() {
                chunk[k - dest]
            } else {
                base[k]
            },
    )
}

/// Scheduled entries overwrite the window in list order: an entry whose
/// start falls in `[offset, end)` lays its chunk over the mix at its
/// start position; a stale or still-future entry leaves it untouched.
pub open spec fn spec_overwrite_fold(
    base: Seq<i32>,
    entries: Seq<(u64, Source)>,
    chunks: Seq<Seq<i32>>,
    offset: int,
    end: int,
    ch: int,
) -> Seq<i32>
    decreases entries.len(),
{
    if entries.len() == 0 || chunks.len() == 0 {
        base
    } else {
        let prev = spec_overwrite_fold(
            base,
            entries.drop_last(),
            chunks.drop_last(),
            offset,
            end,
            ch,
        );
        if offset <= entries.last().0 < end {
            spec_overwrite_chunk(prev, chunks.last(), (entries.last().0 - offset) * ch)
        } else {
            prev
        }
    }
}

/// A window mixed from one chunk alone carries that chunk verbatim and
/// stays silent past its end: adding a sample into silence clamps
/// nowhere.
pub proof fn lemma_mix_fold_single(chunk: Seq<i32>, n: int)
    requires
        0 <= chunk.len() <= n,
    ensures
        spec_mix_fold(seq![chunk], n).len() == n,
        forall|k: int|
            0 <= k < chunk.len() ==> #[trigger] spec_mix_fold(seq![chunk], n)[k] == chunk[k],
        forall|k: int|
            chunk.len() <= k < n ==> #[trigger] spec_mix_fold(seq![chunk], n)[k] == 0i32,
{
    let one = seq![chunk];
    assert(one.drop_last() =~= Seq::<Seq<i32>>::empty());
    assert(spec_mix_fold(one.drop_last(), n) =~= spec_zero_window(n));
    assert forall|k: int| 0 <= k < chunk.len() implies #[trigger] spec_mix_fold(one, n)[k]
        == chunk[k] by {
        assert(spec_mix_fold(one, n)[k] == (crate::samples::spec_mix_add(
            0int,
            chunk[k] as int,
        )) as i32);
    }
}

/// What one mixed-in chunk owes to its source: a child-node reference is
/// constrained in length alone (what the child produced is stated by its
/// own render), any other source accounts for its samples through the
/// pull contract `force_fill_post`.
pub open spec fn chunk_of_source(pre: Source, post: Source, chunk: Seq<i32>, want: int) -> bool {
    if pre is Sub {
        chunk.len() == 0 || chunk.len() == want
    } else {
        Source::force_fill_post(pre, post, chunk, want)
    }
}

/// One witness to how the pre-gain window was mixed: a chunk per active
/// source, each accounted to its source and add-mixed in order, then a
/// chunk per scheduled entry, the in-window ones pulled for the span from
/// their start to the window's end and overwriting the mix there, the
/// stale and still-future ones contributing nothing.
pub open spec fn window_witness(
    pre: Node,
    premix: Seq<i32>,
    want: int,
    end: int,
    ch: int,
    achunks: Seq<Seq<i32>>,
    aposts: Seq<Source>,
    schunks: Seq<Seq<i32>>,
    sposts: Seq<Source>,
) -> bool {
    &&& achunks.len() == pre.active.len()
    &&& aposts.len() == pre.active.len()
    &&& (forall|q: int|
        0 <= q < achunks.len() ==> chunk_of_source(
            #[trigger] pre.active@[q],
            aposts[q],
            achunks[q],
            want,
        ))
    &&& schunks.len() == pre.scheduled.len()
    &&& sposts.len() == pre.scheduled.len()
    &&& (forall|q: int|
        0 <= q < schunks.len() ==> {
            if pre.offset <= (#[trigger] pre.scheduled@[q]).0 < end {
                chunk_of_source(
                    pre.scheduled@[q].1,
                    sposts[q],
                    schunks[q],
                    (end - pre.scheduled@[q].0) * ch,
                )
            } else {
                schunks[q].len() == 0
            }
        })
    &&& premix == spec_overwrite_fold(
        spec_mix_fold(achunks, want),
        pre.scheduled@,
        schunks,
        pre.offset as int,
        end,
        ch,
    )
}

/// The pre-gain window is the add-mix of one accounted chunk per active
/// source, overwritten by the accounted chunks of the entries activated
/// in this window.
pub open spec fn spec_mixed_window(pre: Node, premix: Seq<i32>, want: int, end: int, ch: int) -> bool {
    exists|w: (Seq<Seq<i32>>, Seq<Source>, Seq<Seq<i32>>, Seq<Source>)|
        window_witness(pre, premix, want, end, ch, w.0, w.1, w.2, w.3)
}

/// What one render does to the rendered node, beyond advancing it: the
/// window `[offset, end)` consumes every scheduled entry that starts
/// before `end` (stale ones silently, in-window ones by rendering them),
/// consumes every ramp point up to `end`, leaves the running gain at the
/// envelope's value at `end`, and scales every output sample by exactly
/// the envelope gain of its frame, the sample under the gain being the
/// witnessed mix of the sources' own chunks.
pub open spec fn render_node_post(pre: Node, post: Node, out: Seq<i32>, frames: int, ch: int) -> bool {
    let end = pre.offset + frames;
    &&& post.offset == end
    &&& post.timers == pre.timers
    &&& post.scheduled@ == pre.scheduled@.filter(|e: (u64, Source)| e.0 >= end)
    &&& post.ramps@ == pre.ramps@.filter(|r: (u64, i64)| r.0 > end)
    &&& post.volume == spec_env_gain(pre.ramps@, pre.volume as int, pre.offset as int, end)
    &&& exists|premix: Seq<i32>|
        premix.len() == out.len() && #[trigger] spec_mixed_window(
            pre,
            premix,
            frames * ch,
            end,
            ch,
        ) && (forall|k: int|
            0 <= k < out.len() ==> out[k] == crate::samples::spec_apply_gain(
                (premix[k]) as int,
                spec_env_gain(pre.ramps@, pre.volume as int, pre.offset as int, pre.offset + k
                    / ch),
            ))
}

/// A lone buffer at full volume, with nothing scheduled and no pending
/// ramps, reaches the rendered window verbatim: its own samples come out
/// unchanged, and the window past its end is silent.
pub proof fn lemma_lone_buffer_plays_verbatim(
    pre: Node,
    post: Node,
    out: Seq<i32>,
    frames: int,
    ch: int,
)
    requires
        render_node_post(pre, post, out, frames, ch),
        frames >= 1,
        pre.active@.len() == 1,
        pre.active@[0] is Buffer,
        pre.active@[0].wf(),
        pre.active@[0].rate_native(),
        pre.active@[0].spec_channels() == ch,
        pre.scheduled@.len() == 0,
        pre.ramps@.len() == 0,
        pre.volume == crate::samples::VOL_UNIT,
        out.len() == frames * ch,
    ensures
        ({
            let bs = pre.active@[0]->Buffer_0;
            let rem = (bs.data.len() - bs.pos) as int / ch;
            let n = ch * crate::source::min_frames(frames, rem);
            &&& (forall|k: int| 0 <= k < n ==> out[k] == bs.data@[bs.pos + k])
            &&& (forall|k: int| n <= k < out.len() ==> out[k] == 0i32)
        }),
{
    let bs = pre.active@[0]->Buffer_0;
    let want = frames * ch;
    let end = pre.offset + frames;
    let rem = (bs.data.len() - bs.pos) as int / ch;
    let n = ch * crate::source::min_frames(frames, rem);
    assert(ch >= 1);
    let premix = choose|premix: Seq<i32>|
        premix.len() == out.len() && #[trigger] spec_mixed_window(
            pre,
            premix,
            frames * ch,
            end,
            ch,
        ) && (forall|k: int|
            0 <= k < out.len() ==> out[k] == crate::samples::spec_apply_gain(
                (premix[k]) as int,
                spec_env_gain(pre.ramps@, pre.volume as int, pre.offset as int, pre.offset + k
                    / ch),
            ));
    let w = choose|w: (Seq<Seq<i32>>, Seq<Source>, Seq<Seq<i32>>, Seq<Source>)|
        window_witness(pre, premix, frames * ch, end, ch, w.0, w.1, w.2, w.3);
    assert(window_witness(pre, premix, want, end, ch, w.0, w.1, w.2, w.3));
    let achunks = w.0;
    let schunks = w.2;
    assert(schunks.len() == 0);
    assert(premix == spec_overwrite_fold(
        spec_mix_fold(achunks, want),
        pre.scheduled@,
        schunks,
        pre.offset as int,
        end,
        ch,
    ));
    assert(premix == spec_mix_fold(achunks, want));
    assert(chunk_of_source(pre.active@[0], w.1[0], achunks[0], want));
    let chunk = achunks[0];
    assert(Source::fill_post(pre.active@[0], w.1[0], chunk.len() as int, want));
    vstd::arithmetic::div_mod::lemma_div_by_multiple(frames, ch);
    assert((frames * ch) / ch == frames);
    assert(chunk.len() == n);
    assert(chunk == bs.data@.subrange(bs.pos as int, bs.pos + chunk.len()));
    assert(achunks.drop_last() =~= Seq::<Seq<i32>>::empty());
    assert(achunks.last() == chunk);
    assert(spec_mix_fold(achunks.drop_last(), want) == spec_zero_window(want));
    assert(spec_mix_fold(achunks, want) == spec_mix_chunk(
        spec_mix_fold(achunks.drop_last(), want),
        achunks.last(),
        0,
    ));
    assert(premix == spec_mix_chunk(spec_zero_window(want), chunk, 0));
    assert forall|k: int| 0 <= k < out.len() implies out[k] == premix[k] by {
        assert(spec_env_gain(pre.ramps@, pre.volume as int, pre.offset as int, pre.offset + k
            / ch) == crate::samples::VOL_UNIT as int);
        crate::samples::lemma_unit_gain_identity(premix[k] as int);
    }
    assert forall|k: int| 0 <= k < n implies out[k] == bs.data@[bs.pos + k] by {
        assert(premix[k] == (crate::samples::spec_mix_add(0int, chunk[k] as int)) as i32);
        assert(chunk[k] == bs.data@[bs.pos + k]);
    }
    assert forall|k: int| n <= k < out.len() implies out[k] == 0i32 by {
        assert(premix[k] == spec_zero_window(want)[k]);
    }
}

/// For a sorted list split at `n` with the prefix at or below the bound
/// and the suffix above it, keeping the suffix is exactly filtering by the
/// bound.
proof fn lemma_sorted_split_is_filter(ramps: Seq<(u64, i64)>, n: int, end: int)
    requires
        0 <= n <= ramps.len(),
        forall|q: int| 0 <= q < n ==> (#[trigger] ramps[q]).0 <= end,
        forall|q: int| n <= q < ramps.len() ==> (#[trigger] ramps[q]).0 > end,
    ensures
        ramps.skip(n) =~= ramps.filter(|r: (u64, i64)| r.0 > end),
    decreases ramps.len(),
{
    reveal_with_fuel(Seq::filter, 2);
    if ramps.len() == 0 {
        assert(ramps.skip(0) =~= ramps);
    } else {
        let last = ramps.last();
        let head = ramps.drop_last();
        if n == ramps.len() {
            lemma_sorted_split_is_filter(head, n - 1, end);
            assert(ramps.filter(|r: (u64, i64)| r.0 > end) =~= head.filter(
                |r: (u64, i64)| r.0 > end,
            ));
            assert(head.skip(n - 1) =~= Seq::<(u64, i64)>::empty());
            assert(ramps.skip(n) =~= Seq::<(u64, i64)>::empty());
        } else {
            lemma_sorted_split_is_filter(head, n, end);
            assert(last.0 > end);
            assert(ramps.filter(|r: (u64, i64)| r.0 > end) =~= head.filter(
                |r: (u64, i64)| r.0 > end,
            ).push(last));
            assert(ramps.skip(n) =~= head.skip(n).push(last));
        }
    }
}

/// Whether a node has nothing at all to do: no active or scheduled source
/// and no pending timer — rendering such a node reports end of stream.
pub open spec fn node_idle(n: Node) -> bool {
    n.active.len() == 0 && n.scheduled.len() == 0 && n.timers.len() == 0
}

impl SchedulerSource {
    /// Renders one window of `frames` frames from node `i`, mixing its
    /// active sources, activating scheduled sources whose start falls in
    /// the window (dropping stale ones), applying the gain envelope and
    /// advancing the node's frame counter.  An empty result means true end
    /// of stream: the node was idle, and nothing changed.
    #[verifier::rlimit(100)]
    pub fn render_node(&mut self, i: usize, frames: usize) -> (out: Vec<i32>)
        requires
            old(self).wf(),
            i < old(self).nodes.len(),
            1 <= frames <= MAX_FRAMES,
        ensures
            final(self).wf(),
            final(self).nodes.len() == old(self).nodes.len(),
            final(self).samplerate == old(self).samplerate,
            final(self).channels == old(self).channels,
            final(self).next_timer == old(self).next_timer,
            forall|j: int| 0 <= j < i ==> final(self).nodes[j] == old(self).nodes[j],
            out.len() == 0 || out.len() == frames * old(self).channels,
            out.len() == 0 <==> (node_idle(old(self).nodes[i as int])
                || old(self).nodes[i as int].offset + frames > u64::MAX),
            out.len() == 0 ==> *final(self) == *old(self),
            out.len() != 0 ==> render_node_post(
                old(self).nodes[i as int],
                final(self).nodes[i as int],
                out@,
                frames as int,
                old(self).channels as int,
            ),
        decreases old(self).nodes.len() - i,
    {
        let ch = self.channels as usize;
        let node_ref = &self.nodes[i];
        if node_ref.active.len() == 0 && node_ref.scheduled.len() == 0 && node_ref.timers.len()
            == 0 {
            return Vec::new();
        }
        if self.nodes[i].offset > u64::MAX - frames as u64 {
            return Vec::new();
        }
        proof {
            assert(1 * 1 <= frames * (ch as int) <= MAX_FRAMES * 0x1_0000) by (nonlinear_arith)
                requires
                    1 <= frames <= MAX_FRAMES,
                    1 <= ch as int <= 0x1_0000,
            ;
            lemma_mul_div_frames(frames as int, ch as int);
        }
        let want: usize = frames * ch;
        let mut node = vec_replace(&mut self.nodes, i, empty_node(0));
        let ghost pre_node = node;
        let ghost ramps0 = node.ramps@;
        let ghost vol0 = node.volume;
        let ghost timers0 = node.timers;
        let ghost sched0 = node.scheduled@;
        let offset = node.offset;
        let end: u64 = offset + frames as u64;
        let mut out: Vec<i32> = Vec::new();
        out.resize(want, 0);

        // Mix the active sources; a source that comes up short has ended
        // and is dropped, as is a child node that reports end of stream.
        let mut kept: Vec<Source> = Vec::new();
        let old_active = node.active;
        let ghost oa = old_active@;
        let ghost mut achunks: Seq<Seq<i32>> = Seq::empty();
        let ghost mut aposts: Seq<Source> = Seq::empty();
        let mut a: usize = 0;
        let mut rest = old_active;
        proof {
            assert(rest@.skip(0) =~= oa);
            assert(out@ =~= spec_zero_window(want as int));
        }
        while rest.len() > 0
            invariant
                self.wf(),
                self.nodes.len() == old(self).nodes.len(),
                self.samplerate == old(self).samplerate,
                self.channels == old(self).channels,
                self.next_timer == old(self).next_timer,
                ch == self.channels,
                i < self.nodes.len(),
                forall|j: int| 0 <= j < i ==> self.nodes[j] == old(self).nodes[j],
                out.len() == want,
                want == frames * ch,
                want <= MAX_FILL,
                want as int / (ch as int) == frames,
                1 <= frames <= MAX_FRAMES,
                node.ramps@ == ramps0,
                node.volume == vol0,
                node.offset == offset,
                node.timers == timers0,
                node.scheduled@ == sched0,
                ramps_wf(ramps0),
                0 <= vol0 <= VOL_MAX,
                forall|k: int|
                    0 <= k < rest.len() ==> entry_wf(
                        #[trigger] rest@[k],
                        i as int,
                        self.nodes.len() as int,
                        self.samplerate,
                        self.channels,
                    ),
                forall|k: int|
                    0 <= k < kept.len() ==> entry_wf(
                        #[trigger] kept@[k],
                        i as int,
                        self.nodes.len() as int,
                        self.samplerate,
                        self.channels,
                    ),
                rest.len() <= oa.len(),
                rest@ == oa.skip(oa.len() - rest.len()),
                achunks.len() == oa.len() - rest.len(),
                aposts.len() == oa.len() - rest.len(),
                forall|q: int|
                    0 <= q < achunks.len() ==> chunk_of_source(
                        #[trigger] oa[q],
                        aposts[q],
                        achunks[q],
                        want as int,
                    ),
                out@ == spec_mix_fold(achunks, want as int),
            decreases rest.len(),
        {
            let ghost adone = oa.len() - rest.len() as int;
            let src = rest.remove(0);
            proof {
                assert(oa.skip(adone)[0] == oa[adone]);
                assert(src == oa[adone]);
                assert(oa.skip(adone).remove(0) =~= oa.skip(adone + 1));
            }
            let ghost out_before = out@;
            match src {
                Source::Sub(j) => {
                    let child = self.render_node(j, frames);
                    if child.len() > 0 {
                        mix_into(&mut out, &child, 0);
                        kept.push(Source::Sub(j));
                    }
                    proof {
                        let prev = achunks;
                        achunks = achunks.push(child@);
                        aposts = aposts.push(oa[adone]);
                        assert(achunks.drop_last() =~= prev);
                        assert(achunks.last() == child@);
                        assert(out@ =~= spec_mix_chunk(out_before, child@, 0));
                        assert(out@ == spec_mix_fold(achunks, want as int));
                    }
                },
                mut other => {
                    let got = other.force_fill(want);
                    mix_into(&mut out, &got, 0);
                    if got.len() == want {
                        kept.push(other);
                    }
                    proof {
                        let prev = achunks;
                        achunks = achunks.push(got@);
                        aposts = aposts.push(other);
                        assert(achunks.drop_last() =~= prev);
                        assert(achunks.last() == got@);
                        assert(out@ =~= spec_mix_chunk(out_before, got@, 0));
                        assert(out@ == spec_mix_fold(achunks, want as int));
                    }
                },
            }
            proof {
                assert(forall|q: int|
                    0 <= q < achunks.len() ==> chunk_of_source(
                        #[trigger] oa[q],
                        aposts[q],
                        achunks[q],
                        want as int,
                    ));
            }
        }
        node.active = kept;
        let ghost mix_base = out@;
        proof {
            assert(achunks.len() == oa.len());
        }

        // Activate scheduled sources that start inside the window: their
        // first frames overwrite the mix at the right position; stale
        // entries (already past) are dropped.
        let old_scheduled = node.scheduled;
        let mut waiting: Vec<(u64, Source)> = Vec::new();
        let ghost mut schunks: Seq<Seq<i32>> = Seq::empty();
        let ghost mut sposts: Seq<Source> = Seq::empty();
        let mut srest = old_scheduled;
        proof {
            assert(sched0.take(0) =~= Seq::<(u64, Source)>::empty());
        }
        while srest.len() > 0
            invariant
                self.wf(),
                self.nodes.len() == old(self).nodes.len(),
                self.samplerate == old(self).samplerate,
                self.channels == old(self).channels,
                self.next_timer == old(self).next_timer,
                ch == self.channels,
                i < self.nodes.len(),
                forall|j: int| 0 <= j < i ==> self.nodes[j] == old(self).nodes[j],
                out.len() == want,
                want == frames * ch,
                want <= MAX_FILL,
                want as int / (ch as int) == frames,
                1 <= frames <= MAX_FRAMES,
                node.ramps@ == ramps0,
                node.volume == vol0,
                node.offset == offset,
                node.timers == timers0,
                ramps_wf(ramps0),
                0 <= vol0 <= VOL_MAX,
                end == offset + frames,
                srest.len() <= sched0.len(),
                srest@ == sched0.skip(sched0.len() - srest.len()),
                waiting@ == sched0.take(sched0.len() - srest.len()).filter(
                    |e: (u64, Source)| e.0 >= end,
                ),
                forall|k: int|
                    0 <= k < srest.len() ==> {
                        &&& (#[trigger] srest@[k]).1.wf()
                        &&& srest@[k].1.sub_free()
                        &&& srest@[k].1.spec_samplerate() == self.samplerate
                        &&& srest@[k].1.spec_channels() == self.channels
                    },
                forall|k: int|
                    0 <= k < node.active.len() ==> entry_wf(
                        #[trigger] node.active@[k],
                        i as int,
                        self.nodes.len() as int,
                        self.samplerate,
                        self.channels,
                    ),
                forall|k: int|
                    0 <= k < waiting.len() ==> {
                        &&& (#[trigger] waiting@[k]).1.wf()
                        &&& waiting@[k].1.sub_free()
                        &&& waiting@[k].1.spec_samplerate() == self.samplerate
                        &&& waiting@[k].1.spec_channels() == self.channels
                    },
                schunks.len() == sched0.len() - srest.len(),
                sposts.len() == sched0.len() - srest.len(),
                forall|q: int|
                    0 <= q < schunks.len() ==> {
                        if offset <= (#[trigger] sched0[q]).0 < end {
                            chunk_of_source(
                                sched0[q].1,
                                sposts[q],
                                schunks[q],
                                (end - sched0[q].0) * (ch as int),
                            )
                        } else {
                            schunks[q].len() == 0
                        }
                    },
                out@ == spec_overwrite_fold(
                    mix_base,
                    sched0.take(sched0.len() - srest.len()),
                    schunks,
                    offset as int,
                    end as int,
                    ch as int,
                ),
            decreases srest.len(),
        {
            let ghost done = sched0.len() - srest.len() as int;
            let entry = srest.remove(0);
            let ghost entry_g = entry;
            proof {
                assert(entry_g == sched0[done]);
                assert(srest@ =~= sched0.skip(done + 1));
                assert(sched0.take(done + 1).drop_last() =~= sched0.take(done));
                assert(sched0.take(done + 1).last() == sched0[done]);
                reveal_with_fuel(Seq::filter, 2);
            }
            let start = entry.0;
            let mut src = entry.1;
            proof {
                if start >= end {
                    assert(waiting@.push(entry_g) =~= sched0.take(done + 1).filter(
                        |e: (u64, Source)| e.0 >= end,
                    ));
                } else {
                    assert(waiting@ =~= sched0.take(done + 1).filter(
                        |e: (u64, Source)| e.0 >= end,
                    ));
                }
            }
            let ghost out_before = out@;
            let ghost prev_schunks = schunks;
            if start < offset {
                // stale: discard
                proof {
                    schunks = schunks.push(Seq::empty());
                    sposts = sposts.push(entry_g.1);
                    assert(schunks.drop_last() =~= prev_schunks);
                    assert(out@ == spec_overwrite_fold(
                        mix_base,
                        sched0.take(done + 1),
                        schunks,
                        offset as int,
                        end as int,
                        ch as int,
                    ));
                }
            } else if start < end {
                let dest_frames = (start - offset) as usize;
                let need_frames = frames - dest_frames;
                proof {
                    lemma_mul_div_frames(need_frames as int, ch as int);
                    assert(need_frames * (ch as int) <= frames * (ch as int))
                        by (nonlinear_arith)
                        requires
                            0 <= need_frames as int <= frames,
                            ch >= 1,
                    ;
                    assert(dest_frames * (ch as int) + need_frames * (ch as int) == frames * (
                    ch as int)) by (nonlinear_arith)
                        requires
                            dest_frames + need_frames == frames,
                    ;
                }
                let n: usize = need_frames * ch;
                let got = src.force_fill(n);
                let dest: usize = dest_frames * ch;
                overwrite_into(&mut out, &got, dest);
                if got.len() == n {
                    node.active.push(src);
                }
                proof {
                    schunks = schunks.push(got@);
                    sposts = sposts.push(src);
                    assert(schunks.drop_last() =~= prev_schunks);
                    assert(n as int == (end - entry_g.0) * (ch as int)) by (nonlinear_arith)
                        requires
                            n == need_frames * ch,
                            need_frames == frames - dest_frames,
                            dest_frames == entry_g.0 - offset,
                            end == offset + frames,
                    ;
                    assert(chunk_of_source(
                        entry_g.1,
                        src,
                        got@,
                        (end - entry_g.0) * (ch as int),
                    ));
                    assert(dest as int == (entry_g.0 - offset) * (ch as int))
                        by (nonlinear_arith)
                        requires
                            dest == dest_frames * ch,
                            dest_frames == entry_g.0 - offset,
                    ;
                    assert(out@ =~= spec_overwrite_chunk(out_before, got@, dest as int));
                    assert(out@ == spec_overwrite_fold(
                        mix_base,
                        sched0.take(done + 1),
                        schunks,
                        offset as int,
                        end as int,
                        ch as int,
                    ));
                }
            } else {
                waiting.push((start, src));
                proof {
                    schunks = schunks.push(Seq::empty());
                    sposts = sposts.push(entry_g.1);
                    assert(schunks.drop_last() =~= prev_schunks);
                    assert(out@ == spec_overwrite_fold(
                        mix_base,
                        sched0.take(done + 1),
                        schunks,
                        offset as int,
                        end as int,
                        ch as int,
                    ));
                }
            }
        }
        node.scheduled = waiting;

        // Apply the gain envelope across the window.
        let ghost premix = out@;
        let ramps = node.ramps;
        let (rest_ramps, new_vol) = apply_envelope(&mut out, ramps, node.volume, offset, frames, self.channels);
        proof {
            let n = ramps0.len() - rest_ramps@.len();
            assert forall|q: int| n <= q < ramps0.len() implies (#[trigger] ramps0[q]).0
                > end by {
                assert(rest_ramps@[q - n] == ramps0.skip(n as int)[q - n]);
                assert(ramps0.skip(n as int)[q - n] == ramps0[q]);
            }
            lemma_sorted_split_is_filter(ramps0, n as int, end as int);
        }
        node.ramps = rest_ramps;
        node.volume = new_vol;
        node.offset = end;
        let replaced = vec_replace(&mut self.nodes, i, node);
        proof {
            let ghost now = *self;
            assert forall|q: int| 0 <= q < now.nodes.len() implies node_wf(
                #[trigger] now.nodes[q],
                q,
                now.nodes.len() as int,
                now.samplerate,
                now.channels,
            ) by {
                if q != i {
                    assert(now.nodes[q] == self.nodes[q]);
                }
            }
            assert(premix.len() == out@.len());
            assert(forall|k: int|
                0 <= k < out@.len() ==> out@[k] == crate::samples::spec_apply_gain(
                    (#[trigger] premix[k]) as int,
                    spec_env_gain(ramps0, vol0 as int, offset as int, offset + k / (
                    ch as int)),
                ));
            assert(sched0.take(sched0.len() as int) =~= sched0);
            assert(premix == spec_overwrite_fold(
                spec_mix_fold(achunks, want as int),
                sched0,
                schunks,
                offset as int,
                end as int,
                ch as int,
            ));
            let w = (achunks, aposts, schunks, sposts);
            assert(window_witness(
                pre_node,
                premix,
                want as int,
                end as int,
                ch as int,
                w.0,
                w.1,
                w.2,
                w.3,
            ));
            assert(spec_mixed_window(pre_node, premix, want as int, end as int, ch as int));
            assert(want as int == frames * (ch as int));
            assert(render_node_post(
                pre_node,
                now.nodes[i as int],
                out@,
                frames as int,
                ch as int,
            ));
        }
        out
    }
}

/// Frame/channel products used by the renderer stay divisible and in
/// range.
proof fn lemma_mul_div_frames(frames: int, ch: int)
    requires
        frames >= 0,
        ch >= 1,
    ensures
        (frames * ch) / ch == frames,
        (frames * ch) % ch == 0,
        frames * ch >= 0,
{
    vstd::arithmetic::div_mod::lemma_mod_multiples_basic(frames, ch);
    vstd::arithmetic::div_mod::lemma_div_by_multiple(frames, ch);
    assert(frames * ch >= 0) by (nonlinear_arith)
        requires
            frames >= 0,
            ch >= 1,
    ;
}

/// Adds a rendered chunk into the output with saturation, starting at
/// sample `dest`.
fn mix_into(out: &mut Vec<i32>, add: &Vec<i32>, dest: usize)
    requires
        dest + add.len() <= old(out).len(),
    ensures
        final(out).len() == old(out).len(),
        forall|k: int|
            dest <= k < dest + add.len() ==> #[trigger] final(out)@[k]
                == crate::samples::spec_mix_add(old(out)@[k] as int, add@[k - dest] as int),
        forall|k: int|
            0 <= k < old(out).len() && !(dest <= k < dest + add.len())
                ==> #[trigger] final(out)@[k] == old(out)@[k],
{
    let mut q: usize = 0;
    while q < add.len()
        invariant
            q <= add.len(),
            dest + add.len() <= out.len(),
            out.len() == old(out).len(),
            forall|k: int|
                dest <= k < dest + q ==> #[trigger] out@[k] == crate::samples::spec_mix_add(
                    old(out)@[k] as int,
                    add@[k - dest] as int,
                ),
            forall|k: int|
                0 <= k < out.len() && !(dest <= k < dest + q) ==> #[trigger] out@[k] == old(
                    out,
                )@[k],
        decreases add.len() - q,
    {
        let mixed = mix_add(out[dest + q], add[q]);
        out.set(dest + q, mixed);
        q += 1;
    }
}

/// Overwrites part of the output with a rendered chunk, starting at
/// sample `dest`.
fn overwrite_into(out: &mut Vec<i32>, src: &Vec<i32>, dest: usize)
    requires
        dest + src.len() <= old(out).len(),
    ensures
        final(out).len() == old(out).len(),
        forall|k: int|
            dest <= k < dest + src.len() ==> #[trigger] final(out)@[k] == src@[k - dest],
        forall|k: int|
            0 <= k < old(out).len() && !(dest <= k < dest + src.len())
                ==> #[trigger] final(out)@[k] == old(out)@[k],
{
    let mut q: usize = 0;
    while q < src.len()
        invariant
            q <= src.len(),
            dest + src.len() <= out.len(),
            out.len() == old(out).len(),
            forall|k: int| dest <= k < dest + q ==> #[trigger] out@[k] == src@[k - dest],
            forall|k: int|
                0 <= k < out.len() && !(dest <= k < dest + q) ==> #[trigger] out@[k] == old(
                    out,
                )@[k],
        decreases src.len() - q,
    {
        let v = src[q];
        out.set(dest + q, v);
        q += 1;
    }
}


/// The gain the stored ramp table yields for a query time: segments are
/// anchored at the previous ramp point (starting from frame 0), and the
/// query interpolates within the segment it falls in.
pub open spec fn spec_gain_lookup(
    ramps: Seq<(u64, i64)>,
    volume: int,
    lasttime: int,
    time: int,
) -> int
    decreases ramps.len(),
{
    if ramps.len() == 0 {
        volume
    } else {
        let t = ramps[0].0 as int;
        let v = ramps[0].1 as int;
        if time < t {
            if t - lasttime <= 0 {
                volume
            } else {
                volume + div_trunc((v - volume) * (time - lasttime), t - lasttime)
            }
        } else {
            spec_gain_lookup(ramps.skip(1), v, t, time)
        }
    }
}

/// `post` is `pre` with `(frame, value)` inserted after every point at or
/// before `frame` and before every later point.
pub open spec fn ramp_inserted(
    pre: Seq<(u64, i64)>,
    frame: u64,
    value: i64,
    post: Seq<(u64, i64)>,
) -> bool {
    exists|idx: int|
        {
            &&& 0 <= idx <= pre.len()
            &&& (forall|k: int| 0 <= k < idx ==> (#[trigger] pre[k]).0 <= frame)
            &&& (forall|k: int| idx <= k < pre.len() ==> (#[trigger] pre[k]).0 > frame)
            &&& post == pre.insert(idx, (frame, value))
        }
}

/// The floored ramp duration: anything under 5 ms becomes 5 ms.
pub open spec fn spec_floored_duration(duration: Time, sr: int) -> Time {
    if crate::time::round_half_even(
        duration.frames * (crate::time::MICROS_PER_SECOND as int),
        sr,
    ) + duration.micros < 5000 {
        Time { frames: 0, micros: 5000 }
    } else {
        duration
    }
}


/// What one `set_volume` call does to a node's envelope: the returned end
/// time is the start plus the floored duration, and the new ramp list is
/// the old one with the pinned current gain inserted at the start frame
/// and the target inserted at the end frame.
pub open spec fn set_volume_post(
    pre: SchedulerSource,
    post: SchedulerSource,
    id: int,
    start: Time,
    volume: i64,
    duration: Time,
    end: Time,
) -> bool {
    let sr = pre.samplerate as int;
    let startf = spec_to_frames(start, sr) as u64;
    let d2 = spec_floored_duration(duration, sr);
    let endt = Time {
        frames: (start.frames + d2.frames) as u64,
        micros: (start.micros + d2.micros) as i64,
    };
    let endf = spec_to_frames(endt, sr) as u64;
    let g0 = spec_gain_lookup(
        pre.nodes[id].ramps@,
        pre.nodes[id].volume as int,
        0,
        startf as int,
    );
    &&& end == endt
    &&& exists|mid: Seq<(u64, i64)>|
        ramp_inserted(pre.nodes[id].ramps@, startf, g0 as i64, mid) && ramp_inserted(
            mid,
            endf,
            volume,
            post.nodes[id].ramps@,
        )
}

/// Inserts one ramp point, keeping the list sorted: the point lands after
/// every existing point at or before its frame.
fn insert_ramp(ramps: &mut Vec<(u64, i64)>, frame: u64, value: i64)
    requires
        ramps_wf(old(ramps)@),
        0 <= value <= VOL_MAX,
    ensures
        ramps_wf(final(ramps)@),
        final(ramps)@.len() == old(ramps)@.len() + 1,
        ramp_inserted(old(ramps)@, frame, value, final(ramps)@),
{
    let ghost pre = ramps@;
    let mut idx: usize = 0;
    while idx < ramps.len() && ramps[idx].0 <= frame
        invariant
            idx <= ramps.len(),
            ramps@ == pre,
            forall|k: int| 0 <= k < idx ==> (#[trigger] pre[k]).0 <= frame,
        decreases ramps.len() - idx,
    {
        idx += 1;
    }
    proof {
        assert forall|k: int| idx <= k < pre.len() implies (#[trigger] pre[k]).0 > frame by {
            if k == idx {
            } else {
                assert(pre[idx as int].0 <= pre[k].0);
            }
        }
    }
    ramps.insert(idx, (frame, value));
    proof {
        let post = ramps@;
        assert(post == pre.insert(idx as int, (frame, value)));
        assert forall|a: int, b: int| 0 <= a <= b < post.len() implies (#[trigger] post[a]).0
            <= (#[trigger] post[b]).0 by {
            if a < idx {
                assert(post[a] == pre[a]);
            }
            if b < idx {
                assert(post[b] == pre[b]);
            }
            if a > idx {
                assert(post[a] == pre[a - 1]);
            }
            if b > idx {
                assert(post[b] == pre[b - 1]);
            }
        }
        assert forall|a: int| 0 <= a < post.len() implies 0 <= (#[trigger] post[a]).1
            <= VOL_MAX by {
            if a < idx {
                assert(post[a] == pre[a]);
            }
            if a > idx {
                assert(post[a] == pre[a - 1]);
            }
        }
    }
}

impl Scheduler {
    /// Reformats the source to this scheduler's rate and channel count,
    /// queues it to start at `start`, and returns the end time where the
    /// (reformatted) length is known: exactly when the source's remaining
    /// length is known and the end frame is representable.
    pub fn add(&self, src: &mut SchedulerSource, start: Time, source: Source) -> (end: Option<
        Time,
    >)
        requires
            old(src).wf(),
            self.id < old(src).nodes.len(),
            self.samplerate == old(src).samplerate,
            self.channels == old(src).channels,
            source.wf(),
            source.sub_free(),
            source.spec_samplerate() >= 1,
            source.spec_channels() >= 1,
            0 <= spec_to_frames(start, old(src).samplerate as int) <= u64::MAX,
        ensures
            final(src).wf(),
            final(src).samplerate == old(src).samplerate,
            final(src).channels == old(src).channels,
            final(src).next_timer == old(src).next_timer,
            final(src).nodes.len() == old(src).nodes.len(),
            forall|j: int|
                0 <= j < old(src).nodes.len() && j != self.id ==> final(src).nodes[j] == old(
                    src,
                ).nodes[j],
            final(src).nodes[self.id as int].offset == old(src).nodes[self.id as int].offset,
            final(src).nodes[self.id as int].active == old(src).nodes[self.id as int].active,
            final(src).nodes[self.id as int].timers == old(src).nodes[self.id as int].timers,
            final(src).nodes[self.id as int].ramps == old(src).nodes[self.id as int].ramps,
            final(src).nodes[self.id as int].volume == old(src).nodes[self.id as int].volume,
            final(src).nodes[self.id as int].scheduled.len()
                == old(src).nodes[self.id as int].scheduled.len() + 1,
            ({
                let startf = spec_to_frames(start, old(src).samplerate as int);
                let queued = final(src).nodes[self.id as int].scheduled@.last();
                &&& queued.0 == startf
                &&& queued.1.spec_samplerate() == old(src).samplerate
                &&& queued.1.spec_channels() == old(src).channels
                &&& queued.1.spec_remaining() == (match source.spec_remaining() {
                    Some(n) => Some(
                        crate::source::spec_scale_len(
                            n,
                            source.spec_samplerate() as int,
                            old(src).samplerate as int,
                        ),
                    ),
                    None => None::<int>,
                })
                &&& (match queued.1.spec_remaining() {
                    Some(l) => if startf + l <= u64::MAX {
                        end == Some(Time { frames: (startf + l) as u64, micros: 0 as i64 })
                    } else {
                        end is None
                    },
                    None => end is None,
                })
            }),
    {
        let startf = start.to_frames(src.samplerate);
        let formatted = source.reformat(src.samplerate, src.channels);
        let len = formatted.len();
        let end = match len {
            Some(l) => {
                if l <= u64::MAX - startf {
                    Some(Time::frames(startf + l))
                } else {
                    None
                }
            },
            None => None,
        };
        let mut node = vec_replace(&mut src.nodes, self.id, empty_node(0));
        node.scheduled.push((startf, formatted));
        let replaced = vec_replace(&mut src.nodes, self.id, node);
        proof {
            lemma_tree_update_wf(*old(src), *src, self.id as int);
        }
        end
    }

    /// The gain the ramp table yields at `time`, interpolating inside the
    /// segment the query falls in.
    pub fn get_volume(&self, src: &SchedulerSource, time: Time) -> (g: i64)
        requires
            src.wf(),
            self.id < src.nodes.len(),
            self.samplerate == src.samplerate,
            0 <= spec_to_frames(time, src.samplerate as int) <= u64::MAX,
        ensures
            g == spec_gain_lookup(
                src.nodes[self.id as int].ramps@,
                src.nodes[self.id as int].volume as int,
                0,
                spec_to_frames(time, src.samplerate as int),
            ),
            0 <= g <= VOL_MAX,
    {
        let tf = time.to_frames(src.samplerate);
        let node = &src.nodes[self.id];
        let ghost all = node.ramps@;
        let mut vol: i64 = node.volume;
        let mut lasttime: u64 = 0;
        let mut idx: usize = 0;
        proof {
            assert(all.skip(0) =~= all);
        }
        loop
            invariant
                idx <= node.ramps.len(),
                node.ramps@ == all,
                self.id < src.nodes.len(),
                all == src.nodes[self.id as int].ramps@,
                node.volume == src.nodes[self.id as int].volume,
                tf == spec_to_frames(time, src.samplerate as int),
                ramps_wf(all),
                0 <= vol <= VOL_MAX,
                spec_gain_lookup(all.skip(idx as int), vol as int, lasttime as int, tf as int)
                    == spec_gain_lookup(all, node.volume as int, 0, tf as int),
                idx > 0 ==> lasttime == all[idx - 1].0,
                idx == 0 ==> lasttime == 0,
                idx > 0 ==> all[idx - 1].0 <= tf,
            ensures
                vol as int == spec_gain_lookup(all, node.volume as int, 0, tf as int),
                0 <= vol <= VOL_MAX,
            decreases node.ramps.len() - idx,
        {
            if idx == ramp_len(node) {
                proof {
                    assert(all.skip(idx as int).len() == 0);
                }
                break ;
            }
            proof {
                assert(all.skip(idx as int).skip(1) =~= all.skip(idx + 1));
            }
            let t = node.ramps[idx].0;
            let v = node.ramps[idx].1;
            proof {
                assert(all.skip(idx as int)[0] == all[idx as int]);
            }
            if tf < t {
                let g = if t <= lasttime {
                    vol
                } else {
                    interp_gain(vol, v, lasttime, t, tf)
                };
                proof {
                    assert(spec_gain_lookup(
                        all.skip(idx as int),
                        vol as int,
                        lasttime as int,
                        tf as int,
                    ) == g as int);
                }
                vol = g;
                // the remaining points all lie past the query
                proof {
                    assert(spec_gain_lookup(all, node.volume as int, 0, tf as int) == g as int);
                }
                return g;
            }
            vol = v;
            lasttime = t;
            idx += 1;
        }
        proof {
            assert(vol as int == spec_gain_lookup(all, node.volume as int, 0, tf as int));
            assert(tf == spec_to_frames(time, src.samplerate as int));
            assert(all == src.nodes[self.id as int].ramps@);
            assert(node.volume == src.nodes[self.id as int].volume);
        }
        vol
    }

    /// Inserts a gain ramp: the gain currently in force at `start` is
    /// pinned there, and the target gain is reached `duration` later
    /// (floored at 5 ms).  Returns the time the ramp completes.
    pub fn set_volume(&self, src: &mut SchedulerSource, start: Time, volume: i64, duration: Time) -> (end:
        Time)
        requires
            old(src).wf(),
            self.id < old(src).nodes.len(),
            self.samplerate == old(src).samplerate,
            self.channels == old(src).channels,
            0 <= volume <= VOL_MAX,
            duration.micros >= 0,
            0 <= spec_to_frames(start, old(src).samplerate as int) <= u64::MAX,
            start.frames + duration.frames <= u64::MAX,
            start.micros + duration.micros <= i64::MAX,
            start.micros + 5000 <= i64::MAX,
            0 <= spec_to_frames(
                Time { frames: (start.frames + duration.frames) as u64, micros: (start.micros
                    + duration.micros) as i64 },
                old(src).samplerate as int,
            ) <= u64::MAX,
            0 <= spec_to_frames(
                Time { frames: start.frames, micros: (start.micros + 5000) as i64 },
                old(src).samplerate as int,
            ) <= u64::MAX,
        ensures
            final(src).wf(),
            final(src).samplerate == old(src).samplerate,
            final(src).channels == old(src).channels,
            final(src).next_timer == old(src).next_timer,
            final(src).nodes.len() == old(src).nodes.len(),
            forall|j: int|
                0 <= j < old(src).nodes.len() && j != self.id ==> final(src).nodes[j] == old(
                    src,
                ).nodes[j],
            final(src).nodes[self.id as int].offset == old(src).nodes[self.id as int].offset,
            final(src).nodes[self.id as int].active == old(src).nodes[self.id as int].active,
            final(src).nodes[self.id as int].timers == old(src).nodes[self.id as int].timers,
            final(src).nodes[self.id as int].scheduled
                == old(src).nodes[self.id as int].scheduled,
            final(src).nodes[self.id as int].volume == old(src).nodes[self.id as int].volume,
            final(src).nodes[self.id as int].ramps@.len()
                == old(src).nodes[self.id as int].ramps@.len() + 2,
            set_volume_post(*old(src), *final(src), self.id as int, start, volume, duration, end),
    {
        let sr = src.samplerate;
        let total = duration.to_micros(sr);
        let dur2 = if total < 5000 {
            Time::micros(5000)
        } else {
            duration
        };
        let endt = start.add(dur2);
        let startf = start.to_frames(sr);
        let endf = endt.to_frames(sr);
        let g0 = self.get_volume(src, start);
        let mut node = vec_replace(&mut src.nodes, self.id, empty_node(0));
        insert_ramp(&mut node.ramps, startf, g0);
        let ghost mid = node.ramps@;
        insert_ramp(&mut node.ramps, endf, volume);
        let replaced = vec_replace(&mut src.nodes, self.id, node);
        proof {
            lemma_tree_update_wf(*old(src), *src, self.id as int);
            assert(ramp_inserted(
                old(src).nodes[self.id as int].ramps@,
                startf,
                g0,
                mid,
            ));
            assert(ramp_inserted(mid, endf, volume, src.nodes[self.id as int].ramps@));
            let ghost sr_s = old(src).samplerate as int;
            let ghost d2_s = spec_floored_duration(duration, sr_s);
            assert(dur2 == d2_s);
            assert(endt == Time {
                frames: (start.frames + d2_s.frames) as u64,
                micros: (start.micros + d2_s.micros) as i64,
            });
            assert(startf == spec_to_frames(start, sr_s) as u64);
            assert(endf == spec_to_frames(endt, sr_s) as u64);
            assert(g0 as int == spec_gain_lookup(
                old(src).nodes[self.id as int].ramps@,
                old(src).nodes[self.id as int].volume as int,
                0,
                startf as int,
            ));
            assert(set_volume_post(
                *old(src),
                *src,
                self.id as int,
                start,
                volume,
                duration,
                endt,
            ));
        }
        endt
    }
}

/// The number of ramp points a node holds.
fn ramp_len(node: &Node) -> (n: usize)
    ensures
        n == node.ramps.len(),
{
    node.ramps.len()
}

impl SchedulerSource {
    /// One pull of the mixer: fires every due timer of every node
    /// (discarding the ids) and renders one window from the root.  The
    /// result is empty exactly when the root, with its due timers gone, is
    /// idle (true end of stream) or its frame counter would overflow; a
    /// nonempty result is one whole window, the root's counter advances by
    /// it, and the root's window obeys the render contract (scheduled and
    /// ramp consumption, envelope-scaled samples, gain continuation).
    /// Callers that react to timers use `settle` and `render_node`
    /// directly, so woken work lands before the window renders.
    pub fn fill(&mut self, frames: usize) -> (out: Vec<i32>)
        requires
            old(self).wf(),
            1 <= frames <= MAX_FRAMES,
        ensures
            final(self).wf(),
            final(self).nodes.len() == old(self).nodes.len(),
            final(self).samplerate == old(self).samplerate,
            final(self).channels == old(self).channels,
            final(self).next_timer == old(self).next_timer,
            out.len() == 0 || out.len() == frames * old(self).channels,
            ({
                let n0 = old(self).nodes[0];
                let remaining = n0.timers@.filter(
                    |tm: (u64, u64)| !(tm.0 < window_end(n0.offset as int, frames as int)),
                );
                out.len() == 0 <==> ((n0.active.len() == 0 && n0.scheduled.len() == 0
                    && remaining.len() == 0) || n0.offset + frames > u64::MAX)
            }),
            out.len() == 0 ==> final(self).nodes.len() == old(self).nodes.len() && (forall|
                j: int,
            |
                0 <= j < old(self).nodes.len() ==> {
                    let pre = #[trigger] old(self).nodes[j];
                    let post = final(self).nodes[j];
                    &&& post.offset == pre.offset
                    &&& post.scheduled == pre.scheduled
                    &&& post.active == pre.active
                    &&& post.volume == pre.volume
                    &&& post.ramps == pre.ramps
                    &&& post.timers@ == pre.timers@.filter(
                        |tm: (u64, u64)| !(tm.0 < window_end(
                            pre.offset as int,
                            frames as int,
                        )),
                    )
                }),
            out.len() != 0 ==> ({
                let n0 = old(self).nodes[0];
                let end = n0.offset + frames;
                &&& final(self).nodes[0].offset == end
                &&& final(self).nodes[0].timers@ == n0.timers@.filter(
                    |tm: (u64, u64)| !(tm.0 < window_end(n0.offset as int, frames as int)),
                )
                &&& final(self).nodes[0].scheduled@ == n0.scheduled@.filter(
                    |e: (u64, Source)| e.0 >= end,
                )
                &&& final(self).nodes[0].ramps@ == n0.ramps@.filter(
                    |r: (u64, i64)| r.0 > end,
                )
                &&& final(self).nodes[0].volume == spec_env_gain(
                    n0.ramps@,
                    n0.volume as int,
                    n0.offset as int,
                    end as int,
                )
                &&& exists|premix: Seq<i32>|
                    premix.len() == out.len() && #[trigger] spec_mixed_window(
                        n0,
                        premix,
                        frames * (old(self).channels as int),
                        end as int,
                        old(self).channels as int,
                    ) && (forall|k: int|
                        0 <= k < out.len() ==> out@[k] == crate::samples::spec_apply_gain(
                            (premix[k]) as int,
                            spec_env_gain(
                                n0.ramps@,
                                n0.volume as int,
                                n0.offset as int,
                                n0.offset + k / (old(self).channels as int),
                            ),
                        ))
            }),
    {
        let ghost pre = *self;
        let fired = self.settle(frames);
        let ghost mid = *self;
        let out = self.render_node(0, frames);
        proof {
            assert(mid.nodes[0].offset == pre.nodes[0].offset);
            assert(mid.nodes[0].scheduled == pre.nodes[0].scheduled);
            assert(mid.nodes[0].active == pre.nodes[0].active);
            assert(mid.nodes[0].ramps == pre.nodes[0].ramps);
            assert(mid.nodes[0].volume == pre.nodes[0].volume);
            if out.len() != 0 {
                assert(render_node_post(
                    mid.nodes[0],
                    self.nodes[0],
                    out@,
                    frames as int,
                    pre.channels as int,
                ));
                let n0 = pre.nodes[0];
                let mnode = mid.nodes[0];
                let chi = pre.channels as int;
                let endq = mnode.offset + frames as int;
                let wantq = frames as int * chi;
                let pm = choose|premix: Seq<i32>|
                    premix.len() == out@.len() && #[trigger] spec_mixed_window(
                        mnode,
                        premix,
                        wantq,
                        endq,
                        chi,
                    ) && (forall|k: int|
                        0 <= k < out@.len() ==> out@[k] == crate::samples::spec_apply_gain(
                            (premix[k]) as int,
                            spec_env_gain(
                                mnode.ramps@,
                                mnode.volume as int,
                                mnode.offset as int,
                                mnode.offset + k / chi,
                            ),
                        ));
                assert(spec_mixed_window(mnode, pm, wantq, endq, chi));
                let wv = choose|w: (Seq<Seq<i32>>, Seq<Source>, Seq<Seq<i32>>, Seq<Source>)|
                    window_witness(mnode, pm, wantq, endq, chi, w.0, w.1, w.2, w.3);
                assert(window_witness(mnode, pm, wantq, endq, chi, wv.0, wv.1, wv.2, wv.3));
                assert(n0.active == mnode.active && n0.scheduled == mnode.scheduled
                    && n0.offset == mnode.offset);
                assert(window_witness(n0, pm, wantq, endq, chi, wv.0, wv.1, wv.2, wv.3));
                assert(spec_mixed_window(n0, pm, wantq, endq, chi));
            }
        }
        out
    }

    /// A live mixer cannot be repositioned.
    pub fn seek(&mut self, frame: u64) -> (r: Result<(), SourceError>)
        ensures
            r is Err,
            *final(self) == *old(self),
    {
        Err(SourceError::NotSeekable)
    }
}

} // verus!
