use vstd::prelude::*;

verus! {

/// One million microseconds in a second; also the denominator of all
/// microsecond-to-frame conversions.
pub const MICROS_PER_SECOND: u64 = 1_000_000;

/// A point (or span) on the output timeline: an exact frame count plus a
/// signed offset measured in microseconds.  The microsecond part is converted
/// to frames only once a sample rate is known.
#[derive(Clone, Copy, Debug, PartialEq, Eq, Structural)]
pub struct Time {
    /// Whole output frames.
    pub frames: u64,
    /// Signed offset in microseconds, added to `frames` at conversion time.
    pub micros: i64,
}

/// Rounds `n / d` to the nearest integer, ties to even (banker's rounding).
pub open spec fn round_half_even(n: int, d: int) -> int
    recommends
        n >= 0,
        d > 0,
{
    let q = n / d;
    let r = n % d;
    if 2 * r < d {
        q
    } else if 2 * r > d {
        q + 1
    } else if q % 2 == 0 {
        q
    } else {
        q + 1
    }
}

/// The frame index that a `Time` denotes at sample rate `sr`: the whole
/// frames plus the microsecond part scaled by `sr`, rounded half to even.
pub open spec fn spec_to_frames(t: Time, sr: int) -> int
    recommends
        sr > 0,
{
    if t.micros >= 0 {
        t.frames + round_half_even(t.micros * sr, MICROS_PER_SECOND as int)
    } else {
        t.frames - round_half_even((-t.micros) * sr, MICROS_PER_SECOND as int)
    }
}

/// Rounded division, exec form, proved equal to `round_half_even`.
fn div_round_half_even(n: u128, d: u128) -> (r: u128)
    requires
        0 < d <= u64::MAX,
        n <= u64::MAX as u128 * u64::MAX as u128,
    ensures
        r == round_half_even(n as int, d as int),
{
    let q = n / d;
    let rem = n % d;
    if rem < d - rem {
        q
    } else if rem > d - rem {
        q + 1
    } else if q % 2 == 0 {
        q
    } else {
        q + 1
    }
}

impl Time {
    /// A time of exactly `frames` output frames.
    pub fn frames(frames: u64) -> (t: Time)
        ensures
            t.frames == frames,
            t.micros == 0,
    {
        Time { frames, micros: 0 }
    }

    /// A time of `seconds` whole seconds.
    pub fn seconds(seconds: i64) -> (t: Time)
        requires
            -9_000_000_000_000 <= seconds <= 9_000_000_000_000,
        ensures
            t.frames == 0,
            t.micros == seconds * MICROS_PER_SECOND,
    {
        Time { frames: 0, micros: seconds * 1_000_000 }
    }

    /// A time of `micros` microseconds.
    pub fn micros(micros: i64) -> (t: Time)
        ensures
            t.frames == 0,
            t.micros == micros,
    {
        Time { frames: 0, micros }
    }

    /// The frame index this time denotes at sample rate `sr`, rounding the
    /// microsecond part half to even.
    pub fn to_frames(&self, sr: u32) -> (r: u64)
        requires
            sr > 0,
            0 <= spec_to_frames(*self, sr as int) <= u64::MAX,
        ensures
            r == spec_to_frames(*self, sr as int),
    {
        if self.micros >= 0 {
            let extra = div_round_half_even(
                self.micros as u128 * sr as u128,
                MICROS_PER_SECOND as u128,
            );
            proof {
                lemma_round_div_bound(self.micros * sr, MICROS_PER_SECOND as int);
            }
            self.frames + (extra as u64)
        } else {
            let neg = (-(self.micros as i128)) as u128;
            let less = div_round_half_even(neg * sr as u128, MICROS_PER_SECOND as u128);
            proof {
                lemma_round_div_bound((-self.micros) * sr, MICROS_PER_SECOND as int);
            }
            self.frames - (less as u64)
        }
    }

    /// Total microseconds this time denotes at sample rate `sr` (the frame
    /// part converted at `sr`, rounded half to even, plus the offset).
    pub fn to_micros(&self, sr: u32) -> (r: i128)
        requires
            sr > 0,
        ensures
            r == round_half_even(self.frames * MICROS_PER_SECOND, sr as int) + self.micros,
    {
        let from_frames = div_round_half_even(
            self.frames as u128 * MICROS_PER_SECOND as u128,
            sr as u128,
        );
        proof {
            lemma_round_div_bound(self.frames * MICROS_PER_SECOND, sr as int);
        }
        from_frames as i128 + self.micros as i128
    }

    /// The sum of two times, part by part.
    pub fn add(self, rhs: Time) -> (t: Time)
        requires
            self.frames + rhs.frames <= u64::MAX,
            i64::MIN <= self.micros + rhs.micros <= i64::MAX,
        ensures
            t.frames == self.frames + rhs.frames,
            t.micros == self.micros + rhs.micros,
    {
        Time { frames: self.frames + rhs.frames, micros: self.micros + rhs.micros }
    }

    /// The difference of two times, part by part.
    pub fn sub(self, rhs: Time) -> (t: Time)
        requires
            rhs.frames <= self.frames,
            i64::MIN <= self.micros - rhs.micros <= i64::MAX,
        ensures
            t.frames == self.frames - rhs.frames,
            t.micros == self.micros - rhs.micros,
    {
        Time { frames: self.frames - rhs.frames, micros: self.micros - rhs.micros }
    }

    /// The sum of a time and a span in microseconds.
    pub fn add_micros(self, us: i64) -> (t: Time)
        requires
            i64::MIN <= self.micros + us <= i64::MAX,
        ensures
            t.frames == self.frames,
            t.micros == self.micros + us,
    {
        Time { frames: self.frames, micros: self.micros + us }
    }

    /// The difference of a time and a span in microseconds.
    pub fn sub_micros(self, us: i64) -> (t: Time)
        requires
            i64::MIN <= self.micros - us <= i64::MAX,
        ensures
            t.frames == self.frames,
            t.micros == self.micros - us,
    {
        Time { frames: self.frames, micros: self.micros - us }
    }
}

/// Rounding half to even lands within half a divisor of the exact quotient:
/// `|round_half_even(n, d) * d - n| <= d / 2`.
pub proof fn lemma_round_div_bound(n: int, d: int)
    requires
        n >= 0,
        d > 0,
    ensures
        2 * (round_half_even(n, d) * d - n) <= d,
        2 * (n - round_half_even(n, d) * d) <= d,
        round_half_even(n, d) >= 0,
        round_half_even(n, d) <= n,
{
    let q = n / d;
    let r = n % d;
    vstd::arithmetic::div_mod::lemma_fundamental_div_mod(n, d);
    vstd::arithmetic::div_mod::lemma_div_is_ordered_by_denominator(n, 1, d);
    vstd::arithmetic::div_mod::lemma_div_by_multiple(n, 1);
    assert(n == d * q + r);
    assert(0 <= r < d);
    assert(q >= 0) by (nonlinear_arith)
        requires
            n >= 0,
            d > 0,
            n == d * q + r,
            0 <= r < d,
    ;
    assert(q * d == d * q) by (nonlinear_arith);
    assert((q + 1) * d == d * q + d) by (nonlinear_arith);
    if d == 1 {
        assert(r == 0);
        assert(round_half_even(n, d) == q);
        assert(q == n);
    } else {
        assert(d >= 2);
        assert(n >= 2 * q + r) by (nonlinear_arith)
            requires
                n == d * q + r,
                d >= 2,
                q >= 0,
                r >= 0,
        ;
        if 2 * r >= d {
            assert(r >= 1);
            assert(q + 1 <= n);
        }
    }
}

/// Time round-trip: converting a whole-microsecond time to frames at rate
/// `sr` lands within one frame of the exact value `us * sr / 1_000_000`;
/// that is, `to_frames(sr)` differs from the real-valued product by at most
/// half a frame, so seconds reconstructed from it are within `1/sr` of the
/// original.
pub proof fn lemma_seconds_to_frames_round_trip(us: i64, sr: u32)
    requires
        us >= 0,
        sr > 0,
    ensures
        2 * MICROS_PER_SECOND * spec_to_frames(Time { frames: 0, micros: us }, sr as int)
            <= 2 * us * sr + MICROS_PER_SECOND,
        2 * MICROS_PER_SECOND * spec_to_frames(Time { frames: 0, micros: us }, sr as int)
            >= 2 * us * sr - MICROS_PER_SECOND,
{
    let m = MICROS_PER_SECOND as int;
    let t = Time { frames: 0, micros: us };
    let f = spec_to_frames(t, sr as int);
    lemma_round_div_bound(us * sr, m);
    assert(f == round_half_even(us * sr, m));
    assert(2 * (f * m - us * sr) <= m);
    assert(2 * (us * sr - f * m) <= m);
    assert(2 * m * f == 2 * (f * m)) by (nonlinear_arith);
    assert(2 * us * sr == 2 * (us * sr)) by (nonlinear_arith);
}

} // verus!
