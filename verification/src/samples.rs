use vstd::prelude::*;

verus! {

/// Full scale of a sample: the integer standing for an amplitude of 1.0.
/// Samples are fixed-point values in `[-SAMPLE_UNIT, SAMPLE_UNIT]`.
pub const SAMPLE_UNIT: i32 = 16_777_216;

/// Full scale of a gain: the integer standing for a gain of 1.0.  Gains are
/// fixed-point values in millionths.
pub const VOL_UNIT: i64 = 1_000_000;

/// The largest gain a volume ramp or wrapper may carry (a factor of 1000).
pub const VOL_MAX: i64 = 1_000_000_000;

/// Full scale of a mix-matrix coefficient: the integer standing for 1.0.
pub const COEF_UNIT: i64 = 100_000_000;

/// Truncating division (toward zero), matching Rust's `/` on signed values.
pub open spec fn div_trunc(n: int, d: int) -> int
    recommends
        d > 0,
{
    if n >= 0 {
        n / d
    } else {
        -((-n) / d)
    }
}

/// A sample clamped to the valid range `[i32::MIN, i32::MAX]`.
pub open spec fn clamp_sample(v: int) -> int {
    if v > i32::MAX {
        i32::MAX as int
    } else if v < i32::MIN {
        i32::MIN as int
    } else {
        v
    }
}

/// The sum of two samples, clamped: how sources mix into one output.
pub open spec fn spec_mix_add(a: int, b: int) -> int {
    clamp_sample(a + b)
}

/// A sample scaled by a fixed-point gain in millionths, truncated and
/// clamped.
pub open spec fn spec_apply_gain(s: int, gain: int) -> int {
    clamp_sample(div_trunc(s * gain, VOL_UNIT as int))
}

/// Adds two samples with saturation.
pub fn mix_add(a: i32, b: i32) -> (r: i32)
    ensures
        r == spec_mix_add(a as int, b as int),
{
    let wide: i64 = a as i64 + b as i64;
    if wide > i32::MAX as i64 {
        i32::MAX
    } else if wide < i32::MIN as i64 {
        i32::MIN
    } else {
        wide as i32
    }
}

/// Scales a sample by a gain in millionths, saturating at full range.
pub fn apply_gain(s: i32, gain: i64) -> (r: i32)
    requires
        0 <= gain <= VOL_MAX,
    ensures
        r == spec_apply_gain(s as int, gain as int),
{
    proof {
        assert(-2_200_000_000_000_000_000 <= s as int * gain as int
            <= 2_200_000_000_000_000_000) by (nonlinear_arith)
            requires
                i32::MIN <= s as int <= i32::MAX,
                0 <= gain as int <= VOL_MAX,
        ;
    }
    let wide: i64 = s as i64 * gain;
    let scaled: i64 = if wide >= 0 {
        wide / VOL_UNIT
    } else {
        -((-wide) / VOL_UNIT)
    };
    if scaled > i32::MAX as i64 {
        i32::MAX
    } else if scaled < i32::MIN as i64 {
        i32::MIN
    } else {
        scaled as i32
    }
}

/// A gain of exactly 1.0 leaves every sample unchanged.
pub proof fn lemma_unit_gain_identity(s: int)
    requires
        i32::MIN <= s <= i32::MAX,
    ensures
        spec_apply_gain(s, VOL_UNIT as int) == s,
{
    let m = VOL_UNIT as int;
    if s >= 0 {
        assert(s * m / m == s) by (nonlinear_arith)
            requires
                s >= 0,
                m > 0,
        ;
    } else {
        assert(-(s * m) == (-s) * m) by (nonlinear_arith);
        assert((-s) * m / m == -s) by (nonlinear_arith)
            requires
                s < 0,
                m > 0,
        ;
    }
}

} // verus!
