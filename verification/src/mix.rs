use vstd::prelude::*;
use crate::samples::{clamp_sample, div_trunc, COEF_UNIT};

verus! {

/// A mix matrix is well formed for `out_ch` output and `in_ch` input
/// channels when it has that shape and every coefficient is at most 1.0 in
/// magnitude.
pub open spec fn matrix_wf(m: Seq<Seq<i64>>, out_ch: int, in_ch: int) -> bool {
    &&& m.len() == out_ch
    &&& forall|i: int|
        0 <= i < out_ch ==> {
            &&& (#[trigger] m[i]).len() == in_ch
            &&& forall|j: int| 0 <= j < in_ch ==> -COEF_UNIT <= #[trigger] m[i][j] <= COEF_UNIT
        }
}

/// The pseudo-identity matrix: ones down the diagonal up to
/// `min(out_ch, in_ch)`, zero elsewhere.
pub open spec fn pseudo_identity(out_ch: int, in_ch: int) -> Seq<Seq<i64>> {
    Seq::new(
        out_ch as nat,
        |i: int| Seq::new(in_ch as nat, |j: int| if i == j { COEF_UNIT } else { 0i64 }),
    )
}

/// The canonical mix matrix for a pair of channel layouts: averaging
/// down-mix and duplicating up-mix between mono and stereo, the ATSC
/// coefficients between 5.1 and stereo (and their pseudo-inverses), their
/// compositions between 5.1 and mono, and the pseudo-identity for any other
/// pair.
pub open spec fn spec_find_mix(out_ch: int, in_ch: int) -> Seq<Seq<i64>> {
    if out_ch == 1 && in_ch == 2 {
        seq![seq![50_000_000i64, 50_000_000]]
    } else if out_ch == 2 && in_ch == 1 {
        seq![seq![100_000_000i64], seq![100_000_000i64]]
    } else if out_ch == 2 && in_ch == 6 {
        seq![
            seq![100_000_000i64, 0, 70_700_000, 0, 70_700_000, 0],
            seq![0i64, 100_000_000, 70_700_000, 0, 0, 70_700_000],
        ]
    } else if out_ch == 6 && in_ch == 2 {
        seq![
            seq![53_340_314i64, -13_333_065i64],
            seq![-13_333_065i64, 53_340_314i64],
            seq![28_285_125i64, 28_285_125],
            seq![0i64, 0],
            seq![37_711_602i64, -9_426_477i64],
            seq![-9_426_477i64, 37_711_602i64],
        ]
    } else if out_ch == 1 && in_ch == 6 {
        seq![seq![50_000_000i64, 50_000_000, 70_700_000, 0, 35_350_000, 35_350_000]]
    } else if out_ch == 6 && in_ch == 1 {
        seq![
            seq![40_007_249i64],
            seq![40_007_249i64],
            seq![56_570_251i64],
            seq![0i64],
            seq![28_285_125i64],
            seq![28_285_125i64],
        ]
    } else {
        pseudo_identity(out_ch, in_ch)
    }
}

/// The canonical matrix always has shape `(out_ch, in_ch)` with bounded
/// coefficients.
pub proof fn lemma_find_mix_wf(out_ch: int, in_ch: int)
    requires
        out_ch >= 0,
        in_ch >= 0,
    ensures
        matrix_wf(spec_find_mix(out_ch, in_ch), out_ch, in_ch),
{
}

/// Builds the canonical mix matrix between the `old` input and `new` output
/// channel layouts.
pub fn find_mix(new: u16, old: u16) -> (m: Vec<Vec<i64>>)
    ensures
        m.deep_view() == spec_find_mix(new as int, old as int),
        matrix_wf(m.deep_view(), new as int, old as int),
{
    let target: Ghost<Seq<Seq<i64>>> = Ghost(spec_find_mix(new as int, old as int));
    let m: Vec<Vec<i64>> = if new == 1 && old == 2 {
        vec![vec![50_000_000i64, 50_000_000]]
    } else if new == 2 && old == 1 {
        vec![vec![100_000_000i64], vec![100_000_000i64]]
    } else if new == 2 && old == 6 {
        vec![
            vec![100_000_000i64, 0, 70_700_000, 0, 70_700_000, 0],
            vec![0i64, 100_000_000, 70_700_000, 0, 0, 70_700_000],
        ]
    } else if new == 6 && old == 2 {
        vec![
            vec![53_340_314i64, -13_333_065],
            vec![-13_333_065i64, 53_340_314],
            vec![28_285_125i64, 28_285_125],
            vec![0i64, 0],
            vec![37_711_602i64, -9_426_477],
            vec![-9_426_477i64, 37_711_602],
        ]
    } else if new == 1 && old == 6 {
        vec![vec![50_000_000i64, 50_000_000, 70_700_000, 0, 35_350_000, 35_350_000]]
    } else if new == 6 && old == 1 {
        vec![
            vec![40_007_249i64],
            vec![40_007_249i64],
            vec![56_570_251i64],
            vec![0i64],
            vec![28_285_125i64],
            vec![28_285_125i64],
        ]
    } else {
        let mut rows: Vec<Vec<i64>> = Vec::new();
        let mut i: usize = 0;
        while i < new as usize
            invariant
                i <= new as int,
                rows.len() == i,
                rows.deep_view() =~= pseudo_identity(new as int, old as int).take(i as int),
            decreases new as int - i,
        {
            let mut row: Vec<i64> = Vec::new();
            let mut j: usize = 0;
            while j < old as usize
                invariant
                    j <= old as int,
                    row@ =~= Seq::new(
                        j as nat,
                        |k: int| if i == k { COEF_UNIT } else { 0i64 },
                    ),
                decreases old as int - j,
            {
                if i == j {
                    row.push(COEF_UNIT);
                } else {
                    row.push(0);
                }
                j += 1;
            }
            proof {
                assert(row@ =~= pseudo_identity(new as int, old as int)[i as int]);
            }
            let ghost rowg = row;
            let ghost prev = rows.deep_view();
            let ghost prevv = rows@;
            rows.push(row);
            proof {
                assert(rows@ == prevv.push(rowg));
                assert(forall|k: int| 0 <= k < i ==> #[trigger] rows@[k] == prevv[k]);
                assert(rows@[i as int] == rowg);
                assert(forall|k: int| 0 <= k < i ==> #[trigger] prev[k] == prevv[k].deep_view());
                assert(rows.deep_view() =~~= pseudo_identity(new as int, old as int).take(
                    i + 1,
                ));
            }
            i += 1;
        }
        proof {
            assert(rows.deep_view() =~~= pseudo_identity(new as int, old as int));
        }
        rows
    };
    proof {
        assert(m.deep_view() =~~= target@);
    }
    m
}

/// The dot product of the first `n` coefficient/sample pairs.
pub open spec fn spec_dot(row: Seq<i64>, xs: Seq<i32>, n: int) -> int
    decreases n,
{
    if n <= 0 {
        0
    } else {
        spec_dot(row, xs, n - 1) + row[n - 1] * xs[n - 1]
    }
}

/// A dot product of `n` bounded coefficients with samples stays within
/// `n * COEF_UNIT * |i32|`.
pub proof fn lemma_dot_bound(row: Seq<i64>, xs: Seq<i32>, n: int)
    requires
        0 <= n <= row.len(),
        n <= xs.len(),
        forall|j: int| 0 <= j < n ==> -COEF_UNIT <= #[trigger] row[j] <= COEF_UNIT,
    ensures
        -n * 214_748_364_800_000_000 <= spec_dot(row, xs, n) <= n * 214_748_364_800_000_000,
    decreases n,
{
    if n > 0 {
        lemma_dot_bound(row, xs, n - 1);
        let c = row[n - 1] as int;
        let x = xs[n - 1] as int;
        assert(-214_748_364_800_000_000 <= c * x <= 214_748_364_800_000_000) by (nonlinear_arith)
            requires
                -COEF_UNIT <= c <= COEF_UNIT,
                i32::MIN <= x <= i32::MAX,
        ;
        assert(n * 214_748_364_800_000_000 == (n - 1) * 214_748_364_800_000_000
            + 214_748_364_800_000_000) by (nonlinear_arith);
    }
}

/// One output sample of a remix: the dot product of matrix row `i` with
/// frame `f` of the input, scaled down from coefficient fixed point and
/// clamped.
pub open spec fn spec_remix_sample(
    m: Seq<Seq<i64>>,
    input: Seq<i32>,
    in_ch: int,
    f: int,
    i: int,
) -> int {
    clamp_sample(
        div_trunc(spec_dot(m[i], input.skip(f * in_ch), in_ch), COEF_UNIT as int),
    )
}

/// Applies a mix matrix to `frames` interleaved input frames, producing
/// interleaved output frames.
pub fn remix_buffer(m: &Vec<Vec<i64>>, input: &Vec<i32>, in_ch: u16, out_ch: u16, frames: usize) -> (out: Vec<
    i32,
>)
    requires
        matrix_wf(m.deep_view(), out_ch as int, in_ch as int),
        in_ch >= 1,
        out_ch >= 1,
        frames * in_ch <= input.len(),
        frames * out_ch <= usize::MAX,
    ensures
        out.len() == frames * out_ch,
        forall|idx: int|
            0 <= idx < out.len() ==> #[trigger] out@[idx] == spec_remix_sample(
                m.deep_view(),
                input@,
                in_ch as int,
                idx / (out_ch as int),
                idx % (out_ch as int),
            ),
{
    let ghost md = m.deep_view();
    let mut out: Vec<i32> = Vec::new();
    let mut f: usize = 0;
    while f < frames
        invariant
            f <= frames,
            out.len() == f * out_ch,
            matrix_wf(md, out_ch as int, in_ch as int),
            md == m.deep_view(),
            in_ch >= 1,
            out_ch >= 1,
            frames * in_ch <= input.len(),
            frames * out_ch <= usize::MAX,
            forall|idx: int|
                0 <= idx < out.len() ==> #[trigger] out@[idx] == spec_remix_sample(
                    md,
                    input@,
                    in_ch as int,
                    idx / (out_ch as int),
                    idx % (out_ch as int),
                ),
        decreases frames - f,
    {
        proof {
            assert((f + 1) * (in_ch as int) <= frames * (in_ch as int)) by (nonlinear_arith)
                requires
                    f < frames,
                    in_ch >= 1,
            ;
            assert((f + 1) * (out_ch as int) <= frames * (out_ch as int)) by (nonlinear_arith)
                requires
                    f < frames,
                    out_ch >= 1,
            ;
            assert(f * (in_ch as int) >= 0 && f * (in_ch as int) + in_ch == (f + 1) * (
            in_ch as int)) by (nonlinear_arith)
                requires
                    f >= 0,
            ;
            assert(f * (out_ch as int) >= 0 && f * (out_ch as int) + out_ch == (f + 1) * (
            out_ch as int)) by (nonlinear_arith)
                requires
                    f >= 0,
            ;
        }
        let base_in: usize = f * in_ch as usize;
        let mut i: usize = 0;
        while i < out_ch as usize
            invariant
                i <= out_ch,
                f < frames,
                out.len() == f * out_ch + i,
                matrix_wf(md, out_ch as int, in_ch as int),
                md == m.deep_view(),
                in_ch >= 1,
                out_ch >= 1,
                frames * in_ch <= input.len(),
                frames * out_ch <= usize::MAX,
                (f + 1) * (in_ch as int) <= frames * (in_ch as int),
                (f + 1) * (out_ch as int) <= frames * (out_ch as int),
                f * (in_ch as int) >= 0,
                f * (in_ch as int) + in_ch <= input.len(),
                f * (out_ch as int) >= 0,
                base_in == f * in_ch,
                forall|idx: int|
                    0 <= idx < out.len() ==> #[trigger] out@[idx] == spec_remix_sample(
                        md,
                        input@,
                        in_ch as int,
                        idx / (out_ch as int),
                        idx % (out_ch as int),
                    ),
            decreases out_ch - i,
        {
            let row: &Vec<i64> = &m[i];
            let ghost tail = input@.skip(f * in_ch as int);
            let mut acc: i128 = 0;
            let mut j: usize = 0;
            while j < in_ch as usize
                invariant
                    j <= in_ch,
                    f < frames,
                    i < out_ch,
                    matrix_wf(md, out_ch as int, in_ch as int),
                    md == m.deep_view(),
                    in_ch >= 1,
                    frames * in_ch <= input.len(),
                    (f + 1) * (in_ch as int) <= frames * (in_ch as int),
                    f * (in_ch as int) >= 0,
                    f * (in_ch as int) + in_ch <= input.len(),
                    base_in == f * in_ch,
                    row@ == md[i as int],
                    tail == input@.skip(f * (in_ch as int)),
                    acc == spec_dot(md[i as int], tail, j as int),
                    -(j as int) * 214_748_364_800_000_000 <= acc <= (j as int) * (
                    214_748_364_800_000_000),
                decreases in_ch - j,
            {
                let c: i64 = row[j];
                let x: i32 = input[base_in + j];
                proof {
                    assert(tail.len() == input@.len() - f * (in_ch as int));
                    lemma_dot_bound(md[i as int], tail, j + 1);
                    assert(tail[j as int] == input@[f * (in_ch as int) + j]);
                    assert(c == md[i as int][j as int] && x == tail[j as int]);
                    assert(-214_748_364_800_000_000 <= c as int * x as int
                        <= 214_748_364_800_000_000) by (nonlinear_arith)
                        requires
                            -COEF_UNIT <= c <= COEF_UNIT,
                            i32::MIN <= x <= i32::MAX,
                    ;
                    assert(acc + c as int * x as int == spec_dot(md[i as int], tail, j + 1));
                }
                acc = acc + c as i128 * x as i128;
                j += 1;
            }
            let scaled: i128 = if acc >= 0 {
                acc / COEF_UNIT as i128
            } else {
                -((-acc) / COEF_UNIT as i128)
            };
            let sample: i32 = if scaled > i32::MAX as i128 {
                i32::MAX
            } else if scaled < i32::MIN as i128 {
                i32::MIN
            } else {
                scaled as i32
            };
            proof {
                assert(sample == spec_remix_sample(md, input@, in_ch as int, f as int, i as int));
                vstd::arithmetic::div_mod::lemma_fundamental_div_mod_converse(
                    f * (out_ch as int) + i,
                    out_ch as int,
                    f as int,
                    i as int,
                );
                assert((f * (out_ch as int) + i) / (out_ch as int) == f);
                assert((f * (out_ch as int) + i) % (out_ch as int) == i);
            }
            out.push(sample);
            i += 1;
        }
        f += 1;
        proof {
            assert(out.len() == f * out_ch) by (nonlinear_arith)
                requires
                    out.len() == (f - 1) * (out_ch as int) + out_ch,
            ;
        }
    }
    out
}

/// Reading a remixed buffer frame by frame: sample `i` of frame `f` sits at
/// flat index `f * out_ch + i` and is the remix of input frame `f`.
pub proof fn lemma_remix_index(out_ch: int, f: int, i: int)
    requires
        out_ch >= 1,
        0 <= i < out_ch,
        f >= 0,
    ensures
        (f * out_ch + i) / out_ch == f,
        (f * out_ch + i) % out_ch == i,
{
    vstd::arithmetic::div_mod::lemma_fundamental_div_mod_converse(
        f * out_ch + i,
        out_ch,
        f,
        i,
    );
}

/// Identity remix: the pseudo-identity matrix for `n` channels reproduces
/// every frame exactly.
pub proof fn lemma_identity_remix(input: Seq<i32>, n: int, f: int, i: int)
    requires
        n >= 1,
        0 <= i < n,
        f >= 0,
        (f + 1) * n <= input.len(),
    ensures
        spec_remix_sample(pseudo_identity(n, n), input, n, f, i) == input[f * n + i],
{
    let m = pseudo_identity(n, n);
    let tail = input.skip(f * n);
    assert(f * n >= 0) by (nonlinear_arith)
        requires
            f >= 0,
            n >= 1,
    ;
    assert(f * n + n <= input.len()) by (nonlinear_arith)
        requires
            (f + 1) * n <= input.len(),
    ;
    lemma_dot_identity_row(m[i], tail, n, i);
    assert(tail[i] == input[f * n + i]);
    let x = input[f * n + i] as int;
    assert(div_trunc(COEF_UNIT as int * x, COEF_UNIT as int) == x) by {
        if x >= 0 {
            assert(COEF_UNIT as int * x >= 0) by (nonlinear_arith)
                requires
                    x >= 0,
            ;
            assert(COEF_UNIT as int * x / COEF_UNIT as int == x) by (nonlinear_arith)
                requires
                    x >= 0,
            ;
        } else {
            assert(COEF_UNIT as int * x < 0) by (nonlinear_arith)
                requires
                    x < 0,
            ;
            assert(-(COEF_UNIT as int * x) == COEF_UNIT as int * (-x)) by (nonlinear_arith);
            assert(COEF_UNIT as int * (-x) / COEF_UNIT as int == -x) by (nonlinear_arith)
                requires
                    x < 0,
            ;
        }
    };
}

/// The dot product of an identity row with a frame selects the sample at
/// the row's index, scaled by the coefficient unit.
proof fn lemma_dot_identity_row(row: Seq<i64>, xs: Seq<i32>, n: int, i: int)
    requires
        0 <= i < row.len(),
        n <= xs.len(),
        n <= row.len(),
        forall|j: int| 0 <= j < row.len() ==> #[trigger] row[j] == if j == i {
            COEF_UNIT
        } else {
            0i64
        },
    ensures
        spec_dot(row, xs, n) == if i < n {
            COEF_UNIT as int * xs[i]
        } else {
            0
        },
    decreases n,
{
    if n > 0 {
        lemma_dot_identity_row(row, xs, n - 1, i);
    }
}

} // verus!
