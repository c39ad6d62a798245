use vstd::prelude::*;
use crate::context::{check_selection, range_len, selection_error, ObsContext, WORDS_PER_SAMPLE};
use crate::cube::Cube;
use crate::flag_array::{ndarray_shape_fits, nonzero_len, FlagArray};
use crate::error::BirliError;
use std::ops::Range;

verus! {

/// The eight words of baseline `bl`, fine channel `f` in an HDU buffer laid
/// out as (baseline, fine channel, polarization, real/imaginary).
pub open spec fn hdu_sample<W>(hdu: Seq<W>, num_fine: int, bl: int, f: int) -> Seq<W> {
    hdu.subrange((bl * num_fine + f) * 8, (bl * num_fine + f) * 8 + 8)
}

/// The sample a cube cell takes from the read of its HDU: the buffer's words
/// when the read succeeded, the fill value otherwise.
pub open spec fn read_sample<W>(read: Option<Vec<W>>, num_fine: int, bl: int, f: int, fill: W) -> Seq<
    W,
> {
    match read {
        Some(hdu) => hdu_sample(hdu@, num_fine, bl, f),
        None => Seq::new(8, |_i: int| fill),
    }
}

/// `c` lies in the fine channels of coarse channel `cc`.
pub open spec fn in_coarse_chan(c: int, cc: int, num_fine: int) -> bool {
    cc * num_fine <= c < cc * num_fine + num_fine
}

pub proof fn lemma_coarse_chan_of(c: int, cc: int, num_fine: int)
    requires
        0 <= cc,
        in_coarse_chan(c, cc, num_fine),
    ensures
        c / num_fine == cc,
        c % num_fine == c - cc * num_fine,
{
    vstd::arithmetic::div_mod::lemma_fundamental_div_mod_converse(c, num_fine, cc, c - cc * num_fine);
}

/// A channel below coarse channel `cc`'s block lies in a lower coarse channel.
proof fn lemma_below_coarse_chan(c: int, cc: int, num_fine: int)
    requires
        0 <= c < cc * num_fine,
        num_fine > 0,
    ensures
        c / num_fine < cc,
{
    vstd::arithmetic::div_mod::lemma_div_is_ordered(c, cc * num_fine - 1, num_fine);
    vstd::arithmetic::div_mod::lemma_div_multiples_vanish_fancy(cc - 1, num_fine - 1, num_fine);
    assert((cc - 1) * num_fine + (num_fine - 1) == cc * num_fine - 1) by (nonlinear_arith);
}

proof fn lemma_hdu_sample_bounds(nb: int, num_fine: int, bl: int, f: int)
    requires
        0 <= bl < nb,
        0 <= f < num_fine,
    ensures
        0 <= bl * num_fine <= bl * num_fine + f,
        0 <= (bl * num_fine + f) * 8,
        (bl * num_fine + f) * 8 + 8 <= nb * num_fine * 8,
{
    assert(0 <= bl * num_fine) by (nonlinear_arith)
        requires
            0 <= bl,
            0 <= num_fine,
    ;
    assert(bl * num_fine + f + 1 <= nb * num_fine) by (nonlinear_arith)
        requires
            0 <= bl < nb,
            0 <= f < num_fine,
    ;
}

/// The eight words starting at `o`.
fn sample_at<W: Copy>(hdu: &Vec<W>, o: usize) -> (r: [W; 8])
    requires
        o + 8 <= hdu@.len(),
    ensures
        r@ == hdu@.subrange(o as int, o + 8),
{
    let _n = hdu.len();
    let r = [
        hdu[o],
        hdu[o + 1],
        hdu[o + 2],
        hdu[o + 3],
        hdu[o + 4],
        hdu[o + 5],
        hdu[o + 6],
        hdu[o + 7],
    ];
    assert(r@ =~= hdu@.subrange(o as int, o + 8));
    r
}

/// Copies one HDU buffer, laid out as (baseline, fine channel, polarization,
/// real/imaginary), into timestep `img_ts` and the fine channels of coarse
/// channel `img_cc` of the cube, taking cube baseline `b` from HDU baseline
/// `baseline_idxs[b]`. Every other cell is left as it was.
pub fn write_hdu_to_jones<W: Copy>(
    jones: &mut Cube<[W; 8]>,
    img_ts: usize,
    img_cc: usize,
    num_fine: usize,
    hdu: &Vec<W>,
    baseline_idxs: &[usize],
)
    requires
        old(jones).wf(),
        img_ts < old(jones).dims().0,
        img_cc * num_fine + num_fine <= old(jones).dims().1,
        baseline_idxs@.len() == old(jones).dims().2,
        forall|i: int| 0 <= i < baseline_idxs@.len() ==> (baseline_idxs@[i] + 1) * num_fine * 8 <= hdu@.len(),
    ensures
        final(jones).wf(),
        final(jones).dims() == old(jones).dims(),
        forall|t: int, c: int, b: int|
            final(jones).in_bounds(t, c, b) ==> #[trigger] final(jones).at(t, c, b)@ == if t == img_ts
                && in_coarse_chan(c, img_cc as int, num_fine as int) {
                hdu_sample(hdu@, num_fine as int, baseline_idxs@[b] as int, c - img_cc * num_fine)
            } else {
                old(jones).at(t, c, b)@
            },
{
    let nb = jones.num_baselines();
    let hdu_len = hdu.len();
    let c0 = img_cc * num_fine;
    let mut b: usize = 0;
    while b < nb
        invariant
            jones.wf(),
            jones.dims() == old(jones).dims(),
            nb == jones.dims().2,
            b <= nb,
            c0 == img_cc * num_fine,
            img_ts < jones.dims().0,
            c0 + num_fine <= jones.dims().1,
            baseline_idxs@.len() == nb,
            hdu_len == hdu@.len(),
            forall|i: int|     0 <= i < baseline_idxs@.len() ==> (baseline_idxs@[i] + 1) * num_fine * 8
                    <= hdu@.len(),
            forall|t: int, c: int, b2: int|
                jones.in_bounds(t, c, b2) ==> #[trigger] jones.at(t, c, b2)@ == if t == img_ts
                    && in_coarse_chan(c, img_cc as int, num_fine as int) && b2 < b {
                    hdu_sample(hdu@, num_fine as int, baseline_idxs@[b2] as int, c - c0)
                } else {
                    old(jones).at(t, c, b2)@
                },
        decreases nb - b,
    {
        let bl = baseline_idxs[b];
        let mut f: usize = 0;
        while f < num_fine
            invariant
                jones.wf(),
                jones.dims() == old(jones).dims(),
                nb == jones.dims().2,
                b < nb,
                f <= num_fine,
                bl == baseline_idxs@[b as int],
                c0 == img_cc * num_fine,
                img_ts < jones.dims().0,
                c0 + num_fine <= jones.dims().1,
                (bl + 1) * num_fine * 8 <= hdu@.len(),
                hdu_len == hdu@.len(),
                forall|t: int, c: int, b2: int|
                    jones.in_bounds(t, c, b2) ==> #[trigger] jones.at(t, c, b2)@ == if t == img_ts
                        && in_coarse_chan(c, img_cc as int, num_fine as int) && (b2 < b || (b2
                        == b && c < c0 + f)) {
                        hdu_sample(hdu@, num_fine as int, baseline_idxs@[b2] as int, c - c0)
                    } else {
                        old(jones).at(t, c, b2)@
                    },
            decreases num_fine - f,
        {
            proof {
                lemma_hdu_sample_bounds(bl + 1, num_fine as int, bl as int, f as int);
                assert((bl + 1) * num_fine * 8 == (bl + 1) * (num_fine * 8)) by (nonlinear_arith);
            }
            let o = (bl * num_fine + f) * 8;
            let s = sample_at(hdu, o);
            jones.set(img_ts, c0 + f, b, s);
            f += 1;
        }
        b += 1;
    }
}

/// Marks every baseline of timestep `img_ts` and the fine channels of coarse
/// channel `img_cc` as flagged, leaving every other flag as it was.
pub fn flag_hdu(flags: &mut FlagArray, img_ts: usize, img_cc: usize, num_fine: usize)
    requires
        old(flags).wf(),
        img_ts < old(flags).dims().0,
        img_cc * num_fine + num_fine <= old(flags).dims().1,
    ensures
        final(flags).wf(),
        final(flags).dims() == old(flags).dims(),
        forall|t: int, c: int, b: int|
            final(flags).in_bounds(t, c, b) ==> #[trigger] final(flags).at(t, c, b) == if t == img_ts
                && in_coarse_chan(c, img_cc as int, num_fine as int) {
                true
            } else {
                old(flags).at(t, c, b)
            },
{
    let nb = flags.num_baselines();
    let c0 = img_cc * num_fine;
    let mut f: usize = 0;
    while f < num_fine
        invariant
            flags.wf(),
            flags.dims() == old(flags).dims(),
            nb == flags.dims().2,
            f <= num_fine,
            c0 == img_cc * num_fine,
            img_ts < flags.dims().0,
            c0 + num_fine <= flags.dims().1,
            forall|t: int, c: int, b2: int|
                flags.in_bounds(t, c, b2) ==> #[trigger] flags.at(t, c, b2) == if t == img_ts && c0 <= c
                    < c0 + f {
                    true
                } else {
                    old(flags).at(t, c, b2)
                },
        decreases num_fine - f,
    {
        let mut b: usize = 0;
        while b < nb
            invariant
                flags.wf(),
                flags.dims() == old(flags).dims(),
                nb == flags.dims().2,
                f < num_fine,
                b <= nb,
                c0 == img_cc * num_fine,
                img_ts < flags.dims().0,
                c0 + num_fine <= flags.dims().1,
                forall|t: int, c: int, b2: int|
                    flags.in_bounds(t, c, b2) ==> #[trigger] flags.at(t, c, b2) == if t == img_ts && (c0
                        <= c < c0 + f || (c == c0 + f && b2 < b)) {
                        true
                    } else {
                        old(flags).at(t, c, b2)
                    },
            decreases nb - b,
        {
            flags.set(img_ts, c0 + f, b, true);
            b += 1;
        }
        f += 1;
    }
}

/// `hdu_reads[cc][t]` is the outcome of reading the HDU of selected coarse
/// channel `cc` at selected timestep `t`: the buffer, or `None` when the read
/// failed. Every buffer holds a whole HDU.
pub open spec fn reads_shaped<W>(
    hdu_reads: Seq<Vec<Option<Vec<W>>>>,
    num_coarse_chans: int,
    num_timesteps: int,
    hdu_len: int,
) -> bool {
    &&& hdu_reads.len() == num_coarse_chans
    &&& forall|cc: int|
        0 <= cc < num_coarse_chans ==> (#[trigger] hdu_reads[cc])@.len() == num_timesteps
    &&& forall|cc: int, t: int|
        0 <= cc < num_coarse_chans && 0 <= t < num_timesteps && (#[trigger] hdu_reads[cc]@[t]) is Some
            ==> hdu_reads[cc]@[t]->0@.len() == hdu_len
}

/// Every cell of the visibility cube holds the sample that its HDU's read gave
/// for its baseline and fine channel (the fill value where the read failed),
/// and every cell of the flag cube says whether that read failed.
pub open spec fn built_from_reads<W>(
    jones: Cube<[W; 8]>,
    flags: FlagArray,
    num_fine: int,
    baseline_idxs: Seq<usize>,
    hdu_reads: Seq<Vec<Option<Vec<W>>>>,
    fill: W,
) -> bool {
    &&& forall|t: int, c: int, b: int|
        jones.in_bounds(t, c, b) ==> (#[trigger] jones.at(t, c, b))@ == read_sample(
            hdu_reads[c / num_fine]@[t],
            num_fine,
            baseline_idxs[b] as int,
            c % num_fine,
            fill,
        )
    &&& forall|t: int, c: int, b: int|
        flags.in_bounds(t, c, b) ==> #[trigger] flags.at(t, c, b) == (
        hdu_reads[c / num_fine]@[t] is None)
}

/// The cube shapes that a selection gives: (timesteps, fine channels of the
/// selected coarse channels, selected baselines).
pub open spec fn selection_dims(
    context: ObsContext,
    timestep_range: Range<usize>,
    coarse_chan_range: Range<usize>,
    num_selected_baselines: int,
) -> (int, int, int) {
    (
        range_len(timestep_range) as int,
        range_len(coarse_chan_range) * context.num_fine_chans_per_coarse,
        num_selected_baselines,
    )
}

/// The largest cube a selection of `num_selected_baselines` baselines can
/// give fits in memory, and so does one HDU buffer.
pub open spec fn cube_fits(context: ObsContext, num_selected_baselines: int) -> bool {
    &&& context.hdu_len() <= usize::MAX
    &&& context.num_timesteps * context.num_coarse_chans * context.num_fine_chans_per_coarse
        <= usize::MAX
    &&& context.num_timesteps * context.num_coarse_chans * context.num_fine_chans_per_coarse
        * num_selected_baselines <= usize::MAX
    &&& ndarray_shape_fits(
        context.num_timesteps as int,
        context.num_coarse_chans * context.num_fine_chans_per_coarse,
        num_selected_baselines,
    )
}

/// Builds the visibility cube and its flag cube over the selected timesteps,
/// coarse channels and baselines from the outcome of reading each of the
/// selection's HDUs. Cell (t, c, b) takes the words of HDU baseline
/// `baseline_idxs[b]` at fine channel `c % fine` from the read of coarse
/// channel `c / fine` at timestep `t`; where that read failed the cell keeps
/// `fill` and its flag is set. A selection outside the observation is refused
/// before any work is done.
pub fn context_to_jones_array<W: Copy>(
    context: &ObsContext,
    timestep_range: &Range<usize>,
    coarse_chan_range: &Range<usize>,
    baseline_idxs: &[usize],
    hdu_reads: &Vec<Vec<Option<Vec<W>>>>,
    fill: W,
) -> (r: Result<(Cube<[W; 8]>, FlagArray), BirliError>)
    requires
        cube_fits(*context, baseline_idxs@.len() as int),
        selection_error(
            *context,
            *timestep_range,
            *coarse_chan_range,
            baseline_idxs@,
        ) is None ==> reads_shaped(
            hdu_reads@,
            range_len(*coarse_chan_range) as int,
            range_len(*timestep_range) as int,
            context.hdu_len(),
        ),
    ensures
        r is Ok <==> selection_error(
            *context,
            *timestep_range,
            *coarse_chan_range,
            baseline_idxs@,
        ) is None,
        r is Err ==> r == Err::<(Cube<[W; 8]>, FlagArray), BirliError>(
            selection_error(
                *context,
                *timestep_range,
                *coarse_chan_range,
                baseline_idxs@,
            )->0,
        ),
        r matches Ok((jones, flags)) ==> {
            &&& jones.wf()
            &&& flags.wf()
            &&& jones.dims() == flags.dims()
            &&& (jones.dims().0 as int, jones.dims().1 as int, jones.dims().2 as int)
                == selection_dims(
                *context,
                *timestep_range,
                *coarse_chan_range,
                baseline_idxs@.len() as int,
            )
            &&& built_from_reads(
                jones,
                flags,
                context.num_fine_chans_per_coarse as int,
                baseline_idxs@,
                hdu_reads@,
                fill,
            )
        },
{
    match check_selection(context, timestep_range, coarse_chan_range, baseline_idxs) {
        Ok(()) => {},
        Err(e) => {
            return Err(e);
        },
    }
    let nf = context.num_fine_chans_per_coarse;
    let nt = timestep_range.end - timestep_range.start;
    let ncc = coarse_chan_range.end - coarse_chan_range.start;
    let nb = baseline_idxs.len();
    let ghost nt_obs = context.num_timesteps as int;
    let ghost ncc_obs = context.num_coarse_chans as int;
    proof {
        assert(nt * ncc * nf <= nt_obs * ncc_obs * nf) by (nonlinear_arith)
            requires
                0 <= nt <= nt_obs,
                0 <= ncc <= ncc_obs,
                0 <= nf,
        ;
        assert(nt * ncc * nf * nb <= nt_obs * ncc_obs * nf * nb) by (nonlinear_arith)
            requires
                0 <= nt * ncc * nf <= nt_obs * ncc_obs * nf,
                0 <= nb,
        ;
        assert(ncc * nf <= nt * ncc * nf) by (nonlinear_arith)
            requires
                1 <= nt,
                0 <= ncc * nf,
        ;
        assert(nt * (ncc * nf) * nb == nt * ncc * nf * nb) by (nonlinear_arith);
        assert(0 <= ncc * nf) by (nonlinear_arith)
            requires
                0 <= ncc,
                0 <= nf,
        ;
    }
    let nchans = ncc * nf;
    proof {
        let a = nonzero_len(nt as int);
        let b = nonzero_len(nchans as int);
        let c = nonzero_len(nb as int);
        let a0 = nonzero_len(nt_obs);
        let b0 = nonzero_len(ncc_obs * nf);
        assert(nchans <= ncc_obs * nf) by (nonlinear_arith)
            requires
                nchans == ncc * nf,
                0 <= ncc <= ncc_obs,
                0 <= nf,
        ;
        assert(a * b * c <= a0 * b0 * c) by (nonlinear_arith)
            requires
                1 <= a <= a0,
                1 <= b <= b0,
                1 <= c,
        ;
    }
    let fill8: [W; 8] = [fill, fill, fill, fill, fill, fill, fill, fill];
    assert(fill8@ =~= Seq::new(8, |_i: int| fill));
    let mut jones = Cube::new(nt, nchans, nb, fill8);
    let mut flags = FlagArray::new(nt, nchans, nb, false);
    let hdu_len = context.baselines.len() * nf * 8;
    let mut cc: usize = 0;
    while cc < ncc
        invariant
            jones.wf(),
            flags.wf(),
            jones.dims() == (nt, nchans, nb),
            flags.dims() == (nt, nchans, nb),
            nchans == ncc * nf,
            cc <= ncc,
            nb == baseline_idxs@.len(),
            hdu_len == context.hdu_len(),
            nf == context.num_fine_chans_per_coarse,
            fill8@ == Seq::new(8, |_i: int| fill),
            reads_shaped(hdu_reads@, ncc as int, nt as int, context.hdu_len()),
            forall|i: int|
                0 <= i < nb ==> baseline_idxs@[i] < context.baselines@.len(),
            forall|t: int, c: int, b: int|
                jones.in_bounds(t, c, b) ==> (#[trigger] jones.at(t, c, b))@ == if c < cc * nf {
                    read_sample(
                        hdu_reads@[c / nf as int]@[t],
                        nf as int,
                        baseline_idxs@[b] as int,
                        c % nf as int,
                        fill,
                    )
                } else {
                    fill8@
                },
            forall|t: int, c: int, b: int|
                flags.in_bounds(t, c, b) ==> #[trigger] flags.at(t, c, b) == if c < cc * nf {
                    hdu_reads@[c / nf as int]@[t] is None
                } else {
                    false
                },
        decreases ncc - cc,
    {
        let mut t: usize = 0;
        while t < nt
            invariant
                jones.wf(),
                flags.wf(),
                jones.dims() == (nt, nchans, nb),
                flags.dims() == (nt, nchans, nb),
                nchans == ncc * nf,
                cc < ncc,
                t <= nt,
                nb == baseline_idxs@.len(),
                hdu_len == context.hdu_len(),
                nf == context.num_fine_chans_per_coarse,
                fill8@ == Seq::new(8, |_i: int| fill),
                reads_shaped(hdu_reads@, ncc as int, nt as int, context.hdu_len()),
                forall|i: int|
                    0 <= i < nb ==> baseline_idxs@[i] < context.baselines@.len(),
                forall|t2: int, c: int, b: int|
                    jones.in_bounds(t2, c, b) ==> (#[trigger] jones.at(t2, c, b))@ == if c < cc
                        * nf || (in_coarse_chan(c, cc as int, nf as int) && t2 < t) {
                        read_sample(
                            hdu_reads@[c / nf as int]@[t2],
                            nf as int,
                            baseline_idxs@[b] as int,
                            c % nf as int,
                            fill,
                        )
                    } else {
                        fill8@
                    },
                forall|t2: int, c: int, b: int|
                    flags.in_bounds(t2, c, b) ==> #[trigger] flags.at(t2, c, b) == if c < cc * nf
                        || (in_coarse_chan(c, cc as int, nf as int) && t2 < t) {
                        hdu_reads@[c / nf as int]@[t2] is None
                    } else {
                        false
                    },
            decreases nt - t,
        {
            proof {
                assert(cc * nf + nf <= nchans) by (nonlinear_arith)
                    requires
                        cc < ncc,
                        nchans == ncc * nf,
                        0 <= nf,
                ;
            }
            let read = &hdu_reads[cc][t];
            match read {
                Some(hdu) => {
                    proof {
                        assert(hdu_reads@[cc as int]@[t as int] is Some);
                        assert forall|i: int| 0 <= i < baseline_idxs@.len() implies (
                        baseline_idxs@[i] + 1) * nf * 8 <= hdu@.len() by {
                            let bl = baseline_idxs@[i] as int;
                            let n = context.baselines@.len() as int;
                            assert((bl + 1) * nf * 8 <= n * nf * 8) by (nonlinear_arith)
                                requires
                                    0 <= bl < n,
                                    0 <= nf,
                            ;
                        }
                    }
                    write_hdu_to_jones(&mut jones, t, cc, nf, hdu, baseline_idxs);
                    proof {
                        assert forall|t2: int, c: int, b: int|
                            jones.in_bounds(t2, c, b) && t2 == t && in_coarse_chan(
                                c,
                                cc as int,
                                nf as int,
                            ) implies (#[trigger] jones.at(t2, c, b))@ == read_sample(
                            hdu_reads@[c / nf as int]@[t2],
                            nf as int,
                            baseline_idxs@[b] as int,
                            c % nf as int,
                            fill,
                        ) by {
                            lemma_coarse_chan_of(c, cc as int, nf as int);
                        }
                        assert forall|t2: int, c: int, b: int|
                            flags.in_bounds(t2, c, b) && t2 == t && in_coarse_chan(
                                c,
                                cc as int,
                                nf as int,
                            ) implies !#[trigger] flags.at(t2, c, b) && !(hdu_reads@[c / nf as int]@[t2] is None) by {
                            lemma_coarse_chan_of(c, cc as int, nf as int);
                            assert(!(c < cc * nf));
                        }
                    }
                },
                None => {
                    flag_hdu(&mut flags, t, cc, nf);
                    proof {
                        assert forall|t2: int, c: int, b: int|
                            jones.in_bounds(t2, c, b) && t2 == t && in_coarse_chan(
                                c,
                                cc as int,
                                nf as int,
                            ) implies (#[trigger] jones.at(t2, c, b))@ == read_sample(
                            hdu_reads@[c / nf as int]@[t2],
                            nf as int,
                            baseline_idxs@[b] as int,
                            c % nf as int,
                            fill,
                        ) by {
                            lemma_coarse_chan_of(c, cc as int, nf as int);
                            assert(!(c < cc * nf));
                        }
                        assert forall|t2: int, c: int, b: int|
                            flags.in_bounds(t2, c, b) && t2 == t && in_coarse_chan(
                                c,
                                cc as int,
                                nf as int,
                            ) implies #[trigger] flags.at(t2, c, b) == (hdu_reads@[c / nf as int]@[t2] is None) by {
                            lemma_coarse_chan_of(c, cc as int, nf as int);
                        }
                    }
                },
            }
            t += 1;
        }
        assert((cc + 1) * nf == cc * nf + nf) by (nonlinear_arith);
        cc += 1;
    }
    Ok((jones, flags))
}

/// A failed read flags the whole extent of its HDU: when the read of
/// selected coarse channel `cc` at selected timestep `t` failed, the flag cube
/// built from the reads is set at `t` for every baseline and every fine
/// channel of `cc`; a read that succeeded leaves those flags clear.
pub proof fn lemma_read_outcome_flags_hdu<W>(
    jones: Cube<[W; 8]>,
    flags: FlagArray,
    num_fine: int,
    baseline_idxs: Seq<usize>,
    hdu_reads: Seq<Vec<Option<Vec<W>>>>,
    fill: W,
    t: int,
    cc: int,
    f: int,
    b: int,
)
    requires
        built_from_reads(jones, flags, num_fine, baseline_idxs, hdu_reads, fill),
        0 <= cc,
        0 <= f < num_fine,
        flags.in_bounds(t, cc * num_fine + f, b),
    ensures
        flags.at(t, cc * num_fine + f, b) == (hdu_reads[cc]@[t] is None),
{
    lemma_coarse_chan_of(cc * num_fine + f, cc, num_fine);
}

} // verus!
