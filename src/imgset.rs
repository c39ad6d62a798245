use vstd::prelude::*;
use crate::context::{check_index_selection, index_selection_error, ObsContext};
use crate::error::BirliError;
use crate::cube::Cube;
use crate::flag_array::FlagArray;
use crate::jones::{in_coarse_chan, lemma_coarse_chan_of, reads_shaped};

verus! {

/// Word `k` of baseline `bl`, fine channel `f` in an HDU buffer laid out as
/// (baseline, fine channel, polarization, real/imaginary).
pub open spec fn hdu_word<W>(hdu: Seq<W>, num_fine: int, bl: int, f: int, k: int) -> W {
    hdu[(bl * num_fine + f) * 8 + k]
}

proof fn lemma_hdu_word_bounds(nb: int, num_fine: int, bl: int, f: int, k: int)
    requires
        0 <= bl < nb,
        0 <= f < num_fine,
        0 <= k < 8,
    ensures
        0 <= bl * num_fine <= bl * num_fine + f,
        0 <= (bl * num_fine + f) * 8 <= (bl * num_fine + f) * 8 + k < nb * num_fine * 8,
{
    assert(0 <= bl * num_fine) by (nonlinear_arith)
        requires
            0 <= bl,
            0 <= num_fine,
    ;
    assert(bl * num_fine + f + 1 <= nb * num_fine) by (nonlinear_arith)
        requires
            0 <= bl < nb,
            0 <= f < num_fine,
    ;
}

/// For every baseline, eight images (one per word of a sample: the real and
/// imaginary parts of XX, XY, YX, YY), each `height` fine channels by `width`
/// timesteps: the layout an RFI flagger reads.
pub struct BaselineImgsets<W> {
    buffers: Cube<W>,
}

impl<W> BaselineImgsets<W> {
    pub closed spec fn spec_num_baselines(&self) -> int {
        self.buffers.dims().0 as int / 8
    }

    pub closed spec fn spec_height(&self) -> int {
        self.buffers.dims().1 as int
    }

    pub closed spec fn spec_width(&self) -> int {
        self.buffers.dims().2 as int
    }

    /// Eight images for each baseline, each holding one value per pixel.
    pub closed spec fn wf(&self) -> bool {
        self.buffers.wf() && self.buffers.dims().0 % 8 == 0
    }

    pub open spec fn in_bounds(&self, bl: int, k: int, y: int, x: int) -> bool {
        0 <= bl < self.spec_num_baselines() && 0 <= k < 8 && 0 <= y < self.spec_height() && 0 <= x
            < self.spec_width()
    }

    /// The value of image `k` of baseline `bl` at fine channel `y`, timestep `x`.
    pub closed spec fn value(&self, bl: int, k: int, y: int, x: int) -> W {
        self.buffers.at(bl * 8 + k, y, x)
    }
}

proof fn lemma_image_index(nb: int, bl: int, k: int)
    requires
        0 <= bl < nb,
        0 <= k < 8,
    ensures
        0 <= bl * 8 + k < nb * 8,
        (bl * 8 + k) / 8 == bl,
        (bl * 8 + k) % 8 == k,
{
}

impl<W: Copy> BaselineImgsets<W> {
    pub fn num_baselines(&self) -> (r: usize)
        requires
            self.wf(),
        ensures
            r == self.spec_num_baselines(),
    {
        self.buffers.num_timesteps() / 8
    }

    pub fn width(&self) -> (r: usize)
        ensures
            r == self.spec_width(),
    {
        self.buffers.num_baselines()
    }

    pub fn height(&self) -> (r: usize)
        ensures
            r == self.spec_height(),
    {
        self.buffers.num_chans()
    }

    /// The value of image `k` of baseline `bl` at fine channel `y`, timestep `x`.
    pub fn get(&self, bl: usize, k: usize, y: usize, x: usize) -> (r: W)
        requires
            self.wf(),
            self.in_bounds(bl as int, k as int, y as int, x as int),
        ensures
            r == self.value(bl as int, k as int, y as int, x as int),
    {
        proof {
            lemma_image_index(self.spec_num_baselines(), bl as int, k as int);
        }
        self.buffers.get(bl * 8 + k, y, x)
    }

    /// Copies one HDU buffer, laid out as (baseline, fine channel,
    /// polarization, real/imaginary), into column `img_ts` and the rows of
    /// coarse channel `img_cc` of every baseline's images: word `k` of each
    /// sample goes to image `k`. Every other pixel is left as it was.
    pub fn write_hdu(&mut self, img_cc: usize, img_ts: usize, num_fine: usize, hdu: &Vec<W>)
        requires
            old(self).wf(),
            img_ts < old(self).spec_width(),
            img_cc * num_fine + num_fine <= old(self).spec_height(),
            hdu@.len() == old(self).spec_num_baselines() * num_fine * 8,
        ensures
            final(self).wf(),
            final(self).spec_num_baselines() == old(self).spec_num_baselines(),
            final(self).spec_width() == old(self).spec_width(),
            final(self).spec_height() == old(self).spec_height(),
            forall|bl: int, k: int, y: int, x: int|
                final(self).in_bounds(bl, k, y, x) ==> #[trigger] final(self).value(bl, k, y, x)
                    == if x == img_ts && in_coarse_chan(y, img_cc as int, num_fine as int) {
                    hdu_word(hdu@, num_fine as int, bl, y - img_cc * num_fine, k)
                } else {
                    old(self).value(bl, k, y, x)
                },
    {
        let nb = self.num_baselines();
        let hdu_len = hdu.len();
        let y0 = img_cc * num_fine;
        let mut bl: usize = 0;
        while bl < nb
            invariant
                self.wf(),
                self.spec_num_baselines() == old(self).spec_num_baselines(),
                self.spec_width() == old(self).spec_width(),
                self.spec_height() == old(self).spec_height(),
                nb == self.spec_num_baselines(),
                bl <= nb,
                y0 == img_cc * num_fine,
                img_ts < self.spec_width(),
                y0 + num_fine <= self.spec_height(),
                hdu_len == hdu@.len(),
                hdu@.len() == nb * num_fine * 8,
                forall|b2: int, k: int, y: int, x: int|
                    self.in_bounds(b2, k, y, x) ==> #[trigger] self.value(b2, k, y, x) == if x
                        == img_ts && in_coarse_chan(y, img_cc as int, num_fine as int) && b2 < bl {
                        hdu_word(hdu@, num_fine as int, b2, y - y0, k)
                    } else {
                        old(self).value(b2, k, y, x)
                    },
            decreases nb - bl,
        {
            let mut f: usize = 0;
            while f < num_fine
                invariant
                    self.wf(),
                    self.spec_num_baselines() == old(self).spec_num_baselines(),
                    self.spec_width() == old(self).spec_width(),
                    self.spec_height() == old(self).spec_height(),
                    nb == self.spec_num_baselines(),
                    bl < nb,
                    f <= num_fine,
                    y0 == img_cc * num_fine,
                    img_ts < self.spec_width(),
                    y0 + num_fine <= self.spec_height(),
                    hdu_len == hdu@.len(),
                    hdu@.len() == nb * num_fine * 8,
                    forall|b2: int, k: int, y: int, x: int|
                        self.in_bounds(b2, k, y, x) ==> #[trigger] self.value(b2, k, y, x) == if x
                            == img_ts && in_coarse_chan(y, img_cc as int, num_fine as int) && (b2
                            < bl || (b2 == bl && y < y0 + f)) {
                            hdu_word(hdu@, num_fine as int, b2, y - y0, k)
                        } else {
                            old(self).value(b2, k, y, x)
                        },
                decreases num_fine - f,
            {
                let mut k: usize = 0;
                while k < 8
                    invariant
                        self.wf(),
                        self.spec_num_baselines() == old(self).spec_num_baselines(),
                        self.spec_width() == old(self).spec_width(),
                        self.spec_height() == old(self).spec_height(),
                        nb == self.spec_num_baselines(),
                        bl < nb,
                        f < num_fine,
                        k <= 8,
                        y0 == img_cc * num_fine,
                        img_ts < self.spec_width(),
                        y0 + num_fine <= self.spec_height(),
                        hdu_len == hdu@.len(),
                        hdu@.len() == nb * num_fine * 8,
                        forall|b2: int, k2: int, y: int, x: int|
                            self.in_bounds(b2, k2, y, x) ==> #[trigger] self.value(b2, k2, y, x)
                                == if x == img_ts && in_coarse_chan(y, img_cc as int, num_fine as int)
                                && (b2 < bl || (b2 == bl && y < y0 + f) || (b2 == bl && y == y0 + f
                                && k2 < k)) {
                                hdu_word(hdu@, num_fine as int, b2, y - y0, k2)
                            } else {
                                old(self).value(b2, k2, y, x)
                            },
                    decreases 8 - k,
                {
                    proof {
                        lemma_hdu_word_bounds(nb as int, num_fine as int, bl as int, f as int, k as int);
                        lemma_image_index(nb as int, bl as int, k as int);
                    }
                    let w = hdu[(bl * num_fine + f) * 8 + k];
                    let ghost prev = *self;
                    self.buffers.set(bl * 8 + k, y0 + f, img_ts, w);
                    proof {
                        assert forall|b2: int, k2: int, y: int, x: int|
                            self.in_bounds(b2, k2, y, x) implies #[trigger] self.value(b2, k2, y, x)
                                == if x == img_ts && in_coarse_chan(y, img_cc as int, num_fine as int)
                                && (b2 < bl || (b2 == bl && y < y0 + f) || (b2 == bl && y == y0 + f
                                && k2 < k + 1)) {
                                hdu_word(hdu@, num_fine as int, b2, y - y0, k2)
                            } else {
                                old(self).value(b2, k2, y, x)
                            } by {
                            lemma_image_index(nb as int, b2, k2);
                            lemma_image_index(nb as int, bl as int, k as int);
                            assert(prev.value(b2, k2, y, x) == prev.buffers.at(b2 * 8 + k2, y, x));
                        }
                    }
                    k += 1;
                }
                f += 1;
            }
            bl += 1;
        }
    }
}

/// Creates the image sets of `num_baselines` baselines, each image `width`
/// timesteps by `height` fine channels, with every pixel holding `fill`.
pub fn init_baseline_imgsets<W: Copy>(num_baselines: usize, width: usize, height: usize, fill: W) -> (r:
    BaselineImgsets<W>)
    requires
        num_baselines * 8 <= usize::MAX,
        num_baselines * 8 * height * width <= usize::MAX,
    ensures
        r.wf(),
        r.spec_num_baselines() == num_baselines,
        r.spec_width() == width,
        r.spec_height() == height,
        forall|bl: int, k: int, y: int, x: int|
            r.in_bounds(bl, k, y, x) ==> #[trigger] r.value(bl, k, y, x) == fill,
{
    assert(num_baselines * 8 * height * width == (num_baselines * 8) * height * width);
    let buffers = Cube::new(num_baselines * 8, height, width, fill);
    let r = BaselineImgsets { buffers };
    assert forall|bl: int, k: int, y: int, x: int| r.in_bounds(bl, k, y, x) implies #[trigger] r.value(
        bl,
        k,
        y,
        x,
    ) == fill by {
        lemma_image_index(num_baselines as int, bl, k);
    }
    r
}

/// For every baseline, a mask of `height` fine channels by `width` timesteps;
/// `true` marks a sample to be left out.
pub struct BaselineFlagmasks {
    masks: Cube<bool>,
}

impl BaselineFlagmasks {
    pub closed spec fn spec_num_baselines(&self) -> int {
        self.masks.dims().0 as int
    }

    pub closed spec fn spec_height(&self) -> int {
        self.masks.dims().1 as int
    }

    pub closed spec fn spec_width(&self) -> int {
        self.masks.dims().2 as int
    }

    /// One mask for each baseline, each holding one flag per pixel.
    pub closed spec fn wf(&self) -> bool {
        self.masks.wf()
    }

    pub open spec fn in_bounds(&self, bl: int, y: int, x: int) -> bool {
        0 <= bl < self.spec_num_baselines() && 0 <= y < self.spec_height() && 0 <= x < self.spec_width()
    }

    /// The flag of baseline `bl` at fine channel `y`, timestep `x`.
    pub closed spec fn value(&self, bl: int, y: int, x: int) -> bool {
        self.masks.at(bl, y, x)
    }

    /// The flag of baseline `bl` at fine channel `y`, timestep `x`.
    pub fn get(&self, bl: usize, y: usize, x: usize) -> (r: bool)
        requires
            self.wf(),
            self.in_bounds(bl as int, y as int, x as int),
        ensures
            r == self.value(bl as int, y as int, x as int),
    {
        self.masks.get(bl, y, x)
    }

    /// Sets the flag of baseline `bl` at fine channel `y`, timestep `x`.
    pub fn set(&mut self, bl: usize, y: usize, x: usize, flag: bool)
        requires
            old(self).wf(),
            old(self).in_bounds(bl as int, y as int, x as int),
        ensures
            final(self).wf(),
            final(self).spec_num_baselines() == old(self).spec_num_baselines(),
            final(self).spec_width() == old(self).spec_width(),
            final(self).spec_height() == old(self).spec_height(),
            forall|b2: int, y2: int, x2: int|
                final(self).in_bounds(b2, y2, x2) ==> #[trigger] final(self).value(b2, y2, x2) == if (
                b2, y2, x2) == (bl as int, y as int, x as int) {
                    flag
                } else {
                    old(self).value(b2, y2, x2)
                },
    {
        self.masks.set(bl, y, x, flag);
    }

    pub fn num_baselines(&self) -> (r: usize)
        ensures
            r == self.spec_num_baselines(),
    {
        self.masks.num_timesteps()
    }

    pub fn width(&self) -> (r: usize)
        ensures
            r == self.spec_width(),
    {
        self.masks.num_baselines()
    }

    pub fn height(&self) -> (r: usize)
        ensures
            r == self.spec_height(),
    {
        self.masks.num_chans()
    }

    /// Flags, for every baseline, timestep `img_ts` at every fine channel of
    /// coarse channel `img_cc`: the extent of one HDU. Every other flag is
    /// left as it was.
    pub fn flag_hdu(&mut self, img_cc: usize, img_ts: usize, num_fine: usize)
        requires
            old(self).wf(),
            img_ts < old(self).spec_width(),
            img_cc * num_fine + num_fine <= old(self).spec_height(),
        ensures
            final(self).wf(),
            final(self).spec_num_baselines() == old(self).spec_num_baselines(),
            final(self).spec_width() == old(self).spec_width(),
            final(self).spec_height() == old(self).spec_height(),
            forall|bl: int, y: int, x: int|
                final(self).in_bounds(bl, y, x) ==> #[trigger] final(self).value(bl, y, x) == if x
                    == img_ts && in_coarse_chan(y, img_cc as int, num_fine as int) {
                    true
                } else {
                    old(self).value(bl, y, x)
                },
    {
        let nb = self.num_baselines();
        let y0 = img_cc * num_fine;
        let mut bl: usize = 0;
        while bl < nb
            invariant
                self.wf(),
                self.spec_num_baselines() == old(self).spec_num_baselines(),
                self.spec_width() == old(self).spec_width(),
                self.spec_height() == old(self).spec_height(),
                nb == self.spec_num_baselines(),
                bl <= nb,
                y0 == img_cc * num_fine,
                img_ts < self.spec_width(),
                y0 + num_fine <= self.spec_height(),
                forall|b2: int, y: int, x: int|
                    self.in_bounds(b2, y, x) ==> #[trigger] self.value(b2, y, x) == if x == img_ts
                        && in_coarse_chan(y, img_cc as int, num_fine as int) && b2 < bl {
                        true
                    } else {
                        old(self).value(b2, y, x)
                    },
            decreases nb - bl,
        {
            let mut f: usize = 0;
            while f < num_fine
                invariant
                    self.wf(),
                    self.spec_num_baselines() == old(self).spec_num_baselines(),
                    self.spec_width() == old(self).spec_width(),
                    self.spec_height() == old(self).spec_height(),
                    nb == self.spec_num_baselines(),
                    bl < nb,
                    f <= num_fine,
                    y0 == img_cc * num_fine,
                    img_ts < self.spec_width(),
                    y0 + num_fine <= self.spec_height(),
                    forall|b2: int, y: int, x: int|
                        self.in_bounds(b2, y, x) ==> #[trigger] self.value(b2, y, x) == if x
                            == img_ts && in_coarse_chan(y, img_cc as int, num_fine as int) && (b2
                            < bl || (b2 == bl && y < y0 + f)) {
                            true
                        } else {
                            old(self).value(b2, y, x)
                        },
                decreases num_fine - f,
            {
                self.set(bl, y0 + f, img_ts, true);
                f += 1;
            }
            bl += 1;
        }
    }
}

/// Creates the flag masks of `num_baselines` baselines, each `width`
/// timesteps by `height` fine channels, with no flag set.
pub fn init_baseline_flagmasks(num_baselines: usize, width: usize, height: usize) -> (r:
    BaselineFlagmasks)
    requires
        num_baselines * height * width <= usize::MAX,
    ensures
        r.wf(),
        r.spec_num_baselines() == num_baselines,
        r.spec_width() == width,
        r.spec_height() == height,
        forall|bl: int, y: int, x: int| r.in_bounds(bl, y, x) ==> !#[trigger] r.value(bl, y, x),
{
    BaselineFlagmasks { masks: Cube::new(num_baselines, height, width, false) }
}

/// The image sets and flag masks of a whole observation fit in memory.
pub open spec fn imgsets_fit(context: ObsContext, num_coarse_chans: int, num_timesteps: int) -> bool {
    &&& context.hdu_len() <= usize::MAX
    &&& context.baselines@.len() * 8 <= usize::MAX
    &&& num_coarse_chans * context.num_fine_chans_per_coarse <= usize::MAX
    &&& context.baselines@.len() * 8 * (num_coarse_chans * context.num_fine_chans_per_coarse)
        * num_timesteps <= usize::MAX
}

/// The image sets and, where given, updated flag masks of a selection whose
/// reads are already checked in shape.
fn build_baseline_imgsets<W: Copy>(
    context: &ObsContext,
    img_coarse_chan_idxs: &[usize],
    img_timestep_idxs: &[usize],
    hdu_reads: &Vec<Vec<Option<Vec<W>>>>,
    fill: W,
    baseline_flagmasks: Option<BaselineFlagmasks>,
) -> (r: (BaselineImgsets<W>, Option<BaselineFlagmasks>))
    requires
        imgsets_fit(*context, img_coarse_chan_idxs@.len() as int, img_timestep_idxs@.len() as int),
        reads_shaped(
            hdu_reads@,
            img_coarse_chan_idxs@.len() as int,
            img_timestep_idxs@.len() as int,
            context.hdu_len(),
        ),
        baseline_flagmasks matches Some(m) ==> {
            &&& m.wf()
            &&& m.spec_num_baselines() == context.baselines@.len()
            &&& m.spec_height() == img_coarse_chan_idxs@.len() * context.num_fine_chans_per_coarse
            &&& m.spec_width() == img_timestep_idxs@.len()
        },
    ensures
        r.0.wf(),
        r.0.spec_num_baselines() == context.baselines@.len(),
        r.0.spec_height() == img_coarse_chan_idxs@.len() * context.num_fine_chans_per_coarse,
        r.0.spec_width() == img_timestep_idxs@.len(),
        forall|bl: int, k: int, y: int, x: int|
            r.0.in_bounds(bl, k, y, x) ==> #[trigger] r.0.value(bl, k, y, x) == match hdu_reads@[y
                / context.num_fine_chans_per_coarse as int]@[x] {
                Some(hdu) => hdu_word(
                    hdu@,
                    context.num_fine_chans_per_coarse as int,
                    bl,
                    y % context.num_fine_chans_per_coarse as int,
                    k,
                ),
                None => fill,
            },
        baseline_flagmasks is None ==> r.1 is None,
        baseline_flagmasks matches Some(m) ==> r.1 matches Some(m2) && {
            &&& m2.wf()
            &&& m2.spec_num_baselines() == m.spec_num_baselines()
            &&& m2.spec_height() == m.spec_height()
            &&& m2.spec_width() == m.spec_width()
            &&& forall|bl: int, y: int, x: int|
                m2.in_bounds(bl, y, x) ==> #[trigger] m2.value(bl, y, x) == (m.value(bl, y, x)
                    || hdu_reads@[y / context.num_fine_chans_per_coarse as int]@[x] is None)
        },
{
    let nf = context.num_fine_chans_per_coarse;
    let ncc = img_coarse_chan_idxs.len();
    let nt = img_timestep_idxs.len();
    let nb = context.baselines.len();
    let height = ncc * nf;
    let ghost m0 = baseline_flagmasks;
    let mut imgsets = init_baseline_imgsets(nb, nt, height, fill);
    let mut flagmasks = baseline_flagmasks;
    let mut cc: usize = 0;
    while cc < ncc
        invariant
            imgsets.wf(),
            imgsets.spec_num_baselines() == nb,
            imgsets.spec_height() == height,
            imgsets.spec_width() == nt,
            height == ncc * nf,
            cc <= ncc,
            nb == context.baselines@.len(),
            nf == context.num_fine_chans_per_coarse,
            nt == img_timestep_idxs@.len(),
            reads_shaped(hdu_reads@, ncc as int, nt as int, context.hdu_len()),
            m0 is None ==> flagmasks is None,
            m0 matches Some(m) ==> flagmasks matches Some(m2) && {
                &&& m2.wf()
                &&& m2.spec_num_baselines() == m.spec_num_baselines()
                &&& m2.spec_height() == m.spec_height()
                &&& m2.spec_width() == m.spec_width()
                &&& m.spec_height() == height
                &&& m.spec_width() == nt
                &&& forall|bl: int, y: int, x: int|
                    m2.in_bounds(bl, y, x) ==> #[trigger] m2.value(bl, y, x) == (m.value(bl, y, x)
                        || (y < cc * nf && hdu_reads@[y / nf as int]@[x] is None))
            },
            forall|bl: int, k: int, y: int, x: int|
                imgsets.in_bounds(bl, k, y, x) ==> #[trigger] imgsets.value(bl, k, y, x) == if y < cc
                    * nf {
                    match hdu_reads@[y / nf as int]@[x] {
                        Some(hdu) => hdu_word(hdu@, nf as int, bl, y % nf as int, k),
                        None => fill,
                    }
                } else {
                    fill
                },
        decreases ncc - cc,
    {
        let mut t: usize = 0;
        while t < nt
            invariant
                imgsets.wf(),
                imgsets.spec_num_baselines() == nb,
                imgsets.spec_height() == height,
                imgsets.spec_width() == nt,
                height == ncc * nf,
                cc < ncc,
                t <= nt,
                nb == context.baselines@.len(),
                nf == context.num_fine_chans_per_coarse,
                nt == img_timestep_idxs@.len(),
                reads_shaped(hdu_reads@, ncc as int, nt as int, context.hdu_len()),
                m0 is None ==> flagmasks is None,
                m0 matches Some(m) ==> flagmasks matches Some(m2) && {
                    &&& m2.wf()
                    &&& m2.spec_num_baselines() == m.spec_num_baselines()
                    &&& m2.spec_height() == m.spec_height()
                    &&& m2.spec_width() == m.spec_width()
                    &&& m.spec_height() == height
                    &&& m.spec_width() == nt
                    &&& forall|bl: int, y: int, x: int|
                        m2.in_bounds(bl, y, x) ==> #[trigger] m2.value(bl, y, x) == (m.value(
                            bl,
                            y,
                            x,
                        ) || ((y < cc * nf || (in_coarse_chan(y, cc as int, nf as int) && x < t))
                            && hdu_reads@[y / nf as int]@[x] is None))
                },
                forall|bl: int, k: int, y: int, x: int|
                    imgsets.in_bounds(bl, k, y, x) ==> #[trigger] imgsets.value(bl, k, y, x) == if y
                        < cc * nf || (in_coarse_chan(y, cc as int, nf as int) && x < t) {
                        match hdu_reads@[y / nf as int]@[x] {
                            Some(hdu) => hdu_word(hdu@, nf as int, bl, y % nf as int, k),
                            None => fill,
                        }
                    } else {
                        fill
                    },
            decreases nt - t,
        {
            proof {
                assert(cc * nf + nf <= height) by (nonlinear_arith)
                    requires
                        cc < ncc,
                        height == ncc * nf,
                        0 <= nf,
                ;
            }
            let read = &hdu_reads[cc][t];
            match read {
                Some(hdu) => {
                    let ghost before = imgsets;
                    imgsets.write_hdu(cc, t, nf, hdu);
                    proof {
                        assert forall|bl: int, k: int, y: int, x: int|
                            imgsets.in_bounds(bl, k, y, x) && x == t && in_coarse_chan(
                                y,
                                cc as int,
                                nf as int,
                            ) implies #[trigger] imgsets.value(bl, k, y, x) == match hdu_reads@[y
                            / nf as int]@[x] {
                            Some(hdu) => hdu_word(hdu@, nf as int, bl, y % nf as int, k),
                            None => fill,
                        } by {
                            lemma_coarse_chan_of(y, cc as int, nf as int);
                        }
                        if let Some(m) = m0 {
                            let m2 = flagmasks->0;
                            assert forall|bl: int, y: int, x: int|
                                m2.in_bounds(bl, y, x) && x == t && in_coarse_chan(
                                    y,
                                    cc as int,
                                    nf as int,
                                ) implies !(hdu_reads@[y / nf as int]@[x] is None) by {
                                lemma_coarse_chan_of(y, cc as int, nf as int);
                            }
                        }
                    }
                },
                None => {
                    proof {
                        assert forall|bl: int, k: int, y: int, x: int|
                            imgsets.in_bounds(bl, k, y, x) && x == t && in_coarse_chan(
                                y,
                                cc as int,
                                nf as int,
                            ) implies #[trigger] imgsets.value(bl, k, y, x) == match hdu_reads@[y
                            / nf as int]@[x] {
                            Some(hdu) => hdu_word(hdu@, nf as int, bl, y % nf as int, k),
                            None => fill,
                        } by {
                            lemma_coarse_chan_of(y, cc as int, nf as int);
                            assert(!(y < cc * nf));
                        }
                    }
                    match flagmasks {
                        Some(mut m2) => {
                            let ghost before = m2;
                            m2.flag_hdu(cc, t, nf);
                            proof {
                                let m = m0->0;
                                assert forall|bl: int, y: int, x: int|
                                    m2.in_bounds(bl, y, x) implies #[trigger] m2.value(bl, y, x) == (
                                    m.value(bl, y, x) || ((y < cc * nf || (in_coarse_chan(
                                        y,
                                        cc as int,
                                        nf as int,
                                    ) && x < t + 1)) && hdu_reads@[y / nf as int]@[x] is None)) by {
                                    assert(before.value(bl, y, x) == (m.value(bl, y, x) || ((y < cc
                                        * nf || (in_coarse_chan(y, cc as int, nf as int) && x < t))
                                        && hdu_reads@[y / nf as int]@[x] is None)));
                                    if x == t && in_coarse_chan(y, cc as int, nf as int) {
                                        lemma_coarse_chan_of(y, cc as int, nf as int);
                                    }
                                }
                            }
                            flagmasks = Some(m2);
                        },
                        None => {},
                    }
                },
            }
            t += 1;
        }
        assert((cc + 1) * nf == cc * nf + nf) by (nonlinear_arith);
        cc += 1;
    }
    (imgsets, flagmasks)
}

/// Merges flag masks into a flag cube over the same timesteps and fine
/// channels: cell (t, c, b) of the cube becomes flagged where the mask of
/// baseline `baseline_idxs[b]` is set at fine channel `c`, timestep `t`; no
/// flag is cleared.
pub fn merge_baseline_flagmasks(
    flags: &mut FlagArray,
    baseline_flagmasks: &BaselineFlagmasks,
    baseline_idxs: &[usize],
)
    requires
        old(flags).wf(),
        baseline_flagmasks.wf(),
        baseline_flagmasks.spec_width() == old(flags).dims().0,
        baseline_flagmasks.spec_height() == old(flags).dims().1,
        baseline_idxs@.len() == old(flags).dims().2,
        forall|i: int|
            0 <= i < baseline_idxs@.len() ==> baseline_idxs@[i] < baseline_flagmasks.spec_num_baselines(),
    ensures
        final(flags).wf(),
        final(flags).dims() == old(flags).dims(),
        forall|t: int, c: int, b: int|
            final(flags).in_bounds(t, c, b) ==> #[trigger] final(flags).at(t, c, b) == (old(
                flags,
            ).at(t, c, b) || baseline_flagmasks.value(baseline_idxs@[b] as int, c, t)),
{
    let nt = flags.num_timesteps();
    let nc = flags.num_chans();
    let nb = flags.num_baselines();
    let mut t: usize = 0;
    while t < nt
        invariant
            flags.wf(),
            flags.dims() == old(flags).dims(),
            flags.dims() == (nt, nc, nb),
            t <= nt,
            baseline_flagmasks.wf(),
            baseline_flagmasks.spec_width() == nt,
            baseline_flagmasks.spec_height() == nc,
            baseline_idxs@.len() == nb,
            forall|i: int|
                0 <= i < baseline_idxs@.len() ==> baseline_idxs@[i]
                    < baseline_flagmasks.spec_num_baselines(),
            forall|t2: int, c2: int, b2: int|
                flags.in_bounds(t2, c2, b2) ==> #[trigger] flags.at(t2, c2, b2) == if t2 < t {
                    old(flags).at(t2, c2, b2) || baseline_flagmasks.value(
                        baseline_idxs@[b2] as int,
                        c2,
                        t2,
                    )
                } else {
                    old(flags).at(t2, c2, b2)
                },
        decreases nt - t,
    {
        let mut c: usize = 0;
        while c < nc
            invariant
                flags.wf(),
                flags.dims() == old(flags).dims(),
                flags.dims() == (nt, nc, nb),
                t < nt,
                c <= nc,
                baseline_flagmasks.wf(),
                baseline_flagmasks.spec_width() == nt,
                baseline_flagmasks.spec_height() == nc,
                baseline_idxs@.len() == nb,
                forall|i: int|
                    0 <= i < baseline_idxs@.len() ==> baseline_idxs@[i]
                        < baseline_flagmasks.spec_num_baselines(),
                forall|t2: int, c2: int, b2: int|
                    flags.in_bounds(t2, c2, b2) ==> #[trigger] flags.at(t2, c2, b2) == if t2 < t
                        || (t2 == t && c2 < c) {
                        old(flags).at(t2, c2, b2) || baseline_flagmasks.value(
                            baseline_idxs@[b2] as int,
                            c2,
                            t2,
                        )
                    } else {
                        old(flags).at(t2, c2, b2)
                    },
            decreases nc - c,
        {
            let mut b: usize = 0;
            while b < nb
                invariant
                    flags.wf(),
                    flags.dims() == old(flags).dims(),
                    flags.dims() == (nt, nc, nb),
                    t < nt,
                    c < nc,
                    b <= nb,
                    baseline_flagmasks.wf(),
                    baseline_flagmasks.spec_width() == nt,
                    baseline_flagmasks.spec_height() == nc,
                    baseline_idxs@.len() == nb,
                    forall|i: int|
                        0 <= i < baseline_idxs@.len() ==> baseline_idxs@[i]
                            < baseline_flagmasks.spec_num_baselines(),
                    forall|t2: int, c2: int, b2: int|
                        flags.in_bounds(t2, c2, b2) ==> #[trigger] flags.at(t2, c2, b2) == if t2
                            < t || (t2 == t && c2 < c) || (t2 == t && c2 == c && b2 < b) {
                            old(flags).at(t2, c2, b2) || baseline_flagmasks.value(
                                baseline_idxs@[b2] as int,
                                c2,
                                t2,
                            )
                        } else {
                            old(flags).at(t2, c2, b2)
                        },
                decreases nb - b,
            {
                let flagged = baseline_flagmasks.get(baseline_idxs[b], c, t);
                if flagged {
                    flags.set(t, c, b, true);
                }
                b += 1;
            }
            c += 1;
        }
        t += 1;
    }
}

/// Reshapes the outcome of reading each HDU of the selected coarse channels
/// and timesteps into one image set per baseline of the observation: pixel
/// (fine channel `y`, timestep `x`) of image `k` of baseline `bl` takes word
/// `k` of that baseline's sample at fine channel `y % fine` in the read of
/// coarse channel `y / fine` at timestep `x`, or `fill` where that read
/// failed. Where flag masks are given, each failed read sets the flags of its
/// whole extent in every baseline's mask; the other flags are kept. An empty
/// selection, or one naming a timestep or coarse channel the observation
/// does not have, is refused before any work is done.
pub fn context_to_baseline_imgsets<W: Copy>(
    context: &ObsContext,
    img_coarse_chan_idxs: &[usize],
    img_timestep_idxs: &[usize],
    hdu_reads: &Vec<Vec<Option<Vec<W>>>>,
    fill: W,
    baseline_flagmasks: Option<BaselineFlagmasks>,
) -> (r: Result<(BaselineImgsets<W>, Option<BaselineFlagmasks>), BirliError>)
    requires
        imgsets_fit(*context, img_coarse_chan_idxs@.len() as int, img_timestep_idxs@.len() as int),
        index_selection_error(*context, img_coarse_chan_idxs@, img_timestep_idxs@) is None
            ==> reads_shaped(
            hdu_reads@,
            img_coarse_chan_idxs@.len() as int,
            img_timestep_idxs@.len() as int,
            context.hdu_len(),
        ),
        baseline_flagmasks matches Some(m) ==> {
            &&& m.wf()
            &&& m.spec_num_baselines() == context.baselines@.len()
            &&& m.spec_height() == img_coarse_chan_idxs@.len() * context.num_fine_chans_per_coarse
            &&& m.spec_width() == img_timestep_idxs@.len()
        },
    ensures
        r is Ok <==> index_selection_error(*context, img_coarse_chan_idxs@, img_timestep_idxs@) is None,
        r is Err ==> r == Err::<(BaselineImgsets<W>, Option<BaselineFlagmasks>), BirliError>(
            index_selection_error(*context, img_coarse_chan_idxs@, img_timestep_idxs@)->0,
        ),
        r matches Ok((imgsets, masks)) ==> {
            &&& imgsets.wf()
            &&& imgsets.spec_num_baselines() == context.baselines@.len()
            &&& imgsets.spec_height() == img_coarse_chan_idxs@.len()
                * context.num_fine_chans_per_coarse
            &&& imgsets.spec_width() == img_timestep_idxs@.len()
            &&& forall|bl: int, k: int, y: int, x: int|
                imgsets.in_bounds(bl, k, y, x) ==> #[trigger] imgsets.value(bl, k, y, x)
                    == match hdu_reads@[y / context.num_fine_chans_per_coarse as int]@[x] {
                    Some(hdu) => hdu_word(
                        hdu@,
                        context.num_fine_chans_per_coarse as int,
                        bl,
                        y % context.num_fine_chans_per_coarse as int,
                        k,
                    ),
                    None => fill,
                }
            &&& baseline_flagmasks is None ==> masks is None
            &&& baseline_flagmasks matches Some(m) ==> masks matches Some(m2) && {
                &&& m2.wf()
                &&& m2.spec_num_baselines() == m.spec_num_baselines()
                &&& m2.spec_height() == m.spec_height()
                &&& m2.spec_width() == m.spec_width()
                &&& forall|bl: int, y: int, x: int|
                    m2.in_bounds(bl, y, x) ==> #[trigger] m2.value(bl, y, x) == (m.value(bl, y, x)
                        || hdu_reads@[y / context.num_fine_chans_per_coarse as int]@[x] is None)
            }
        },
{
    match check_index_selection(context, img_coarse_chan_idxs, img_timestep_idxs) {
        Ok(()) => {},
        Err(e) => {
            return Err(e);
        },
    }
    Ok(
        build_baseline_imgsets(
            context,
            img_coarse_chan_idxs,
            img_timestep_idxs,
            hdu_reads,
            fill,
            baseline_flagmasks,
        ),
    )
}

} // verus!
