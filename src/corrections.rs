use vstd::prelude::*;
use crate::context::ObsContext;
use crate::cube::Cube;
use crate::error::BirliError;

verus! {

/// One of the two orthogonal feeds of an antenna.
#[derive(Clone, Copy, Debug, PartialEq, Eq, Structural)]
pub enum Feed {
    X,
    Y,
}

/// The feeds that polarization product `p` (0: XX, 1: XY, 2: YX, 3: YY)
/// correlates: the feed of the baseline's first antenna, then that of its
/// second.
pub open spec fn spec_product_feeds(p: int) -> (Feed, Feed) {
    if p == 0 {
        (Feed::X, Feed::X)
    } else if p == 1 {
        (Feed::X, Feed::Y)
    } else if p == 2 {
        (Feed::Y, Feed::X)
    } else {
        (Feed::Y, Feed::Y)
    }
}

/// The feeds that polarization product `p` (0: XX, 1: XY, 2: YX, 3: YY)
/// correlates.
pub fn product_feeds(p: usize) -> (r: (Feed, Feed))
    requires
        p < 4,
    ensures
        r == spec_product_feeds(p as int),
{
    if p == 0 {
        (Feed::X, Feed::X)
    } else if p == 1 {
        (Feed::X, Feed::Y)
    } else if p == 2 {
        (Feed::Y, Feed::X)
    } else {
        (Feed::Y, Feed::Y)
    }
}

/// The electrical-length difference that the cable correction removes from
/// one polarization product of one baseline: the length of `feed2` of
/// `ant2` minus the length of `feed1` of `ant1`.
#[derive(Clone, Copy, Debug, PartialEq, Eq, Structural)]
pub struct CableTerm {
    pub ant1: usize,
    pub feed1: Feed,
    pub ant2: usize,
    pub feed2: Feed,
}

/// A baseline index that exists and whose two antennas exist.
pub open spec fn baseline_ok(context: ObsContext, bl: usize) -> bool {
    &&& bl < context.baselines@.len()
    &&& context.baselines@[bl as int].0 < context.num_ants
    &&& context.baselines@[bl as int].1 < context.num_ants
}

/// The error for the first selected baseline that does not exist or refers to
/// an antenna that does not exist; `None` when there is none.
pub open spec fn baseline_error(context: ObsContext, baseline_idxs: Seq<usize>) -> Option<BirliError> {
    if exists|i: int| 0 <= i < baseline_idxs.len() && !baseline_ok(context, baseline_idxs[i]) {
        let i = choose|i: int|
            0 <= i < baseline_idxs.len() && !baseline_ok(context, baseline_idxs[i]) && forall|j: int|
                0 <= j < i ==> baseline_ok(context, baseline_idxs[j]);
        let bl = baseline_idxs[i];
        if bl >= context.baselines@.len() {
            Some(
                BirliError::BaselineOutOfRange {
                    baseline_idx: bl,
                    num_baselines: context.baselines@.len() as usize,
                },
            )
        } else if context.baselines@[bl as int].0 >= context.num_ants {
            Some(
                BirliError::AntennaOutOfRange {
                    baseline_idx: bl,
                    ant_idx: context.baselines@[bl as int].0,
                    num_ants: context.num_ants,
                },
            )
        } else {
            Some(
                BirliError::AntennaOutOfRange {
                    baseline_idx: bl,
                    ant_idx: context.baselines@[bl as int].1,
                    num_ants: context.num_ants,
                },
            )
        }
    } else {
        None
    }
}

/// Checks that every selected baseline exists and refers to antennas that
/// exist, reporting the first that does not.
pub fn check_baselines(context: &ObsContext, baseline_idxs: &[usize]) -> (r: Result<(), BirliError>)
    ensures
        r is Ok <==> baseline_error(*context, baseline_idxs@) is None,
        r is Err ==> r == Err::<(), BirliError>(baseline_error(*context, baseline_idxs@)->0),
{
    let num_baselines = context.baselines.len();
    let mut i: usize = 0;
    while i < baseline_idxs.len()
        invariant
            i <= baseline_idxs@.len(),
            num_baselines == context.baselines@.len(),
            forall|j: int| 0 <= j < i ==> baseline_ok(*context, baseline_idxs@[j]),
        decreases baseline_idxs@.len() - i,
    {
        let bl = baseline_idxs[i];
        let bad = if bl >= num_baselines {
            Some(BirliError::BaselineOutOfRange { baseline_idx: bl, num_baselines })
        } else if context.baselines[bl].0 >= context.num_ants {
            Some(
                BirliError::AntennaOutOfRange {
                    baseline_idx: bl,
                    ant_idx: context.baselines[bl].0,
                    num_ants: context.num_ants,
                },
            )
        } else if context.baselines[bl].1 >= context.num_ants {
            Some(
                BirliError::AntennaOutOfRange {
                    baseline_idx: bl,
                    ant_idx: context.baselines[bl].1,
                    num_ants: context.num_ants,
                },
            )
        } else {
            None
        };
        match bad {
            Some(e) => {
                proof {
                    let s = baseline_idxs@;
                    assert(!baseline_ok(*context, s[i as int]));
                    let k = choose|k: int|
                        0 <= k < s.len() && !baseline_ok(*context, s[k]) && forall|j: int|
                            0 <= j < k ==> baseline_ok(*context, s[j]);
                    if k > i {
                        assert(baseline_ok(*context, s[i as int]));
                    }
                    assert(k == i as int);
                }
                return Err(e);
            },
            None => {},
        }
        i += 1;
    }
    Ok(())
}

/// The cable term of polarization product `p` of baseline `bl`.
pub open spec fn spec_cable_term(context: ObsContext, bl: usize, p: int) -> CableTerm {
    CableTerm {
        ant1: context.baselines@[bl as int].0,
        feed1: spec_product_feeds(p).0,
        ant2: context.baselines@[bl as int].1,
        feed2: spec_product_feeds(p).1,
    }
}

/// For each selected baseline `b` and polarization product `p`, at position
/// `b * 4 + p`, the pair of (antenna, feed) whose electrical lengths the cable
/// correction subtracts. A selected baseline that does not exist, or refers
/// to an antenna that does not exist, is an error.
pub fn cable_length_terms(context: &ObsContext, baseline_idxs: &[usize]) -> (r: Result<
    Vec<CableTerm>,
    BirliError,
>)
    requires
        baseline_idxs@.len() * 4 <= usize::MAX,
    ensures
        r is Ok <==> baseline_error(*context, baseline_idxs@) is None,
        r is Err ==> r == Err::<Vec<CableTerm>, BirliError>(
            baseline_error(*context, baseline_idxs@)->0,
        ),
        r matches Ok(terms) ==> {
            &&& terms@.len() == baseline_idxs@.len() * 4
            &&& forall|b: int, p: int|
                0 <= b < baseline_idxs@.len() && 0 <= p < 4 ==> #[trigger] terms@[b * 4 + p]
                    == spec_cable_term(*context, baseline_idxs@[b], p)
        },
{
    match check_baselines(context, baseline_idxs) {
        Ok(()) => {},
        Err(e) => {
            return Err(e);
        },
    }
    let nb = baseline_idxs.len();
    let mut terms: Vec<CableTerm> = Vec::with_capacity(nb * 4);
    let mut b: usize = 0;
    while b < nb
        invariant
            b <= nb,
            nb == baseline_idxs@.len(),
            nb * 4 <= usize::MAX,
            terms@.len() == b * 4,
            baseline_error(*context, baseline_idxs@) is None,
            forall|b2: int, p: int|
                0 <= b2 < b && 0 <= p < 4 ==> #[trigger] terms@[b2 * 4 + p] == spec_cable_term(
                    *context,
                    baseline_idxs@[b2],
                    p,
                ),
        decreases nb - b,
    {
        let bl = baseline_idxs[b];
        proof {
            if !baseline_ok(*context, bl) {
                assert(exists|i: int|
                    0 <= i < baseline_idxs@.len() && !baseline_ok(*context, baseline_idxs@[i]));
            }
        }
        let (ant1, ant2) = context.baselines[bl];
        let mut p: usize = 0;
        while p < 4
            invariant
                p <= 4,
                b < nb,
                nb == baseline_idxs@.len(),
                terms@.len() == b * 4 + p,
                bl == baseline_idxs@[b as int],
                baseline_ok(*context, bl),
                (ant1, ant2) == context.baselines@[bl as int],
                forall|b2: int, p2: int|
                    0 <= b2 < b && 0 <= p2 < 4 ==> #[trigger] terms@[b2 * 4 + p2] == spec_cable_term(
                        *context,
                        baseline_idxs@[b2],
                        p2,
                    ),
                forall|p2: int|
                    0 <= p2 < p ==> #[trigger] terms@[b * 4 + p2] == spec_cable_term(
                        *context,
                        bl,
                        p2,
                    ),
            decreases 4 - p,
        {
            let (feed1, feed2) = product_feeds(p);
            terms.push(CableTerm { ant1, feed1, ant2, feed2 });
            p += 1;
        }
        proof {
            assert forall|b2: int, p2: int|
                0 <= b2 < b + 1 && 0 <= p2 < 4 implies #[trigger] terms@[b2 * 4 + p2]
                    == spec_cable_term(*context, baseline_idxs@[b2], p2) by {
                if b2 == b {
                    assert(terms@[b * 4 + p2] == spec_cable_term(*context, bl, p2));
                }
            }
        }
        b += 1;
    }
    Ok(terms)
}

/// Which of the two corrections a run applies.
#[derive(Clone, Copy, Debug, PartialEq, Eq, Structural)]
pub struct CorrectionChoice {
    /// Apply the cable-length correction.
    pub cable_lengths: bool,
    /// Apply the geometric correction.
    pub geometry: bool,
}

/// Decides which corrections to apply: each one runs unless the metadata
/// says the correlator already applied it or the user turned it off, since
/// applying a rotation twice doubles it.
pub fn choose_corrections(
    cable_delays_applied: bool,
    geometric_delays_applied: bool,
    no_cable_delay: bool,
    no_geometric_delay: bool,
) -> (r: CorrectionChoice)
    ensures
        r.cable_lengths == (!cable_delays_applied && !no_cable_delay),
        r.geometry == (!geometric_delays_applied && !no_geometric_delay),
{
    CorrectionChoice {
        cable_lengths: !cable_delays_applied && !no_cable_delay,
        geometry: !geometric_delays_applied && !no_geometric_delay,
    }
}

/// Words `2p` and `2p + 1` of `after` (the real and imaginary parts of
/// polarization product `p`) are a result that `rotate` may give for the same
/// words of `before` and the rotation factor `rot`.
pub open spec fn product_rotated<W, R, F: Fn(W, W, R) -> (W, W)>(
    rotate: F,
    before: [W; 8],
    after: [W; 8],
    p: int,
    rot: R,
) -> bool {
    rotate.ensures((before@[2 * p], before@[2 * p + 1], rot), (after@[2 * p], after@[2 * p + 1]))
}

/// Where the cable correction keeps the factor for cube baseline `b`,
/// polarization product `p` and channel `c`: the timestep plays no part.
pub open spec fn cable_rotation_index(num_chans: int, b: int, p: int, c: int) -> int {
    (b * 4 + p) * num_chans + c
}

/// Where the geometric correction keeps the factor for timestep `t`, cube
/// baseline `b` and channel `c`: the polarization product plays no part.
pub open spec fn geometric_rotation_index(num_baselines: int, num_chans: int, t: int, b: int, c: int) -> int {
    (t * num_baselines + b) * num_chans + c
}

/// Baseline `bl` of the observation correlates an antenna with itself.
pub open spec fn is_autocorrelation(context: ObsContext, bl: usize) -> bool {
    context.baselines@[bl as int].0 == context.baselines@[bl as int].1
}

/// A cell of cube baseline `b` at channel `c` after the cable correction: an
/// autocorrelation keeps every word; any other baseline has each product
/// rotated by its own factor for (`b`, product, `c`).
pub open spec fn cable_corrected<W, R, F: Fn(W, W, R) -> (W, W)>(
    rotate: F,
    before: [W; 8],
    after: [W; 8],
    auto: bool,
    rotations: Seq<R>,
    num_chans: int,
    b: int,
    c: int,
) -> bool {
    if auto {
        after == before
    } else {
        forall|p: int|
            0 <= p < 4 ==> #[trigger] product_rotated(
                rotate,
                before,
                after,
                p,
                rotations[cable_rotation_index(num_chans, b, p, c)],
            )
    }
}

/// A cell of timestep `t`, cube baseline `b`, channel `c` after the geometric
/// correction: every product rotated by the one factor for (`t`, `b`, `c`).
pub open spec fn geometry_corrected<W, R, F: Fn(W, W, R) -> (W, W)>(
    rotate: F,
    before: [W; 8],
    after: [W; 8],
    rotations: Seq<R>,
    num_baselines: int,
    num_chans: int,
    t: int,
    b: int,
    c: int,
) -> bool {
    forall|p: int|
        0 <= p < 4 ==> #[trigger] product_rotated(
            rotate,
            before,
            after,
            p,
            rotations[geometric_rotation_index(num_baselines, num_chans, t, b, c)],
        )
}

proof fn lemma_rotation_index(n: int, m: int, x: int, y: int, c: int)
    requires
        0 <= x < n,
        0 <= y < m,
        0 <= c,
    ensures
        0 <= (x * m + y) * c,
        (x * m + y) * c <= (x * m + y) * c + c <= n * m * c,
        c >= 1 ==> 0 <= x * m <= x * m + y <= n * m * c,
{
    assert(0 <= x * m) by (nonlinear_arith)
        requires
            0 <= x,
            0 <= m,
    ;
    assert(c >= 1 ==> n * m <= n * m * c) by (nonlinear_arith)
        requires
            0 <= n,
            0 <= m,
    ;
    assert(0 <= x * m + y < n * m) by (nonlinear_arith)
        requires
            0 <= x < n,
            0 <= y < m,
    ;
    assert(0 <= (x * m + y) * c) by (nonlinear_arith)
        requires
            0 <= x * m + y,
            0 <= c,
    ;
    assert((x * m + y) * c + c <= n * m * c) by (nonlinear_arith)
        requires
            x * m + y + 1 <= n * m,
            0 <= c,
    ;
}

/// Rotates all four products of `cell` by the factors `r0`..`r3`.
fn rotate_products<W: Copy, R: Copy, F: Fn(W, W, R) -> (W, W)>(
    rotate: &F,
    cell: [W; 8],
    r0: R,
    r1: R,
    r2: R,
    r3: R,
) -> (r: [W; 8])
    requires
        forall|a: W, b: W, x: R| rotate.requires((a, b, x)),
    ensures
        product_rotated(*rotate, cell, r, 0, r0),
        product_rotated(*rotate, cell, r, 1, r1),
        product_rotated(*rotate, cell, r, 2, r2),
        product_rotated(*rotate, cell, r, 3, r3),
{
    let (a0, a1) = rotate(cell[0], cell[1], r0);
    let (b0, b1) = rotate(cell[2], cell[3], r1);
    let (c0, c1) = rotate(cell[4], cell[5], r2);
    let (d0, d1) = rotate(cell[6], cell[7], r3);
    [a0, a1, b0, b1, c0, c1, d0, d1]
}

/// Removes the phase that differing electrical lengths between the two
/// antennas of each baseline put on the visibilities. Cube baseline `b` is
/// baseline `baseline_idxs[b]` of the observation; autocorrelations are
/// left untouched, and every other cell has each polarization product `p`
/// rotated by the factor `rotations[(b * 4 + p) * num_chans + c]`, the same
/// at every timestep. A selected baseline that does not exist, or refers to an
/// antenna that does not exist, is an error, and the cube is then unchanged.
pub fn correct_cable_lengths<W: Copy, R: Copy, F: Fn(W, W, R) -> (W, W)>(
    context: &ObsContext,
    jones: &mut Cube<[W; 8]>,
    baseline_idxs: &[usize],
    rotations: &Vec<R>,
    rotate: F,
) -> (r: Result<(), BirliError>)
    requires
        old(jones).wf(),
        old(jones).dims().2 == baseline_idxs@.len(),
        rotations@.len() == old(jones).dims().2 * 4 * old(jones).dims().1,
        forall|a: W, b: W, x: R| rotate.requires((a, b, x)),
    ensures
        r is Ok <==> baseline_error(*context, baseline_idxs@) is None,
        r is Err ==> r == Err::<(), BirliError>(baseline_error(*context, baseline_idxs@)->0)
            && *final(jones) == *old(jones),
        final(jones).wf(),
        final(jones).dims() == old(jones).dims(),
        r is Ok ==> forall|t: int, c: int, b: int|
            final(jones).in_bounds(t, c, b) ==> cable_corrected(
                rotate,
                old(jones).at(t, c, b),
                #[trigger] final(jones).at(t, c, b),
                is_autocorrelation(*context, baseline_idxs@[b]),
                rotations@,
                final(jones).dims().1 as int,
                b,
                c,
            ),
{
    match check_baselines(context, baseline_idxs) {
        Ok(()) => {},
        Err(e) => {
            return Err(e);
        },
    }
    let nt = jones.num_timesteps();
    let nc = jones.num_chans();
    let nb = jones.num_baselines();
    let ghost rots = rotations@;
    let num_rotations = rotations.len();
    let mut b: usize = 0;
    while b < nb
        invariant
            jones.wf(),
            jones.dims() == old(jones).dims(),
            jones.dims() == (nt, nc, nb),
            b <= nb,
            nb == baseline_idxs@.len(),
            rotations@.len() == nb * 4 * nc,
            num_rotations == rotations@.len(),
            baseline_error(*context, baseline_idxs@) is None,
            forall|a: W, b: W, x: R| rotate.requires((a, b, x)),
            forall|t2: int, c2: int, b2: int|
                jones.in_bounds(t2, c2, b2) ==> if b2 < b {
                    cable_corrected(
                        rotate,
                        old(jones).at(t2, c2, b2),
                        #[trigger] jones.at(t2, c2, b2),
                        is_autocorrelation(*context, baseline_idxs@[b2]),
                        rotations@,
                        nc as int,
                        b2,
                        c2,
                    )
                } else {
                    jones.at(t2, c2, b2) == old(jones).at(t2, c2, b2)
                },
        decreases nb - b,
    {
        let bl = baseline_idxs[b];
        proof {
            if !baseline_ok(*context, bl) {
                assert(exists|i: int|
                    0 <= i < baseline_idxs@.len() && !baseline_ok(
                        *context,
                        baseline_idxs@[i],
                    ));
            }
        }
        let (ant1, ant2) = context.baselines[bl];
        if ant1 != ant2 {
            let mut t: usize = 0;
            while t < nt
                invariant
                    jones.wf(),
                    jones.dims() == old(jones).dims(),
                    jones.dims() == (nt, nc, nb),
                    b < nb,
                    t <= nt,
                    nb == baseline_idxs@.len(),
                    bl == baseline_idxs@[b as int],
                    !is_autocorrelation(*context, bl),
                    rotations@.len() == nb * 4 * nc,
                    num_rotations == rotations@.len(),
                    forall|a: W, b: W, x: R| rotate.requires((a, b, x)),
                    forall|t2: int, c2: int, b2: int|
                        jones.in_bounds(t2, c2, b2) ==> if b2 < b || (b2 == b && t2 < t) {
                            cable_corrected(
                                rotate,
                                old(jones).at(t2, c2, b2),
                                #[trigger] jones.at(t2, c2, b2),
                                is_autocorrelation(*context, baseline_idxs@[b2]),
                                rotations@,
                                nc as int,
                                b2,
                                c2,
                            )
                        } else {
                            jones.at(t2, c2, b2) == old(jones).at(t2, c2, b2)
                        },
                decreases nt - t,
            {
                let mut c: usize = 0;
                while c < nc
                    invariant
                        jones.wf(),
                        jones.dims() == old(jones).dims(),
                        jones.dims() == (nt, nc, nb),
                        b < nb,
                        t < nt,
                        c <= nc,
                        nb == baseline_idxs@.len(),
                        bl == baseline_idxs@[b as int],
                        !is_autocorrelation(*context, bl),
                        rotations@.len() == nb * 4 * nc,
                        num_rotations == rotations@.len(),
                        forall|a: W, b: W, x: R| rotate.requires((a, b, x)),
                        forall|t2: int, c2: int, b2: int|
                            jones.in_bounds(t2, c2, b2) ==> if b2 < b || (b2 == b && t2 < t) || (b2
                                == b && t2 == t && c2 < c) {
                                cable_corrected(
                                    rotate,
                                    old(jones).at(t2, c2, b2),
                                    #[trigger] jones.at(t2, c2, b2),
                                    is_autocorrelation(*context, baseline_idxs@[b2]),
                                    rotations@,
                                    nc as int,
                                    b2,
                                    c2,
                                )
                            } else {
                                jones.at(t2, c2, b2) == old(jones).at(t2, c2, b2)
                            },
                    decreases nc - c,
                {
                    proof {
                        lemma_rotation_index(nb as int, 4, b as int, 3, nc as int);
                        assert((b * 4) * nc <= (b * 4 + 1) * nc <= (b * 4 + 2) * nc <= (b * 4 + 3)
                            * nc) by (nonlinear_arith)
                            requires
                                0 <= nc,
                                0 <= b,
                        ;
                    }
                    let cell = jones.get(t, c, b);
                    let new_cell = rotate_products(
                        &rotate,
                        cell,
                        rotations[(b * 4) * nc + c],
                        rotations[(b * 4 + 1) * nc + c],
                        rotations[(b * 4 + 2) * nc + c],
                        rotations[(b * 4 + 3) * nc + c],
                    );
                    jones.set(t, c, b, new_cell);
                    proof {
                        assert forall|p: int| 0 <= p < 4 implies #[trigger] product_rotated(
                            rotate,
                            cell,
                            new_cell,
                            p,
                            rotations@[cable_rotation_index(nc as int, b as int, p, c as int)],
                        ) by {}
                    }
                    c += 1;
                }
                t += 1;
            }
        }
        b += 1;
    }
    Ok(())
}

/// Removes the phase that the projected path-length difference between the
/// antennas of each baseline puts on the visibilities: every polarization
/// product of cell (t, c, b) is rotated by the one factor
/// `rotations[(t * num_baselines + b) * num_chans + c]`.
pub fn correct_geometry<W: Copy, R: Copy, F: Fn(W, W, R) -> (W, W)>(
    jones: &mut Cube<[W; 8]>,
    rotations: &Vec<R>,
    rotate: F,
)
    requires
        old(jones).wf(),
        rotations@.len() == old(jones).dims().0 * old(jones).dims().2 * old(jones).dims().1,
        forall|a: W, b: W, x: R| rotate.requires((a, b, x)),
    ensures
        final(jones).wf(),
        final(jones).dims() == old(jones).dims(),
        forall|t: int, c: int, b: int|
            final(jones).in_bounds(t, c, b) ==> geometry_corrected(
                rotate,
                old(jones).at(t, c, b),
                #[trigger] final(jones).at(t, c, b),
                rotations@,
                final(jones).dims().2 as int,
                final(jones).dims().1 as int,
                t,
                b,
                c,
            ),
{
    let nt = jones.num_timesteps();
    let nc = jones.num_chans();
    let nb = jones.num_baselines();
    let num_rotations = rotations.len();
    let mut t: usize = 0;
    while t < nt
        invariant
            jones.wf(),
            jones.dims() == old(jones).dims(),
            jones.dims() == (nt, nc, nb),
            t <= nt,
            rotations@.len() == nt * nb * nc,
            num_rotations == rotations@.len(),
            forall|a: W, b: W, x: R| rotate.requires((a, b, x)),
            forall|t2: int, c2: int, b2: int|
                jones.in_bounds(t2, c2, b2) ==> if t2 < t {
                    geometry_corrected(
                        rotate,
                        old(jones).at(t2, c2, b2),
                        #[trigger] jones.at(t2, c2, b2),
                        rotations@,
                        nb as int,
                        nc as int,
                        t2,
                        b2,
                        c2,
                    )
                } else {
                    jones.at(t2, c2, b2) == old(jones).at(t2, c2, b2)
                },
        decreases nt - t,
    {
        let mut b: usize = 0;
        while b < nb
            invariant
                jones.wf(),
                jones.dims() == old(jones).dims(),
                jones.dims() == (nt, nc, nb),
                t < nt,
                b <= nb,
                rotations@.len() == nt * nb * nc,
                num_rotations == rotations@.len(),
                forall|a: W, b: W, x: R| rotate.requires((a, b, x)),
                forall|t2: int, c2: int, b2: int|
                    jones.in_bounds(t2, c2, b2) ==> if t2 < t || (t2 == t && b2 < b) {
                        geometry_corrected(
                            rotate,
                            old(jones).at(t2, c2, b2),
                            #[trigger] jones.at(t2, c2, b2),
                            rotations@,
                            nb as int,
                            nc as int,
                            t2,
                            b2,
                            c2,
                        )
                    } else {
                        jones.at(t2, c2, b2) == old(jones).at(t2, c2, b2)
                    },
            decreases nb - b,
        {
            let mut c: usize = 0;
            while c < nc
                invariant
                    jones.wf(),
                    jones.dims() == old(jones).dims(),
                    jones.dims() == (nt, nc, nb),
                    t < nt,
                    b < nb,
                    c <= nc,
                    rotations@.len() == nt * nb * nc,
                    num_rotations == rotations@.len(),
                    forall|a: W, b: W, x: R| rotate.requires((a, b, x)),
                    forall|t2: int, c2: int, b2: int|
                        jones.in_bounds(t2, c2, b2) ==> if t2 < t || (t2 == t && b2 < b) || (t2
                            == t && b2 == b && c2 < c) {
                            geometry_corrected(
                                rotate,
                                old(jones).at(t2, c2, b2),
                                #[trigger] jones.at(t2, c2, b2),
                                rotations@,
                                nb as int,
                                nc as int,
                                t2,
                                b2,
                                c2,
                            )
                        } else {
                            jones.at(t2, c2, b2) == old(jones).at(t2, c2, b2)
                        },
                decreases nc - c,
            {
                proof {
                    lemma_rotation_index(nt as int, nb as int, t as int, b as int, nc as int);
                }
                let i = (t * nb + b) * nc + c;
                let rot = rotations[i];
                let cell = jones.get(t, c, b);
                let new_cell = rotate_products(&rotate, cell, rot, rot, rot, rot);
                jones.set(t, c, b, new_cell);
                proof {
                    assert forall|p: int| 0 <= p < 4 implies #[trigger] product_rotated(
                        rotate,
                        cell,
                        new_cell,
                        p,
                        rotations@[geometric_rotation_index(nb as int, nc as int, t as int, b as int, c as int)],
                    ) by {}
                }
                c += 1;
            }
            b += 1;
        }
        t += 1;
    }
}

/// The cable correction rotates a polarization product of a baseline at a
/// channel by one factor at every timestep: two cells of the same cross
/// baseline and channel, corrected, share the factor of each product.
pub proof fn lemma_cable_rotation_shared_across_timesteps<W, R, F: Fn(W, W, R) -> (W, W)>(
    rotate: F,
    before1: [W; 8],
    after1: [W; 8],
    before2: [W; 8],
    after2: [W; 8],
    rotations: Seq<R>,
    num_chans: int,
    b: int,
    c: int,
    p: int,
)
    requires
        cable_corrected(rotate, before1, after1, false, rotations, num_chans, b, c),
        cable_corrected(rotate, before2, after2, false, rotations, num_chans, b, c),
        0 <= p < 4,
    ensures
        exists|rot: R|
            product_rotated(rotate, before1, after1, p, rot) && product_rotated(
                rotate,
                before2,
                after2,
                p,
                rot,
            ),
{
    let rot = rotations[cable_rotation_index(num_chans, b, p, c)];
    assert(product_rotated(rotate, before1, after1, p, rot));
    assert(product_rotated(rotate, before2, after2, p, rot));
}

/// An autocorrelation comes out of the cable correction bit for bit as it
/// went in.
pub proof fn lemma_cable_keeps_autocorrelations<W, R, F: Fn(W, W, R) -> (W, W)>(
    rotate: F,
    before: [W; 8],
    after: [W; 8],
    rotations: Seq<R>,
    num_chans: int,
    b: int,
    c: int,
)
    requires
        cable_corrected(rotate, before, after, true, rotations, num_chans, b, c),
    ensures
        after == before,
{
}

/// The geometric correction rotates the four polarization products of a
/// sample by one and the same factor.
pub proof fn lemma_geometric_rotation_shared_across_products<W, R, F: Fn(W, W, R) -> (W, W)>(
    rotate: F,
    before: [W; 8],
    after: [W; 8],
    rotations: Seq<R>,
    num_baselines: int,
    num_chans: int,
    t: int,
    b: int,
    c: int,
)
    requires
        geometry_corrected(rotate, before, after, rotations, num_baselines, num_chans, t, b, c),
    ensures
        exists|rot: R|
            #[trigger] product_rotated(rotate, before, after, 0, rot) && product_rotated(
                rotate,
                before,
                after,
                1,
                rot,
            ) && product_rotated(rotate, before, after, 2, rot) && product_rotated(
                rotate,
                before,
                after,
                3,
                rot,
            ),
{
    let rot = rotations[geometric_rotation_index(num_baselines, num_chans, t, b, c)];
    assert(product_rotated(rotate, before, after, 0, rot));
    assert(product_rotated(rotate, before, after, 1, rot));
    assert(product_rotated(rotate, before, after, 2, rot));
    assert(product_rotated(rotate, before, after, 3, rot));
}

} // verus!
