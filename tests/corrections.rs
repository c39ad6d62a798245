use birli::{
    cable_length_terms, choose_corrections, context_to_jones_array, correct_cable_lengths,
    correct_geometry, product_feeds, BirliError, CableTerm, CorrectionChoice, Cube, Feed,
    ObsContext,
};
use std::f64::consts::PI;

const VEL_C: f64 = 299_792_458.0;

/// Two antennas whose X feeds differ in electrical length by 10 m.
fn context() -> ObsContext {
    ObsContext {
        obs_id: 1,
        num_timesteps: 4,
        num_coarse_chans: 2,
        num_fine_chans_per_coarse: 2,
        num_ants: 2,
        baselines: vec![(0, 0), (0, 1), (1, 1)],
    }
}

/// Electrical lengths (X, Y) in metres of each antenna.
const LENGTHS: [(f64, f64); 2] = [(100.0, 120.0), (110.0, 125.0)];

fn length(ant: usize, feed: Feed) -> f64 {
    match feed {
        Feed::X => LENGTHS[ant].0,
        Feed::Y => LENGTHS[ant].1,
    }
}

/// Fine channel frequencies of the two selected coarse channels.
const FREQS_HZ: [f64; 4] = [150e6, 150.04e6, 151.28e6, 151.32e6];

fn sample_value(t: usize, c: usize, b: usize, k: usize) -> f32 {
    1.0 + (t * 1000 + c * 100 + b * 10 + k) as f32 / 64.0
}

fn cube(ctx: &ObsContext) -> Cube<[f32; 8]> {
    let reads: Vec<Vec<Option<Vec<f32>>>> = (0..2)
        .map(|cc| {
            (0..4)
                .map(|t| {
                    let mut buf = Vec::new();
                    for b in 0..3 {
                        for f in 0..2 {
                            for k in 0..8 {
                                buf.push(sample_value(t, cc * 2 + f, b, k));
                            }
                        }
                    }
                    Some(buf)
                })
                .collect()
        })
        .collect();
    context_to_jones_array(ctx, &(0..4), &(0..2), &[0, 1, 2], &reads, 0.0f32).unwrap().0
}

fn rotation(angle: f64) -> (f32, f32) {
    let (s, c) = angle.sin_cos();
    (c as f32, s as f32)
}

fn rotate(re: f32, im: f32, rot: (f32, f32)) -> (f32, f32) {
    (re * rot.0 - im * rot.1, re * rot.1 + im * rot.0)
}

fn cable_rotations(terms: &[CableTerm], num_chans: usize) -> Vec<(f32, f32)> {
    let mut rots = Vec::new();
    for term in terms {
        let dl = length(term.ant2, term.feed2) - length(term.ant1, term.feed1);
        for c in 0..num_chans {
            rots.push(rotation(-2.0 * PI * dl * FREQS_HZ[c] / VEL_C));
        }
    }
    rots
}

fn phase_of_ratio(after: (f32, f32), before: (f32, f32)) -> f64 {
    let (ar, ai) = (after.0 as f64, after.1 as f64);
    let (br, bi) = (before.0 as f64, before.1 as f64);
    // after / before = after * conj(before) / |before|^2
    let re = ar * br + ai * bi;
    let im = ai * br - ar * bi;
    im.atan2(re)
}

fn wrap(angle: f64) -> f64 {
    let a = angle.rem_euclid(2.0 * PI);
    if a > PI {
        a - 2.0 * PI
    } else {
        a
    }
}

#[test]
fn product_feeds_pair_each_product() {
    assert_eq!(product_feeds(0), (Feed::X, Feed::X));
    assert_eq!(product_feeds(1), (Feed::X, Feed::Y));
    assert_eq!(product_feeds(2), (Feed::Y, Feed::X));
    assert_eq!(product_feeds(3), (Feed::Y, Feed::Y));
}

#[test]
fn cable_length_terms_of_a_cross_baseline() {
    let ctx = context();
    let terms = cable_length_terms(&ctx, &[1]).unwrap();
    assert_eq!(terms.len(), 4);
    assert_eq!(terms[1], CableTerm { ant1: 0, feed1: Feed::X, ant2: 1, feed2: Feed::Y });
    assert_eq!(terms[2], CableTerm { ant1: 0, feed1: Feed::Y, ant2: 1, feed2: Feed::X });
}

#[test]
fn cable_length_terms_refuse_unknown_antennas() {
    let mut ctx = context();
    ctx.baselines.push((1, 4));
    assert!(matches!(
        cable_length_terms(&ctx, &[0, 3]),
        Err(BirliError::AntennaOutOfRange { baseline_idx: 3, ant_idx: 4, num_ants: 2 })
    ));
    assert!(matches!(
        cable_length_terms(&ctx, &[9]),
        Err(BirliError::BaselineOutOfRange { baseline_idx: 9, num_baselines: 4 })
    ));
}

#[test]
fn cable_correction_xx_phase_at_150_mhz() {
    let ctx = context();
    let before = cube(&ctx);
    let mut jones = cube(&ctx);
    let bls = [0usize, 1, 2];
    let terms = cable_length_terms(&ctx, &bls).unwrap();
    let rots = cable_rotations(&terms, 4);
    correct_cable_lengths(&ctx, &mut jones, &bls, &rots, rotate).unwrap();
    let expected = wrap(-2.0 * PI * 10.0 * 150e6 / VEL_C);
    for t in 0..4 {
        let b = before.get(t, 0, 1);
        let a = jones.get(t, 0, 1);
        let phase = phase_of_ratio((a[0], a[1]), (b[0], b[1]));
        assert!((wrap(phase - expected)).abs() < 1e-5, "{} != {}", phase, expected);
    }
}

#[test]
fn cable_correction_leaves_autocorrelations_bit_identical() {
    let ctx = context();
    let before = cube(&ctx);
    let mut jones = cube(&ctx);
    let bls = [0usize, 1, 2];
    let terms = cable_length_terms(&ctx, &bls).unwrap();
    let rots = cable_rotations(&terms, 4);
    correct_cable_lengths(&ctx, &mut jones, &bls, &rots, rotate).unwrap();
    for t in 0..4 {
        for c in 0..4 {
            for b in [0usize, 2] {
                let a = jones.get(t, c, b);
                let o = before.get(t, c, b);
                for k in 0..8 {
                    assert_eq!(a[k].to_bits(), o[k].to_bits());
                }
            }
            // the cross-correlation did change
            assert_ne!(jones.get(t, c, 1)[0].to_bits(), before.get(t, c, 1)[0].to_bits());
        }
    }
}

#[test]
fn corrections_preserve_magnitude() {
    let ctx = context();
    let before = cube(&ctx);
    let mut jones = cube(&ctx);
    let bls = [0usize, 1, 2];
    let terms = cable_length_terms(&ctx, &bls).unwrap();
    let rots = cable_rotations(&terms, 4);
    correct_cable_lengths(&ctx, &mut jones, &bls, &rots, rotate).unwrap();
    let mut geom = Vec::new();
    for t in 0..4 {
        for b in 0..3 {
            let w = 3.5 * (t as f64 + 1.0) * (b as f64 - 1.0);
            for c in 0..4 {
                geom.push(rotation(-2.0 * PI * w * FREQS_HZ[c] / VEL_C));
            }
        }
    }
    correct_geometry(&mut jones, &geom, rotate);
    for t in 0..4 {
        for c in 0..4 {
            for b in 0..3 {
                let a = jones.get(t, c, b);
                let o = before.get(t, c, b);
                for p in 0..4 {
                    let ma = (a[2 * p] as f64).hypot(a[2 * p + 1] as f64);
                    let mo = (o[2 * p] as f64).hypot(o[2 * p + 1] as f64);
                    assert!((ma - mo).abs() <= mo * 1e-6, "{} != {}", ma, mo);
                }
            }
        }
    }
}

#[test]
fn cable_rotation_is_the_same_at_every_timestep() {
    let ctx = context();
    let mut jones = cube(&ctx);
    // a cube whose every timestep holds the same samples
    for t in 1..4 {
        for c in 0..4 {
            for b in 0..3 {
                let cell = jones.get(0, c, b);
                jones.set(t, c, b, cell);
            }
        }
    }
    let bls = [0usize, 1, 2];
    let terms = cable_length_terms(&ctx, &bls).unwrap();
    let rots = cable_rotations(&terms, 4);
    correct_cable_lengths(&ctx, &mut jones, &bls, &rots, rotate).unwrap();
    for t in 1..4 {
        for c in 0..4 {
            assert_eq!(jones.get(t, c, 1), jones.get(0, c, 1));
        }
    }
}

#[test]
fn geometric_rotation_is_the_same_for_every_product() {
    let ctx = context();
    let mut jones = cube(&ctx);
    for t in 0..4 {
        for c in 0..4 {
            for b in 0..3 {
                jones.set(t, c, b, [1.0, 0.5, 1.0, 0.5, 1.0, 0.5, 1.0, 0.5]);
            }
        }
    }
    let mut geom = Vec::new();
    for t in 0..4 {
        for b in 0..3 {
            for c in 0..4 {
                geom.push(rotation(0.1 * (t * 12 + b * 4 + c) as f64));
            }
        }
    }
    correct_geometry(&mut jones, &geom, rotate);
    let cell = jones.get(2, 3, 1);
    for p in 1..4 {
        assert_eq!(cell[2 * p], cell[0]);
        assert_eq!(cell[2 * p + 1], cell[1]);
    }
    let (cr, ci) = rotate(1.0, 0.5, rotation(0.1 * (2 * 12 + 4 + 3) as f64));
    assert_eq!((cell[0], cell[1]), (cr, ci));
}

#[test]
fn corrections_skip_what_the_correlator_applied() {
    assert_eq!(
        choose_corrections(false, false, false, false),
        CorrectionChoice { cable_lengths: true, geometry: true }
    );
    assert_eq!(
        choose_corrections(true, false, false, false),
        CorrectionChoice { cable_lengths: false, geometry: true }
    );
    assert_eq!(
        choose_corrections(false, true, false, true),
        CorrectionChoice { cable_lengths: true, geometry: false }
    );
    assert_eq!(
        choose_corrections(false, false, true, true),
        CorrectionChoice { cable_lengths: false, geometry: false }
    );
}
