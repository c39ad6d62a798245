use birli::{context_to_jones_array, BirliError, Cube, FlagArray, ObsContext};

fn context() -> ObsContext {
    ObsContext {
        obs_id: 1297526432,
        num_timesteps: 4,
        num_coarse_chans: 2,
        num_fine_chans_per_coarse: 2,
        num_ants: 2,
        baselines: vec![(0, 0), (0, 1), (1, 1)],
    }
}

/// The word a synthetic provider puts at (timestep, coarse channel, baseline,
/// fine channel, word).
fn word(ts: usize, cc: usize, bl: usize, f: usize, k: usize) -> u32 {
    (ts * 10000 + cc * 1000 + bl * 100 + f * 10 + k) as u32
}

fn hdu(ctx: &ObsContext, ts: usize, cc: usize) -> Vec<u32> {
    let mut buf = Vec::new();
    for bl in 0..ctx.baselines.len() {
        for f in 0..ctx.num_fine_chans_per_coarse {
            for k in 0..8 {
                buf.push(word(ts, cc, bl, f, k));
            }
        }
    }
    buf
}

/// Reads every HDU of the selection, failing where `fails` says so.
fn reads(
    ctx: &ObsContext,
    ts: std::ops::Range<usize>,
    cc: std::ops::Range<usize>,
    fails: &[(usize, usize)],
) -> Vec<Vec<Option<Vec<u32>>>> {
    cc.map(|c| {
        ts.clone()
            .map(|t| {
                if fails.contains(&(t, c)) {
                    None
                } else {
                    Some(hdu(ctx, t, c))
                }
            })
            .collect()
    })
    .collect()
}

fn dims<T: Copy>(cube: &Cube<T>) -> (usize, usize, usize) {
    (cube.num_timesteps(), cube.num_chans(), cube.num_baselines())
}

fn flag_dims(flags: &FlagArray) -> (usize, usize, usize) {
    (flags.num_timesteps(), flags.num_chans(), flags.num_baselines())
}

#[test]
fn jones_array_shape_follows_selection() {
    let ctx = context();
    let rd = reads(&ctx, 1..3, 0..2, &[]);
    let (jones, flags) = context_to_jones_array(&ctx, &(1..3), &(0..2), &[0, 2], &rd, 0u32).unwrap();
    assert_eq!(dims(&jones), (2, 4, 2));
    assert_eq!(flag_dims(&flags), (2, 4, 2));

    let rd = reads(&ctx, 0..4, 1..2, &[]);
    let (jones, flags) = context_to_jones_array(&ctx, &(0..4), &(1..2), &[1], &rd, 0u32).unwrap();
    assert_eq!(dims(&jones), (4, 2, 1));
    assert_eq!(flag_dims(&flags), (4, 2, 1));
}

#[test]
fn jones_array_cells_are_the_provider_words() {
    let ctx = context();
    let rd = reads(&ctx, 1..3, 0..2, &[]);
    let bls = [2usize, 1];
    let (jones, flags) = context_to_jones_array(&ctx, &(1..3), &(0..2), &bls, &rd, 0u32).unwrap();
    for t in 0..2 {
        for c in 0..4 {
            for b in 0..2 {
                let cell = jones.get(t, c, b);
                for k in 0..8 {
                    assert_eq!(cell[k], word(t + 1, c / 2, bls[b], c % 2, k));
                }
                assert!(!flags.get(t, c, b));
            }
        }
    }
    // one spot by hand: timestep 2, coarse channel 1, fine channel 1, baseline 2, word 5
    assert_eq!(jones.get(1, 3, 0)[5], 21215);
}

#[test]
fn jones_array_keeps_float_bit_patterns() {
    let ctx = context();
    let odd = [f32::NAN, -0.0, f32::MIN_POSITIVE / 2.0, 1.5, f32::INFINITY, -3.25, 0.0, 7.0];
    let mut buf = Vec::new();
    for _ in 0..ctx.baselines.len() * ctx.num_fine_chans_per_coarse {
        buf.extend_from_slice(&odd);
    }
    let rd = vec![vec![Some(buf)]];
    let (jones, _) = context_to_jones_array(&ctx, &(0..1), &(0..1), &[0, 1, 2], &rd, 0.0f32).unwrap();
    let cell = jones.get(0, 1, 1);
    for k in 0..8 {
        assert_eq!(cell[k].to_bits(), odd[k].to_bits());
    }
}

#[test]
fn jones_array_flags_exactly_the_failed_hdu() {
    // the read of timestep 1, coarse channel 0 fails
    let ctx = context();
    let rd = reads(&ctx, 0..4, 0..2, &[(1, 0)]);
    let (jones, flags) =
        context_to_jones_array(&ctx, &(0..4), &(0..2), &[0, 1, 2], &rd, 0u32).unwrap();
    for t in 0..4 {
        for c in 0..4 {
            for b in 0..3 {
                let failed = t == 1 && c < 2;
                assert_eq!(flags.get(t, c, b), failed, "flag at ({}, {}, {})", t, c, b);
                let cell = jones.get(t, c, b);
                if failed {
                    assert_eq!(cell, [0u32; 8]);
                } else {
                    assert_eq!(cell[3], word(t, c / 2, b, c % 2, 3));
                }
            }
        }
    }
}

#[test]
fn jones_array_all_reads_failed_is_still_ok() {
    let ctx = context();
    let rd = reads(&ctx, 0..2, 0..1, &[(0, 0), (1, 0)]);
    let (jones, flags) = context_to_jones_array(&ctx, &(0..2), &(0..1), &[1], &rd, 9u32).unwrap();
    for t in 0..2 {
        for c in 0..2 {
            assert!(flags.get(t, c, 0));
            assert_eq!(jones.get(t, c, 0), [9u32; 8]);
        }
    }
}

#[test]
fn jones_array_refuses_bad_selections() {
    let ctx = context();
    let empty: Vec<Vec<Option<Vec<u32>>>> = vec![];
    assert!(matches!(
        context_to_jones_array(&ctx, &(2..2), &(0..1), &[0], &vec![vec![]], 0u32),
        Err(BirliError::NoProvidedTimesteps)
    ));
    assert!(matches!(
        context_to_jones_array(&ctx, &(0..1), &(1..1), &[0], &empty, 0u32),
        Err(BirliError::NoProvidedCoarseChans)
    ));
    let rd = reads(&ctx, 3..5, 0..1, &[(3, 0), (4, 0)]);
    assert!(matches!(
        context_to_jones_array(&ctx, &(3..5), &(0..1), &[0], &rd, 0u32),
        Err(BirliError::TimestepOutOfRange { end: 5, num_timesteps: 4 })
    ));
    let rd = reads(&ctx, 0..1, 1..3, &[(0, 1), (0, 2)]);
    assert!(matches!(
        context_to_jones_array(&ctx, &(0..1), &(1..3), &[0], &rd, 0u32),
        Err(BirliError::CoarseChanOutOfRange { end: 3, num_coarse_chans: 2 })
    ));
    let rd = reads(&ctx, 0..1, 0..1, &[]);
    assert!(matches!(
        context_to_jones_array(&ctx, &(0..1), &(0..1), &[1, 5, 7], &rd, 0u32),
        Err(BirliError::BaselineOutOfRange { baseline_idx: 5, num_baselines: 3 })
    ));
}
