use birli::{
    context_to_baseline_imgsets, init_baseline_flagmasks, init_baseline_imgsets, BirliError,
    ObsContext,
};

fn context() -> ObsContext {
    ObsContext {
        obs_id: 1196175296,
        num_timesteps: 3,
        num_coarse_chans: 2,
        num_fine_chans_per_coarse: 2,
        num_ants: 2,
        baselines: vec![(0, 0), (0, 1), (1, 1)],
    }
}

fn word(ts: usize, cc: usize, bl: usize, f: usize, k: usize) -> u32 {
    (ts * 10000 + cc * 1000 + bl * 100 + f * 10 + k) as u32
}

fn reads(ctx: &ObsContext, fails: &[(usize, usize)]) -> Vec<Vec<Option<Vec<u32>>>> {
    (0..ctx.num_coarse_chans)
        .map(|cc| {
            (0..ctx.num_timesteps)
                .map(|ts| {
                    if fails.contains(&(ts, cc)) {
                        return None;
                    }
                    let mut buf = Vec::new();
                    for bl in 0..ctx.baselines.len() {
                        for f in 0..ctx.num_fine_chans_per_coarse {
                            for k in 0..8 {
                                buf.push(word(ts, cc, bl, f, k));
                            }
                        }
                    }
                    Some(buf)
                })
                .collect()
        })
        .collect()
}

#[test]
fn init_baseline_imgsets_shape_and_fill() {
    let imgsets = init_baseline_imgsets(5, 3, 4, 0.5f32);
    assert_eq!(imgsets.num_baselines(), 5);
    assert_eq!(imgsets.width(), 3);
    assert_eq!(imgsets.height(), 4);
    assert_eq!(imgsets.get(4, 7, 3, 2), 0.5);
}

#[test]
fn imgsets_hold_each_word_at_channel_and_timestep() {
    let ctx = context();
    let rd = reads(&ctx, &[]);
    let (imgsets, masks) =
        context_to_baseline_imgsets(&ctx, &[0, 1], &[0, 1, 2], &rd, 0u32, None).unwrap();
    assert!(masks.is_none());
    assert_eq!(imgsets.num_baselines(), 3);
    assert_eq!(imgsets.width(), 3);
    assert_eq!(imgsets.height(), 4);
    for bl in 0..3 {
        for k in 0..8 {
            for y in 0..4 {
                for x in 0..3 {
                    assert_eq!(imgsets.get(bl, k, y, x), word(x, y / 2, bl, y % 2, k));
                }
            }
        }
    }
    // baseline 1, image 6 (YY real), fine channel 3, timestep 2
    assert_eq!(imgsets.get(1, 6, 3, 2), 21116);
}

#[test]
fn imgsets_flag_missing_hdus_in_every_baseline() {
    let ctx = context();
    let rd = reads(&ctx, &[(2, 1)]);
    let mut given = init_baseline_flagmasks(3, 3, 4);
    given.set(0, 0, 0, true);
    let (imgsets, masks) =
        context_to_baseline_imgsets(&ctx, &[0, 1], &[0, 1, 2], &rd, 0u32, Some(given)).unwrap();
    let masks = masks.unwrap();
    for bl in 0..3 {
        for y in 0..4 {
            for x in 0..3 {
                let expected = (x == 2 && y >= 2) || (bl == 0 && y == 0 && x == 0);
                assert_eq!(masks.get(bl, y, x), expected, "flag ({}, {}, {})", bl, y, x);
                if x == 2 && y >= 2 {
                    assert_eq!(imgsets.get(bl, 0, y, x), 0);
                }
            }
        }
    }
}

#[test]
fn merge_flagmasks_sets_flags_of_selected_baselines() {
    let mut flags = birli::FlagArray::new(2, 3, 2, false);
    flags.set(0, 0, 0, true);
    let mut masks = init_baseline_flagmasks(3, 2, 3);
    masks.set(2, 1, 1, true);
    masks.set(0, 2, 0, true);
    birli::merge_baseline_flagmasks(&mut flags, &masks, &[2, 1]);
    for t in 0..2 {
        for c in 0..3 {
            for b in 0..2 {
                let expected = (t, c, b) == (0, 0, 0) || (t, c, b) == (1, 1, 0);
                assert_eq!(flags.get(t, c, b), expected, "({}, {}, {})", t, c, b);
            }
        }
    }
}

#[test]
fn imgsets_refuse_bad_selections() {
    let ctx = context();
    let none: Vec<Vec<Option<Vec<u32>>>> = vec![];
    assert!(matches!(
        context_to_baseline_imgsets(&ctx, &[0], &[], &none, 0u32, None),
        Err(BirliError::NoProvidedTimesteps)
    ));
    assert!(matches!(
        context_to_baseline_imgsets(&ctx, &[0], &[0, 7, 9], &none, 0u32, None),
        Err(BirliError::TimestepIndexOutOfRange { timestep_idx: 7, num_timesteps: 3 })
    ));
    assert!(matches!(
        context_to_baseline_imgsets(&ctx, &[], &[0], &none, 0u32, None),
        Err(BirliError::NoProvidedCoarseChans)
    ));
    assert!(matches!(
        context_to_baseline_imgsets(&ctx, &[1, 2], &[0], &none, 0u32, None),
        Err(BirliError::CoarseChanIndexOutOfRange { coarse_chan_idx: 2, num_coarse_chans: 2 })
    ));
}
