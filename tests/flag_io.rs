use birli::{
    display_build_info, flagmask_rows, get_gpubox_filenames, gpubox_chan_number,
    init_baseline_flagmasks, num_percents, BirliError, BuildInfo, CorrelatorVersion,
    FlagFileHeaders, ObsContext,
};

fn context() -> ObsContext {
    ObsContext {
        obs_id: 1247842824,
        num_timesteps: 4,
        num_coarse_chans: 1,
        num_fine_chans_per_coarse: 12,
        num_ants: 3,
        baselines: vec![(0, 0), (0, 1), (0, 2), (1, 1), (1, 2), (2, 2)],
    }
}

#[test]
fn test_flagfileset_enforces_percents_in_filename_template() {
    let mwax_ids = vec![117usize, 118];
    let ord_ids = vec![1usize, 2];
    let cases: [(CorrelatorVersion, &str, &Vec<usize>, bool); 6] = [
        (CorrelatorVersion::V2, "mwax_no_percents.mwaf", &mwax_ids, false),
        (CorrelatorVersion::Legacy, "mwa_ord_no_percents.mwaf", &ord_ids, false),
        (CorrelatorVersion::V2, "mwax_insufficient_percents_2_%%.mwaf", &mwax_ids, false),
        (CorrelatorVersion::Legacy, "mwa_ord_sufficient_percents_2_%%.mwaf", &ord_ids, true),
        (CorrelatorVersion::V2, "mwax_sufficient_percents_3_%%%.mwaf", &mwax_ids, true),
        (CorrelatorVersion::Legacy, "mwa_ord_sufficient_percents_3_%%%.mwaf", &mwax_ids, true),
    ];
    for (version, template, ids, ok) in cases {
        let result = get_gpubox_filenames(version, template, ids);
        if ok {
            assert!(result.is_ok(), "{}", template);
        } else {
            assert!(
                matches!(result, Err(BirliError::InvalidFlagFilenameTemplate { .. })),
                "{}",
                template
            );
        }
    }
}

#[test]
fn flagfile_template_expansion() {
    let names =
        get_gpubox_filenames(CorrelatorVersion::V2, "dir%/Flagfile%%%.mwaf", &vec![117, 5]).unwrap();
    assert_eq!(names.len(), 2);
    assert_eq!(names[&117], "dir%/Flagfile117.mwaf");
    assert_eq!(names[&5], "dir%/Flagfile005.mwaf");

    let names =
        get_gpubox_filenames(CorrelatorVersion::OldLegacy, "F%%%%_%%.mwaf", &vec![1]).unwrap();
    assert_eq!(names[&1], "F01_%%.mwaf");

    let names = get_gpubox_filenames(CorrelatorVersion::Legacy, "Flagfile%%.mwaf", &vec![123]).unwrap();
    assert_eq!(names[&123], "Flagfile123.mwaf");

    match get_gpubox_filenames(CorrelatorVersion::V2, "a%%b%%c", &vec![1]) {
        Err(BirliError::InvalidFlagFilenameTemplate { filename_template }) => {
            assert_eq!(filename_template, "a%%b%%c")
        }
        _ => panic!("template with short runs accepted"),
    }
    assert_eq!(num_percents(CorrelatorVersion::V2), 3);
    assert_eq!(num_percents(CorrelatorVersion::OldLegacy), 2);
}

#[test]
fn flagfile_headers_from_context() {
    let ctx = context();
    let header = FlagFileHeaders::from_gpubox_context(7, &ctx);
    assert_eq!(header.version, "1.0");
    assert_eq!(header.obs_id, 1247842824);
    assert_eq!(header.num_channels, 12);
    assert_eq!(header.num_ants, 3);
    assert_eq!(header.num_timesteps, 4);
    assert_eq!(header.num_pols, 1);
    assert_eq!(header.gpubox_id, 7);
    assert_eq!(header.cotter_version, "Birli-0.1.0");
    assert_eq!(header.cotter_version_date, "2021-04-14");
    assert_eq!(header.bytes_per_row, 2);
    assert_eq!(header.num_rows, 24);
    assert!(header.check_consistent("Flagfile07.mwaf").is_ok());

    let mut ctx16 = context();
    ctx16.num_fine_chans_per_coarse = 16;
    assert_eq!(FlagFileHeaders::from_gpubox_context(1, &ctx16).bytes_per_row, 2);
}

#[test]
fn flagfile_headers_inconsistent_rows() {
    let ctx = context();
    let mut header = FlagFileHeaders::from_gpubox_context(7, &ctx);
    header.num_rows = 23;
    match header.check_consistent("Flagfile07.mwaf") {
        Err(BirliError::MwafInconsistent { file, num_timesteps, num_ants, num_rows }) => {
            assert_eq!(file, "Flagfile07.mwaf");
            assert_eq!((num_timesteps, num_ants, num_rows), (4, 3, 23));
        }
        _ => panic!("inconsistent header accepted"),
    }
    header.num_ants = usize::MAX;
    assert!(header.check_consistent("x").is_err());
    header.num_timesteps = 0;
    header.num_rows = 0;
    assert!(header.check_consistent("x").is_ok());
}

#[test]
fn flagmask_rows_are_timestep_major() {
    let mut masks = init_baseline_flagmasks(3, 2, 6);
    masks.set(2, 4, 1, true);
    masks.set(0, 1, 0, true);
    let rows = flagmask_rows(&masks, 1, 3);
    assert_eq!(rows.len(), 6);
    for row in &rows {
        assert_eq!(row.len(), 3);
    }
    // baseline 2, timestep 1 is row 5; fine channel 4 is the second of coarse channel 1
    assert_eq!(rows[5], vec![false, true, false]);
    for (i, row) in rows.iter().enumerate() {
        if i != 5 {
            assert_eq!(row, &vec![false, false, false]);
        }
    }
    let rows0 = flagmask_rows(&masks, 0, 3);
    assert_eq!(rows0[0], vec![false, true, false]);
}

#[test]
fn gpubox_chan_number_lookup() {
    let pairs = vec![(1usize, 0usize), (2, 1), (1, 5)];
    assert_eq!(gpubox_chan_number(&pairs, 2).unwrap(), 1);
    assert_eq!(gpubox_chan_number(&pairs, 1).unwrap(), 5);
    match gpubox_chan_number(&pairs, 24) {
        Err(BirliError::InvalidGpuBox { expected, found }) => {
            assert_eq!(expected, vec![1, 2, 1]);
            assert_eq!(found, 24);
        }
        _ => panic!("unknown gpubox accepted"),
    }
}

#[test]
fn build_info_lines() {
    let info = BuildInfo {
        git_head_ref: Some("refs/heads/main".to_string()),
        git_commit_hash: Some("abc123".to_string()),
        git_dirty: Some(true),
        built_time_utc: "Thu, 01 Jan 2021 00:00:00 +0000".to_string(),
        rustc_version: "rustc 1.60.0".to_string(),
    };
    assert_eq!(
        display_build_info(&info),
        vec![
            "Compiled on git commit hash: abc123 (dirty)".to_string(),
            "            git head ref: refs/heads/main".to_string(),
            "            Thu, 01 Jan 2021 00:00:00 +0000".to_string(),
            "         with compiler rustc 1.60.0".to_string(),
            String::new(),
        ]
    );
    let bare = BuildInfo {
        git_head_ref: None,
        git_commit_hash: None,
        git_dirty: None,
        built_time_utc: "t".to_string(),
        rustc_version: "r".to_string(),
    };
    assert_eq!(display_build_info(&bare)[0], "Compiled on git commit hash: <no git info>");
    assert_eq!(display_build_info(&bare).len(), 4);
}

#[test]
fn flag_cube_rows_are_timestep_major() {
    let mut flags = birli::FlagArray::new(2, 6, 3, false);
    flags.set(1, 4, 2, true);
    flags.set(0, 1, 0, true);
    let rows = birli::flag_cube_rows(&flags, 1, 3);
    assert_eq!(rows.len(), 6);
    assert_eq!(rows[5], vec![false, true, false]);
    for (i, row) in rows.iter().enumerate() {
        assert_eq!(row.len(), 3);
        if i != 5 {
            assert_eq!(row, &vec![false, false, false]);
        }
    }
    assert_eq!(birli::flag_cube_rows(&flags, 0, 3)[0], vec![false, true, false]);
}
