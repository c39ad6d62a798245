//! Preprocessing of radio-interferometer correlator output: loading raw
//! per-HDU visibility buffers into a dense (timestep, channel, baseline) cube
//! with a matching flag cube, reshaping the same buffers into per-baseline
//! image sets, and applying phase corrections to the cube.
//!
//! Visibility values are carried as opaque words of a generic `Copy` type `W`
//! (one word per real or imaginary part), so every reshaping step is proved to
//! move values without altering them.

pub mod build_info;
pub mod context;
pub mod corrections;
pub mod cube;
pub mod error;
pub mod flag_array;
pub mod flag_io;
pub mod imgset;
pub mod jones;

pub use context::{check_index_selection, check_selection, ObsContext, WORDS_PER_SAMPLE};
pub use cube::Cube;
pub use flag_array::FlagArray;
pub use error::BirliError;
pub use jones::{context_to_jones_array, flag_hdu, write_hdu_to_jones};
pub use imgset::{
    context_to_baseline_imgsets, init_baseline_flagmasks, init_baseline_imgsets,
    merge_baseline_flagmasks, BaselineFlagmasks, BaselineImgsets,
};
pub use corrections::{
    cable_length_terms, check_baselines, choose_corrections, correct_cable_lengths, correct_geometry,
    product_feeds, CableTerm, CorrectionChoice, Feed,
};
pub use flag_io::{
    flag_cube_rows, flagmask_rows, get_gpubox_filenames, gpubox_chan_number, num_percents, CorrelatorVersion,
    FlagFileHeaders,
};
pub use build_info::{display_build_info, BuildInfo};
