use vstd::prelude::*;

verus! {

/// The errors that the library reports.
#[derive(Debug)]
pub enum BirliError {
    /// A flag filename template without a run of enough `%` characters for the
    /// correlator generation.
    InvalidFlagFilenameTemplate { filename_template: String },
    /// A flag file could not be opened or created.
    FitsOpen { fits_filename: String, message: String },
    /// A read or write inside a flag file failed.
    FitsIO { fits_filename: String, hdu_num: usize, message: String },
    /// A flag file whose row count disagrees with its timestep and antenna counts.
    MwafInconsistent { file: String, num_timesteps: usize, num_ants: usize, num_rows: usize },
    /// A gpubox id that is not one of the observation's.
    InvalidGpuBox { expected: Vec<usize>, found: usize },
    /// The timestep selection is empty.
    NoProvidedTimesteps,
    /// The coarse channel selection is empty.
    NoProvidedCoarseChans,
    /// The timestep selection reaches past the observation's last timestep.
    TimestepOutOfRange { end: usize, num_timesteps: usize },
    /// The coarse channel selection reaches past the observation's last coarse channel.
    CoarseChanOutOfRange { end: usize, num_coarse_chans: usize },
    /// A selected timestep index that the observation does not have.
    TimestepIndexOutOfRange { timestep_idx: usize, num_timesteps: usize },
    /// A selected coarse channel index that the observation does not have.
    CoarseChanIndexOutOfRange { coarse_chan_idx: usize, num_coarse_chans: usize },
    /// A selected baseline index that the observation does not have.
    BaselineOutOfRange { baseline_idx: usize, num_baselines: usize },
    /// A baseline that refers to an antenna the observation does not have.
    AntennaOutOfRange { baseline_idx: usize, ant_idx: usize, num_ants: usize },
}

} // verus!
