use vstd::prelude::*;
use crate::error::BirliError;
use std::ops::Range;

verus! {

/// Number of words in one visibility sample: four polarization products
/// (XX, XY, YX, YY), each a real and an imaginary part.
pub const WORDS_PER_SAMPLE: usize = 8;

/// What the metadata provider reports about an observation, as plain values.
pub struct ObsContext {
    /// The observation id (GPS time of its start).
    pub obs_id: u32,
    /// Number of timesteps in the observation.
    pub num_timesteps: usize,
    /// Number of coarse channels in the observation.
    pub num_coarse_chans: usize,
    /// Number of fine channels in each coarse channel.
    pub num_fine_chans_per_coarse: usize,
    /// Number of antennas.
    pub num_ants: usize,
    /// The baseline table: antenna index pairs, in the order that HDU
    /// buffers and the cube's baseline axis use.
    pub baselines: Vec<(usize, usize)>,
}

impl ObsContext {
    /// Words in one HDU buffer: every baseline, every fine channel of one
    /// coarse channel, every polarization word.
    pub open spec fn hdu_len(&self) -> int {
        self.baselines@.len() * self.num_fine_chans_per_coarse * WORDS_PER_SAMPLE
    }

    /// The sizes that buffers of this observation reach fit in memory.
    pub open spec fn sizes_fit(&self) -> bool {
        &&& self.hdu_len() <= usize::MAX
        &&& self.num_timesteps * self.num_coarse_chans * self.num_fine_chans_per_coarse
            * self.baselines@.len() <= usize::MAX
    }
}

/// Number of indices in a range, zero when it is empty or reversed.
pub open spec fn range_len(r: Range<usize>) -> nat {
    if r.start < r.end {
        (r.end - r.start) as nat
    } else {
        0
    }
}

/// The first selection error, in the order timesteps, coarse channels,
/// baselines; `None` when the selection lies within the observation.
pub open spec fn selection_error(
    context: ObsContext,
    timestep_range: Range<usize>,
    coarse_chan_range: Range<usize>,
    baseline_idxs: Seq<usize>,
) -> Option<BirliError> {
    if range_len(timestep_range) == 0 {
        Some(BirliError::NoProvidedTimesteps)
    } else if timestep_range.end > context.num_timesteps {
        Some(
            BirliError::TimestepOutOfRange {
                end: timestep_range.end,
                num_timesteps: context.num_timesteps,
            },
        )
    } else if range_len(coarse_chan_range) == 0 {
        Some(BirliError::NoProvidedCoarseChans)
    } else if coarse_chan_range.end > context.num_coarse_chans {
        Some(
            BirliError::CoarseChanOutOfRange {
                end: coarse_chan_range.end,
                num_coarse_chans: context.num_coarse_chans,
            },
        )
    } else if exists|i: int|
        0 <= i < baseline_idxs.len() && baseline_idxs[i] >= context.baselines@.len() {
        let i = choose|i: int|
            0 <= i < baseline_idxs.len() && baseline_idxs[i] >= context.baselines@.len()
                && forall|j: int| 0 <= j < i ==> baseline_idxs[j] < context.baselines@.len();
        Some(
            BirliError::BaselineOutOfRange {
                baseline_idx: baseline_idxs[i],
                num_baselines: context.baselines@.len() as usize,
            },
        )
    } else {
        None
    }
}

/// Checks a selection of timesteps, coarse channels and baselines against the
/// observation, before any work is done on it.
pub fn check_selection(
    context: &ObsContext,
    timestep_range: &Range<usize>,
    coarse_chan_range: &Range<usize>,
    baseline_idxs: &[usize],
) -> (r: Result<(), BirliError>)
    ensures
        r is Ok <==> selection_error(*context, *timestep_range, *coarse_chan_range, baseline_idxs@)
            is None,
        r is Err ==> r == Err::<(), BirliError>(
            selection_error(*context, *timestep_range, *coarse_chan_range, baseline_idxs@)->0,
        ),
{
    if timestep_range.start >= timestep_range.end {
        return Err(BirliError::NoProvidedTimesteps);
    }
    if timestep_range.end > context.num_timesteps {
        return Err(
            BirliError::TimestepOutOfRange {
                end: timestep_range.end,
                num_timesteps: context.num_timesteps,
            },
        );
    }
    if coarse_chan_range.start >= coarse_chan_range.end {
        return Err(BirliError::NoProvidedCoarseChans);
    }
    if coarse_chan_range.end > context.num_coarse_chans {
        return Err(
            BirliError::CoarseChanOutOfRange {
                end: coarse_chan_range.end,
                num_coarse_chans: context.num_coarse_chans,
            },
        );
    }
    let num_baselines = context.baselines.len();
    let mut i: usize = 0;
    while i < baseline_idxs.len()
        invariant
            i <= baseline_idxs@.len(),
            num_baselines == context.baselines@.len(),
            timestep_range.start < timestep_range.end <= context.num_timesteps,
            coarse_chan_range.start < coarse_chan_range.end <= context.num_coarse_chans,
            forall|j: int| 0 <= j < i ==> baseline_idxs@[j] < num_baselines,
        decreases baseline_idxs@.len() - i,
    {
        if baseline_idxs[i] >= num_baselines {
            let r = Err(BirliError::BaselineOutOfRange { baseline_idx: baseline_idxs[i], num_baselines });
            proof {
                let n = context.baselines@.len();
                assert(forall|j: int| 0 <= j < i ==> baseline_idxs@[j] < n);
                let k = choose|k: int|
                    0 <= k < baseline_idxs@.len() && baseline_idxs@[k] >= context.baselines@.len()
                        && forall|j: int| 0 <= j < k ==> baseline_idxs@[j] < context.baselines@.len();
                assert(0 <= k < baseline_idxs@.len() && baseline_idxs@[k] >= n
                    && forall|j: int| 0 <= j < k ==> baseline_idxs@[j] < n);
                if k > i {
                    assert(baseline_idxs@[i as int] < n);
                }
                assert(k == i as int);
                assert(selection_error(*context, *timestep_range, *coarse_chan_range, baseline_idxs@)
                    == Some(BirliError::BaselineOutOfRange { baseline_idx: baseline_idxs@[i as int], num_baselines }));
            }
            return r;
        }
        i += 1;
    }
    Ok(())
}

/// The first index of `idxs` that is not below `bound`, if any.
pub open spec fn first_index_out_of_range(idxs: Seq<usize>, bound: usize) -> Option<usize> {
    if exists|i: int| 0 <= i < idxs.len() && idxs[i] >= bound {
        let i = choose|i: int|
            0 <= i < idxs.len() && idxs[i] >= bound && forall|j: int| 0 <= j < i ==> idxs[j] < bound;
        Some(idxs[i])
    } else {
        None
    }
}

/// Finds the first index of `idxs` that is not below `bound`.
fn find_index_out_of_range(idxs: &[usize], bound: usize) -> (r: Option<usize>)
    ensures
        r == first_index_out_of_range(idxs@, bound),
{
    let mut i: usize = 0;
    while i < idxs.len()
        invariant
            i <= idxs@.len(),
            forall|j: int| 0 <= j < i ==> idxs@[j] < bound,
        decreases idxs@.len() - i,
    {
        if idxs[i] >= bound {
            proof {
                let s = idxs@;
                let k = choose|k: int|
                    0 <= k < s.len() && s[k] >= bound && forall|j: int| 0 <= j < k ==> s[j] < bound;
                assert(0 <= k < s.len() && s[k] >= bound && forall|j: int|
                    0 <= j < k ==> s[j] < bound);
                if k > i {
                    assert(s[i as int] < bound);
                }
                assert(k == i as int);
            }
            return Some(idxs[i]);
        }
        i += 1;
    }
    None
}

/// The first error of a selection given as lists of coarse channel and
/// timestep indices, in the order timesteps, coarse channels; `None` when
/// both lists are non-empty and lie within the observation.
pub open spec fn index_selection_error(
    context: ObsContext,
    coarse_chan_idxs: Seq<usize>,
    timestep_idxs: Seq<usize>,
) -> Option<BirliError> {
    if timestep_idxs.len() == 0 {
        Some(BirliError::NoProvidedTimesteps)
    } else if first_index_out_of_range(timestep_idxs, context.num_timesteps) is Some {
        Some(
            BirliError::TimestepIndexOutOfRange {
                timestep_idx: first_index_out_of_range(timestep_idxs, context.num_timesteps)->0,
                num_timesteps: context.num_timesteps,
            },
        )
    } else if coarse_chan_idxs.len() == 0 {
        Some(BirliError::NoProvidedCoarseChans)
    } else if first_index_out_of_range(coarse_chan_idxs, context.num_coarse_chans) is Some {
        Some(
            BirliError::CoarseChanIndexOutOfRange {
                coarse_chan_idx: first_index_out_of_range(coarse_chan_idxs, context.num_coarse_chans)->0,
                num_coarse_chans: context.num_coarse_chans,
            },
        )
    } else {
        None
    }
}

/// Checks a selection given as lists of coarse channel and timestep indices
/// against the observation, before any work is done on it.
pub fn check_index_selection(
    context: &ObsContext,
    coarse_chan_idxs: &[usize],
    timestep_idxs: &[usize],
) -> (r: Result<(), BirliError>)
    ensures
        r is Ok <==> index_selection_error(*context, coarse_chan_idxs@, timestep_idxs@) is None,
        r is Err ==> r == Err::<(), BirliError>(
            index_selection_error(*context, coarse_chan_idxs@, timestep_idxs@)->0,
        ),
{
    if timestep_idxs.len() == 0 {
        return Err(BirliError::NoProvidedTimesteps);
    }
    match find_index_out_of_range(timestep_idxs, context.num_timesteps) {
        Some(timestep_idx) => {
            return Err(
                BirliError::TimestepIndexOutOfRange {
                    timestep_idx,
                    num_timesteps: context.num_timesteps,
                },
            );
        },
        None => {},
    }
    if coarse_chan_idxs.len() == 0 {
        return Err(BirliError::NoProvidedCoarseChans);
    }
    match find_index_out_of_range(coarse_chan_idxs, context.num_coarse_chans) {
        Some(coarse_chan_idx) => {
            return Err(
                BirliError::CoarseChanIndexOutOfRange {
                    coarse_chan_idx,
                    num_coarse_chans: context.num_coarse_chans,
                },
            );
        },
        None => {},
    }
    Ok(())
}

} // verus!
