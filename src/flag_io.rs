use vstd::prelude::*;
use crate::context::ObsContext;
use crate::error::BirliError;
use crate::cube::Cube;
use crate::flag_array::FlagArray;
use crate::imgset::BaselineFlagmasks;
use std::collections::BTreeMap;

verus! {

/// The version string written into the `COTVER` key of flag files.
pub const COTTER_VERSION: &'static str = "Birli-0.1.0";

/// The date written into the `COTVDATE` key of flag files.
pub const COTTER_VERSION_DATE: &'static str = "2021-04-14";

/// The flag file format version written into the `VERSION` key.
pub const FLAG_FILE_VERSION: &'static str = "1.0";

/// Flag metadata for one flag file of a set: the keys of its primary HDU and
/// of its table HDU.
pub struct FlagFileHeaders {
    /// The `VERSION` key from the primary hdu
    pub version: String,
    /// The `GPSTIME` key from the primary hdu
    pub obs_id: u32,
    /// The number of correlator fine channels per flag file, and the `NCHANS` key from the primary hdu.
    pub num_channels: usize,
    /// Total number of antennas (tiles) in the array, and the `NANTENNA` key from the primary hdu
    pub num_ants: usize,
    /// Number of timesteps in the observation, and the `NSCANS` key from the primary hdu
    pub num_timesteps: usize,
    /// The `NPOLS` key from the primary hdu
    pub num_pols: usize,
    /// The `GPUBOXNO` key from the primary hdu
    pub gpubox_id: usize,
    /// The `COTVER` key from the primary hdu
    pub cotter_version: String,
    /// The `COTVDATE` key from the primary hdu
    pub cotter_version_date: String,
    /// The width of each fine channel mask vector in bytes, or the `NAXIS1` key from the table hdu
    pub bytes_per_row: usize,
    /// The number of rows (timesteps × baselines), and the `NAXIS2` key from the table hdu.
    pub num_rows: usize,
}

/// Bytes that hold one bit for each of `n` fine channels.
pub open spec fn bytes_for_bits(n: int) -> int {
    if n % 8 == 0 {
        n / 8
    } else {
        n / 8 + 1
    }
}

impl FlagFileHeaders {
    /// The headers of the flag file of gpubox `gpubox_id` for an observation.
    pub fn from_gpubox_context(gpubox_id: usize, context: &ObsContext) -> (r: Self)
        requires
            context.num_timesteps * context.baselines@.len() <= usize::MAX,
        ensures
            r.version@ == FLAG_FILE_VERSION@,
            r.obs_id == context.obs_id,
            r.num_channels == context.num_fine_chans_per_coarse,
            r.num_ants == context.num_ants,
            r.num_timesteps == context.num_timesteps,
            r.num_pols == 1,
            r.gpubox_id == gpubox_id,
            r.cotter_version@ == COTTER_VERSION@,
            r.cotter_version_date@ == COTTER_VERSION_DATE@,
            r.bytes_per_row == bytes_for_bits(context.num_fine_chans_per_coarse as int),
            r.num_rows == context.num_timesteps * context.baselines@.len(),
    {
        let num_fine_per_coarse = context.num_fine_chans_per_coarse;
        let extra: usize = if num_fine_per_coarse % 8 != 0 {
            1
        } else {
            0
        };
        FlagFileHeaders {
            version: FLAG_FILE_VERSION.to_owned(),
            obs_id: context.obs_id,
            num_channels: num_fine_per_coarse,
            num_ants: context.num_ants,
            num_timesteps: context.num_timesteps,
            num_pols: 1,
            gpubox_id,
            cotter_version: COTTER_VERSION.to_owned(),
            cotter_version_date: COTTER_VERSION_DATE.to_owned(),
            bytes_per_row: num_fine_per_coarse / 8 + extra,
            num_rows: context.num_timesteps * context.baselines.len(),
        }
    }

    /// The table of a flag file holds one row for each timestep and each
    /// baseline (every pair of antennas, autocorrelations included).
    pub open spec fn spec_consistent(&self) -> bool {
        self.num_rows == self.num_timesteps * (self.num_ants * (self.num_ants + 1) / 2)
    }

    /// Checks that the row count agrees with the timestep and antenna counts;
    /// `file` names the flag file in the error.
    pub fn check_consistent(&self, file: &str) -> (r: Result<(), BirliError>)
        ensures
            r is Ok <==> self.spec_consistent(),
            r matches Err(e) ==> e matches BirliError::MwafInconsistent {
                file: f,
                num_timesteps,
                num_ants,
                num_rows,
            } && f@ == file@ && num_timesteps == self.num_timesteps && num_ants == self.num_ants
                && num_rows == self.num_rows,
    {
        let na = self.num_ants;
        let nt = self.num_timesteps;
        let pairs: Option<usize> = if na % 2 == 0 {
            (na / 2).checked_mul(na + 1)
        } else {
            match na.checked_add(1) {
                None => None,
                Some(n1) => na.checked_mul(n1 / 2),
            }
        };
        let consistent = if nt == 0 {
            self.num_rows == 0
        } else {
            match pairs {
                None => false,
                Some(p) => match nt.checked_mul(p) {
                    None => false,
                    Some(rows) => rows == self.num_rows,
                },
            }
        };
        proof {
            let nai = na as int;
            let nti = nt as int;
            let k = nai / 2;
            let exact = nai * (nai + 1) / 2;
            if nai % 2 == 0 {
                assert(nai == 2 * k);
                assert(nai * (nai + 1) == 2 * (k * (nai + 1))) by (nonlinear_arith)
                    requires
                        nai == 2 * k,
                ;
                assert(exact == k * (nai + 1));
            } else {
                assert(nai == 2 * k + 1);
                assert(nai * (nai + 1) == 2 * (nai * (k + 1))) by (nonlinear_arith)
                    requires
                        nai == 2 * k + 1,
                ;
                assert(exact == nai * (k + 1));
                assert((nai + 1) / 2 == k + 1);
            }
            assert(0 <= exact) by (nonlinear_arith)
                requires
                    exact == nai * (nai + 1) / 2,
                    0 <= nai,
            ;
            if nti >= 1 && pairs is None {
                if nai % 2 != 0 && nai + 1 > usize::MAX {
                    assert(exact >= nai * 2) by (nonlinear_arith)
                        requires
                            exact == nai * (k + 1),
                            k >= 1,
                            nai >= 0,
                    ;
                }
                assert(exact > usize::MAX);
                assert(nti * exact >= exact) by (nonlinear_arith)
                    requires
                        nti >= 1,
                        exact >= 0,
                ;
            }
            if nti == 0 {
                assert(nti * exact == 0);
            }
        }
        if consistent {
            Ok(())
        } else {
            Err(
                BirliError::MwafInconsistent {
                    file: file.to_owned(),
                    num_timesteps: self.num_timesteps,
                    num_ants: self.num_ants,
                    num_rows: self.num_rows,
                },
            )
        }
    }
}

/// The generation of correlator that produced an observation.
#[derive(Clone, Copy, Debug, PartialEq, Eq, Structural)]
pub enum CorrelatorVersion {
    /// The MWAX correlator.
    V2,
    /// The legacy correlator.
    Legacy,
    /// The legacy correlator, before its file names changed.
    OldLegacy,
}

/// How many `%` characters a flag filename template needs: the width of the
/// gpubox id written in their place.
pub open spec fn spec_num_percents(v: CorrelatorVersion) -> int {
    match v {
        CorrelatorVersion::Legacy | CorrelatorVersion::OldLegacy => 2,
        CorrelatorVersion::V2 => 3,
    }
}

pub fn num_percents(v: CorrelatorVersion) -> (r: usize)
    ensures
        r == spec_num_percents(v),
{
    match v {
        CorrelatorVersion::Legacy | CorrelatorVersion::OldLegacy => 2,
        CorrelatorVersion::V2 => 3,
    }
}

/// `n` `%` characters start at position `i` of `s`.
pub open spec fn percent_run_at(s: Seq<char>, i: int, n: int) -> bool {
    0 <= i && i + n <= s.len() && forall|k: int| i <= k < i + n ==> s[k] == '%'
}

/// `s` holds `n` `%` characters in a row somewhere.
pub open spec fn has_percent_run(s: Seq<char>, n: int) -> bool {
    exists|i: int| percent_run_at(s, i, n)
}

/// The first position at which `n` `%` characters start.
pub open spec fn first_percent_run(s: Seq<char>, n: int) -> int {
    choose|i: int| percent_run_at(s, i, n) && forall|j: int| 0 <= j < i ==> !percent_run_at(s, j, n)
}

/// The end of the run of `%` characters that starts at `i`.
pub open spec fn percent_run_end(s: Seq<char>, i: int) -> int
    decreases s.len() - i,
{
    if 0 <= i < s.len() && s[i] == '%' {
        percent_run_end(s, i + 1)
    } else {
        i
    }
}

pub open spec fn digit_char(d: int) -> char {
    if d == 0 {
        '0'
    } else if d == 1 {
        '1'
    } else if d == 2 {
        '2'
    } else if d == 3 {
        '3'
    } else if d == 4 {
        '4'
    } else if d == 5 {
        '5'
    } else if d == 6 {
        '6'
    } else if d == 7 {
        '7'
    } else if d == 8 {
        '8'
    } else {
        '9'
    }
}

/// The decimal digits of `x`, most significant first, without leading zeros.
pub open spec fn decimal_digits(x: nat) -> Seq<char>
    decreases x,
{
    if x < 10 {
        seq![digit_char(x as int)]
    } else {
        decimal_digits(x / 10) + seq![digit_char((x % 10) as int)]
    }
}

/// The decimal digits of `x`, with leading zeros up to `width` characters.
pub open spec fn zero_padded(x: nat, width: nat) -> Seq<char> {
    let d = decimal_digits(x);
    if d.len() >= width {
        d
    } else {
        Seq::new((width - d.len()) as nat, |_i: int| '0') + d
    }
}

/// The template with its first run of at least `n` `%` characters, taken
/// whole, replaced by `id` in decimal with leading zeros up to `n` digits.
pub open spec fn expand_template(s: Seq<char>, n: int, id: nat) -> Seq<char> {
    let i = first_percent_run(s, n);
    s.subrange(0, i) + zero_padded(id, n as nat) + s.subrange(percent_run_end(s, i), s.len() as int)
}

/// Relies on std's `{:0width$}` formatting of an unsigned integer: its
/// decimal digits, left-padded with zeros to `width` characters. A runtime
/// width above `u16::MAX` makes the formatter panic, so it is left out.
#[verifier::external_body]
fn format_zero_padded(x: usize, width: usize) -> (r: String)
    requires
        width <= 65535,
    ensures
        r@ == zero_padded(x as nat, width as nat),
{
    format!("{:0width$}", x, width = width)
}

proof fn lemma_percent_run_end(s: Seq<char>, i: int, e: int)
    requires
        0 <= i <= e <= s.len(),
        forall|k: int| i <= k < e ==> s[k] == '%',
        e == s.len() || s[e] != '%',
    ensures
        percent_run_end(s, i) == e,
    decreases e - i,
{
    if i < e {
        lemma_percent_run_end(s, i + 1, e);
    }
}

/// Finds the first run of at least `n` `%` characters: its start and end.
fn find_percent_run(s: &str, n: usize) -> (r: Option<(usize, usize)>)
    requires
        n >= 1,
    ensures
        r is None <==> !has_percent_run(s@, n as int),
        r matches Some((start, end)) ==> start == first_percent_run(s@, n as int) && end
            == percent_run_end(s@, start as int) && percent_run_at(s@, start as int, n as int) && start
            <= end <= s@.len(),
{
    let len = s.unicode_len();
    let mut i: usize = 0;
    let mut run: usize = 0;
    while i < len
        invariant
            len == s@.len(),
            i <= len,
            run <= i,
            run < n,
            forall|k: int| i - run <= k < i ==> s@[k] == '%',
            i - run == 0 || s@[i - run - 1] != '%',
            forall|j: int| 0 <= j && j + n <= i ==> !percent_run_at(s@, j, n as int),
        decreases len - i,
    {
        if s.get_char(i) == '%' {
            if run + 1 == n {
                let start = i - run;
                let mut end = i + 1;
                while end < len && s.get_char(end) == '%'
                    invariant
                        len == s@.len(),
                        start < end <= len,
                        forall|k: int| start <= k < end ==> s@[k] == '%',
                    decreases len - end,
                {
                    end += 1;
                }
                proof {
                    assert(percent_run_at(s@, start as int, n as int));
                    assert forall|j: int| 0 <= j < start implies !percent_run_at(
                        s@,
                        j,
                        n as int,
                    ) by {
                        assert(j + n <= i);
                    }
                    let f = first_percent_run(s@, n as int);
                    assert(percent_run_at(s@, f, n as int) && forall|j: int|
                        0 <= j < f ==> !percent_run_at(s@, j, n as int));
                    if f > start {
                        assert(!percent_run_at(s@, start as int, n as int));
                    }
                    assert(f == start);
                    lemma_percent_run_end(s@, start as int, end as int);
                }
                return Some((start, end));
            }
            proof {
                assert forall|j: int| 0 <= j && j + n <= i + 1 implies !percent_run_at(
                    s@,
                    j,
                    n as int,
                ) by {
                    if j + n == i + 1 {
                        assert(j <= i - run - 1);
                        assert(s@[i - run - 1] != '%');
                    }
                }
            }
            run += 1;
        } else {
            proof {
                assert forall|j: int| 0 <= j && j + n <= i + 1 implies !percent_run_at(
                    s@,
                    j,
                    n as int,
                ) by {
                    if j + n == i + 1 {
                        assert(s@[i as int] != '%');
                    }
                }
            }
            run = 0;
        }
        i += 1;
    }
    proof {
        assert forall|j: int| !percent_run_at(s@, j, n as int) by {
            if percent_run_at(s@, j, n as int) {
                assert(j + n <= i);
            }
        }
    }
    None
}

/// The flag filename of each gpubox: the template with its first run of `%`
/// characters (at least two for legacy observations, three for MWAX ones)
/// replaced by the gpubox id, zero-padded to that many digits. A template
/// without such a run is an error.
#[verifier::rlimit(40)]
pub fn get_gpubox_filenames(
    corr_version: CorrelatorVersion,
    filename_template: &str,
    gpubox_ids: &Vec<usize>,
) -> (r: Result<BTreeMap<usize, String>, BirliError>)
    ensures
        r is Err <==> !has_percent_run(filename_template@, spec_num_percents(corr_version)),
        r matches Err(e) ==> e matches BirliError::InvalidFlagFilenameTemplate {
            filename_template: t,
        } && t@ == filename_template@,
        r matches Ok(m) ==> {
            &&& forall|id: usize| #[trigger] m@.contains_key(id) <==> gpubox_ids@.contains(id)
            &&& forall|id: usize|
                #[trigger] m@.contains_key(id) ==> m@[id]@ == expand_template(
                    filename_template@,
                    spec_num_percents(corr_version),
                    id as nat,
                )
        },
{
    broadcast use vstd::laws_cmp::group_laws_cmp;

    let n = num_percents(corr_version);
    let (start, end) = match find_percent_run(filename_template, n) {
        None => {
            return Err(
                BirliError::InvalidFlagFilenameTemplate {
                    filename_template: filename_template.to_owned(),
                },
            );
        },
        Some(run) => run,
    };
    let len = filename_template.unicode_len();
    let prefix = filename_template.substring_char(0, start);
    let suffix = filename_template.substring_char(end, len);
    let mut filenames: BTreeMap<usize, String> = BTreeMap::new();
    let mut k: usize = 0;
    while k < gpubox_ids.len()
        invariant
            k <= gpubox_ids@.len(),
            n == spec_num_percents(corr_version),
            start == first_percent_run(filename_template@, n as int),
            end == percent_run_end(filename_template@, start as int),
            prefix@ == filename_template@.subrange(0, start as int),
            suffix@ == filename_template@.subrange(end as int, filename_template@.len() as int),
            forall|id: usize|
                #[trigger] filenames@.contains_key(id) <==> exists|w: int|
                    0 <= w < k && #[trigger] gpubox_ids@[w] == id,
            forall|id: usize|
                #[trigger] filenames@.contains_key(id) ==> filenames@[id]@ == expand_template(
                    filename_template@,
                    n as int,
                    id as nat,
                ),
        decreases gpubox_ids@.len() - k,
    {
        let id = gpubox_ids[k];
        let mut name = prefix.to_owned();
        let digits = format_zero_padded(id, n);
        name.append(digits.as_str());
        name.append(suffix);
        assert(name@ == expand_template(filename_template@, n as int, id as nat));
        let ghost before = filenames@;
        filenames.insert(id, name);
        assert(filenames@ == before.insert(id, name));
        proof {
            assert forall|id2: usize| #[trigger] filenames@.contains_key(id2) <==> exists|w: int|
                0 <= w < k + 1 && #[trigger] gpubox_ids@[w] == id2 by {
                if id2 == id {
                    assert(gpubox_ids@[k as int] == id2);
                }
            }
        }
        k += 1;
    }
    assert forall|id: usize| #[trigger] filenames@.contains_key(id) <==> gpubox_ids@.contains(id) by {
        if gpubox_ids@.contains(id) {
            let w = choose|w: int| 0 <= w < gpubox_ids@.len() && gpubox_ids@[w] == id;
            assert(gpubox_ids@[w] == id);
        }
    }
    Ok(filenames)
}

/// The coarse channel number of gpubox `gpubox_id`, from the pairs
/// (gpubox number, coarse channel number) of an observation's coarse
/// channels; where a gpubox number appears twice the last pair counts. A
/// gpubox the observation does not have is an error that lists the gpubox
/// numbers it does have.
pub fn gpubox_chan_number(gpubox_chan_numbers: &Vec<(usize, usize)>, gpubox_id: usize) -> (r: Result<
    usize,
    BirliError,
>)
    ensures
        r is Err <==> forall|i: int|
            0 <= i < gpubox_chan_numbers@.len() ==> (#[trigger] gpubox_chan_numbers@[i]).0
                != gpubox_id,
        r matches Ok(c) ==> exists|i: int|
            0 <= i < gpubox_chan_numbers@.len() && #[trigger] gpubox_chan_numbers@[i] == (
            gpubox_id,
            c,
        ) && forall|j: int| i < j < gpubox_chan_numbers@.len() ==> gpubox_chan_numbers@[j].0 != gpubox_id,
        r matches Err(e) ==> e matches BirliError::InvalidGpuBox { expected, found } && found
            == gpubox_id && expected@ == gpubox_chan_numbers@.map_values(|p: (usize, usize)| p.0),
{
    let n = gpubox_chan_numbers.len();
    let mut i: usize = n;
    while i > 0
        invariant
            i <= n,
            n == gpubox_chan_numbers@.len(),
            forall|j: int| i <= j < n ==> (#[trigger] gpubox_chan_numbers@[j]).0 != gpubox_id,
        decreases i,
    {
        i -= 1;
        if gpubox_chan_numbers[i].0 == gpubox_id {
            return Ok(gpubox_chan_numbers[i].1);
        }
    }
    let mut expected: Vec<usize> = Vec::with_capacity(n);
    let mut k: usize = 0;
    while k < n
        invariant
            k <= n,
            n == gpubox_chan_numbers@.len(),
            expected@ == gpubox_chan_numbers@.subrange(0, k as int).map_values(
                |p: (usize, usize)| p.0,
            ),
        decreases n - k,
    {
        expected.push(gpubox_chan_numbers[k].0);
        assert(gpubox_chan_numbers@.subrange(0, k + 1) == gpubox_chan_numbers@.subrange(0, k as int).push(
            gpubox_chan_numbers@[k as int],
        ));
        k += 1;
    }
    assert(gpubox_chan_numbers@.subrange(0, n as int) == gpubox_chan_numbers@);
    Err(BirliError::InvalidGpuBox { expected, found: gpubox_id })
}

/// The rows of the flag table for coarse channel `img_cc` of the masks:
/// row `t * num_baselines + bl` holds, for each of the `num_fine` fine
/// channels of that coarse channel, the flag of baseline `bl` at timestep
/// `t`.
pub fn flagmask_rows(masks: &BaselineFlagmasks, img_cc: usize, num_fine: usize) -> (r: Vec<Vec<bool>>)
    requires
        masks.wf(),
        img_cc * num_fine + num_fine <= masks.spec_height(),
        masks.spec_width() * masks.spec_num_baselines() <= usize::MAX,
    ensures
        r@.len() == masks.spec_width() * masks.spec_num_baselines(),
        forall|t: int, bl: int|
            0 <= t < masks.spec_width() && 0 <= bl < masks.spec_num_baselines() ==> {
                &&& (#[trigger] r@[t * masks.spec_num_baselines() + bl])@.len() == num_fine
                &&& forall|f: int|
                    0 <= f < num_fine ==> #[trigger] r@[t * masks.spec_num_baselines() + bl]@[f]
                        == masks.value(bl, img_cc * num_fine + f, t)
            },
{
    let nt = masks.width();
    let nb = masks.num_baselines();
    let h = masks.height();
    let y0 = img_cc * num_fine;
    let mut rows: Vec<Vec<bool>> = Vec::new();
    let mut t: usize = 0;
    while t < nt
        invariant
            nt == masks.spec_width(),
            nb == masks.spec_num_baselines(),
            masks.wf(),
            y0 == img_cc * num_fine,
            y0 + num_fine <= masks.spec_height(),
            h == masks.spec_height(),
            nt * nb <= usize::MAX,
            t <= nt,
            rows@.len() == t * nb,
            forall|t2: int, bl: int|
                0 <= t2 < t && 0 <= bl < nb ==> {
                    &&& (#[trigger] rows@[t2 * nb + bl])@.len() == num_fine
                    &&& forall|f: int|
                        0 <= f < num_fine ==> #[trigger] rows@[t2 * nb + bl]@[f] == masks.value(
                            bl,
                            y0 + f,
                            t2,
                        )
                },
        decreases nt - t,
    {
        let mut bl: usize = 0;
        while bl < nb
            invariant
                nt == masks.spec_width(),
                nb == masks.spec_num_baselines(),
                masks.wf(),
                y0 == img_cc * num_fine,
                y0 + num_fine <= masks.spec_height(),
                h == masks.spec_height(),
                nt * nb <= usize::MAX,
                t < nt,
                bl <= nb,
                rows@.len() == t * nb + bl,
                forall|t2: int, b2: int|
                    (0 <= t2 < t && 0 <= b2 < nb) || (t2 == t && 0 <= b2 < bl) ==> {
                        &&& (#[trigger] rows@[t2 * nb + b2])@.len() == num_fine
                        &&& forall|f: int|
                            0 <= f < num_fine ==> #[trigger] rows@[t2 * nb + b2]@[f]
                                == masks.value(b2, y0 + f, t2)
                    },
            decreases nb - bl,
        {
            let mut row: Vec<bool> = Vec::with_capacity(num_fine);
            let mut f: usize = 0;
            while f < num_fine
                invariant
                    masks.wf(),
                    nb == masks.spec_num_baselines(),
                    nt == masks.spec_width(),
                    t < nt,
                    bl < nb,
                    f <= num_fine,
                    y0 + num_fine <= masks.spec_height(),
                    h == masks.spec_height(),
                    row@.len() == f,
                    forall|f2: int| 0 <= f2 < f ==> #[trigger] row@[f2] == masks.value(bl as int, y0 + f2, t as int),
                decreases num_fine - f,
            {
                row.push(masks.get(bl, y0 + f, t));
                f += 1;
            }
            let ghost before = rows@;
            rows.push(row);
            proof {
                assert forall|t2: int, b2: int|
                    (0 <= t2 < t && 0 <= b2 < nb) || (t2 == t && 0 <= b2 < bl + 1) implies {
                        &&& (#[trigger] rows@[t2 * nb + b2])@.len() == num_fine
                        &&& forall|f: int|
                            0 <= f < num_fine ==> #[trigger] rows@[t2 * nb + b2]@[f]
                                == masks.value(b2, y0 + f, t2)
                    } by {
                    if t2 < t {
                        assert(t2 * nb + b2 < t * nb) by (nonlinear_arith)
                            requires
                                0 <= t2 < t,
                                0 <= b2 < nb,
                        ;
                        assert(rows@[t2 * nb + b2] == before[t2 * nb + b2]);
                    } else if b2 < bl {
                        assert(rows@[t2 * nb + b2] == before[t2 * nb + b2]);
                    }
                }
            }
            bl += 1;
        }
        assert(t * nb + nb == (t + 1) * nb) by (nonlinear_arith);
        t += 1;
    }
    rows
}

/// The rows of the flag table for coarse channel `img_cc` of a flag cube:
/// row `t * num_baselines + bl` holds, for each of the `num_fine` fine
/// channels of that coarse channel, the flag of baseline `bl` at timestep
/// `t`.
pub fn flag_cube_rows(flags: &FlagArray, img_cc: usize, num_fine: usize) -> (r: Vec<Vec<bool>>)
    requires
        flags.wf(),
        img_cc * num_fine + num_fine <= flags.dims().1,
        flags.dims().0 * flags.dims().2 <= usize::MAX,
    ensures
        r@.len() == flags.dims().0 * flags.dims().2,
        forall|t: int, bl: int|
            0 <= t < flags.dims().0 && 0 <= bl < flags.dims().2 ==> {
                &&& (#[trigger] r@[t * flags.dims().2 + bl])@.len() == num_fine
                &&& forall|f: int|
                    0 <= f < num_fine ==> #[trigger] r@[t * flags.dims().2 + bl]@[f]
                        == flags.at(t, img_cc * num_fine + f, bl)
            },
{
    let nt = flags.num_timesteps();
    let nb = flags.num_baselines();
    let h = flags.num_chans();
    let y0 = img_cc * num_fine;
    let mut rows: Vec<Vec<bool>> = Vec::new();
    let mut t: usize = 0;
    while t < nt
        invariant
            nt == flags.dims().0,
            nb == flags.dims().2,
            flags.wf(),
            y0 == img_cc * num_fine,
            y0 + num_fine <= flags.dims().1,
            h == flags.dims().1,
            nt * nb <= usize::MAX,
            t <= nt,
            rows@.len() == t * nb,
            forall|t2: int, bl: int|
                0 <= t2 < t && 0 <= bl < nb ==> {
                    &&& (#[trigger] rows@[t2 * nb + bl])@.len() == num_fine
                    &&& forall|f: int|
                        0 <= f < num_fine ==> #[trigger] rows@[t2 * nb + bl]@[f] == flags.at(t2, y0 + f, bl)
                },
        decreases nt - t,
    {
        let mut bl: usize = 0;
        while bl < nb
            invariant
                nt == flags.dims().0,
                nb == flags.dims().2,
                flags.wf(),
                y0 == img_cc * num_fine,
                y0 + num_fine <= flags.dims().1,
                h == flags.dims().1,
                nt * nb <= usize::MAX,
                t < nt,
                bl <= nb,
                rows@.len() == t * nb + bl,
                forall|t2: int, b2: int|
                    (0 <= t2 < t && 0 <= b2 < nb) || (t2 == t && 0 <= b2 < bl) ==> {
                        &&& (#[trigger] rows@[t2 * nb + b2])@.len() == num_fine
                        &&& forall|f: int|
                            0 <= f < num_fine ==> #[trigger] rows@[t2 * nb + b2]@[f]
                                == flags.at(t2, y0 + f, b2)
                    },
            decreases nb - bl,
        {
            let mut row: Vec<bool> = Vec::with_capacity(num_fine);
            let mut f: usize = 0;
            while f < num_fine
                invariant
                    flags.wf(),
                    nb == flags.dims().2,
                    nt == flags.dims().0,
                    t < nt,
                    bl < nb,
                    f <= num_fine,
                    y0 + num_fine <= flags.dims().1,
                    h == flags.dims().1,
                    row@.len() == f,
                    forall|f2: int| 0 <= f2 < f ==> #[trigger] row@[f2] == flags.at(t as int, y0 + f2, bl as int),
                decreases num_fine - f,
            {
                row.push(flags.get(t, y0 + f, bl));
                f += 1;
            }
            let ghost before = rows@;
            rows.push(row);
            proof {
                assert forall|t2: int, b2: int|
                    (0 <= t2 < t && 0 <= b2 < nb) || (t2 == t && 0 <= b2 < bl + 1) implies {
                        &&& (#[trigger] rows@[t2 * nb + b2])@.len() == num_fine
                        &&& forall|f: int|
                            0 <= f < num_fine ==> #[trigger] rows@[t2 * nb + b2]@[f]
                                == flags.at(t2, y0 + f, b2)
                    } by {
                    if t2 < t {
                        assert(t2 * nb + b2 < t * nb) by (nonlinear_arith)
                            requires
                                0 <= t2 < t,
                                0 <= b2 < nb,
                        ;
                        assert(rows@[t2 * nb + b2] == before[t2 * nb + b2]);
                    } else if b2 < bl {
                        assert(rows@[t2 * nb + b2] == before[t2 * nb + b2]);
                    }
                }
            }
            bl += 1;
        }
        assert(t * nb + nb == (t + 1) * nb) by (nonlinear_arith);
        t += 1;
    }
    rows
}

} // verus!
