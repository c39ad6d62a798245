use vstd::prelude::*;
use vstd::string::StringExecFns;

verus! {

/// How the program was built: the facts that a build script records.
pub struct BuildInfo {
    /// The git ref that HEAD points at, where the build had git information.
    pub git_head_ref: Option<String>,
    /// The commit hash of HEAD, where the build had git information.
    pub git_commit_hash: Option<String>,
    /// Whether the work tree had changes that were not committed.
    pub git_dirty: Option<bool>,
    /// When the build ran, in UTC.
    pub built_time_utc: String,
    /// The version of the compiler.
    pub rustc_version: String,
}

/// The lines that describe how the program was built, in the order they are
/// logged.
pub open spec fn build_info_lines(info: BuildInfo) -> Seq<Seq<char>> {
    let tail = seq![
        "            "@ + info.built_time_utc@,
        "         with compiler "@ + info.rustc_version@,
        Seq::<char>::empty(),
    ];
    match info.git_head_ref {
        Some(hr) => {
            let dirty = if info.git_dirty == Some(true) {
                " (dirty)"@
            } else {
                Seq::<char>::empty()
            };
            seq![
                "Compiled on git commit hash: "@ + info.git_commit_hash->0@ + dirty,
                "            git head ref: "@ + hr@,
            ] + tail
        },
        None => seq!["Compiled on git commit hash: <no git info>"@] + tail,
    }
}

fn concat_str(a: &str, b: &str) -> (r: String)
    ensures
        r@ == a@ + b@,
{
    let mut s = String::from_str(a);
    s.append(b);
    s
}

/// The lines that describe how the program was built: the git commit and
/// head ref (or that there was no git information), the build time and the
/// compiler version, then an empty line.
pub fn display_build_info(info: &BuildInfo) -> (r: Vec<String>)
    requires
        info.git_head_ref is Some ==> info.git_commit_hash is Some,
    ensures
        r@.map_values(|s: String| s@) == build_info_lines(*info),
{
    let mut lines: Vec<String> = Vec::new();
    match &info.git_head_ref {
        Some(hr) => {
            let hash = match &info.git_commit_hash {
                Some(h) => h,
                None => {
                    proof {
                        assert(false);
                    }
                    hr
                },
            };
            let mut first = concat_str("Compiled on git commit hash: ", hash.as_str());
            let dirty = match info.git_dirty {
                Some(d) => d,
                None => false,
            };
            if dirty {
                first.append(" (dirty)");
            }
            lines.push(first);
            lines.push(concat_str("            git head ref: ", hr.as_str()));
        },
        None => {
            lines.push(String::from_str("Compiled on git commit hash: <no git info>"));
        },
    }
    lines.push(concat_str("            ", info.built_time_utc.as_str()));
    lines.push(concat_str("         with compiler ", info.rustc_version.as_str()));
    lines.push(String::new());
    assert(lines@.map_values(|s: String| s@) =~= build_info_lines(*info));
    lines
}

} // verus!
