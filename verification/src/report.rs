//! What a problem report holds besides what the companion has logged.

use vstd::prelude::*;
use vstd::string::StringExecFns;

use crate::path::FilePath;
#[allow(unused_imports)]
use crate::path::opt_path;

verus! {

/// How the system is named in a report.
pub fn os_arch(os: &str, arch: &str) -> (text: String)
    ensures
        text@ == os@ + "/"@ + arch@,
{
    os.to_owned().concat("/").concat(arch)
}

/// How the build is named in a report.
pub fn build_profile(debug: bool) -> (profile: String)
    ensures
        profile@ == (if debug {
            "pre-release"@
        } else {
            "stable"@
        }),
{
    if debug {
        "pre-release".to_owned()
    } else {
        "stable".to_owned()
    }
}

/// The game's log that a report holds, if one is wanted: that of the game that runs, or else the
/// last one that was followed.
pub fn report_log(wanted: bool, running: Option<FilePath>, last: Option<&FilePath>) -> (log: Option<
    FilePath,
>)
    ensures
        opt_path(log) == (if !wanted {
            None
        } else if running is Some {
            opt_path(running)
        } else {
            match last {
                Some(last) => Some(last@),
                None => None,
            }
        }),
{
    if !wanted {
        return None;
    }
    match running {
        Some(path) => Some(path),
        None => match last {
            Some(path) => Some(path.clone()),
            None => None,
        },
    }
}

} // verus!
