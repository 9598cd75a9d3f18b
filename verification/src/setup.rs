//! What is kept on this device between runs.

use vstd::prelude::*;
#[allow(unused_imports)]
use vstd::utf8::{encode_utf8, is_ascii_chars_encode_utf8};

use crate::path::FilePath;
#[allow(unused_imports)]
use crate::path::{components, joined, law_join_appends_steps, law_name_is_one_step, same_path, Component};
use crate::windows_path::place_below;
#[allow(unused_imports)]
use crate::windows_path::below;

verus! {

/// What the player has agreed to.
#[derive(Debug)]
pub struct SetupStatus {
    /// That the game's memory is read.
    pub risk_accepted: bool,
}

impl Clone for SetupStatus {
    fn clone(&self) -> (status: Self)
        ensures
            status == *self,
    {
        SetupStatus { risk_accepted: self.risk_accepted }
    }
}

impl Default for SetupStatus {
    /// Nothing yet.
    fn default() -> (status: Self)
        ensures
            !status.risk_accepted,
    {
        SetupStatus { risk_accepted: false }
    }
}

/// The files on this device.
#[derive(Debug)]
pub struct LocalPaths {
    pub setup: FilePath,
    pub database: FilePath,
}

impl Clone for LocalPaths {
    fn clone(&self) -> (paths: Self)
        ensures
            paths.setup@ == self.setup@,
            paths.database@ == self.database@,
    {
        LocalPaths { setup: self.setup.clone(), database: self.database.clone() }
    }
}

impl PartialEq for LocalPaths {
    fn eq(&self, other: &Self) -> (same: bool) {
        self.setup.same_as(&other.setup) && self.database.same_as(&other.database)
    }
}

impl vstd::std_specs::cmp::PartialEqSpecImpl for LocalPaths {
    open spec fn obeys_eq_spec() -> bool {
        true
    }

    open spec fn eq_spec(&self, other: &Self) -> bool {
        same_path(self.setup@, other.setup@) && same_path(self.database@, other.database@)
    }
}

impl Eq for LocalPaths {

}

/// Where the files are on Unix, below the directory for application data.
pub fn resolve_local_paths(app_data: &FilePath) -> (paths: LocalPaths)
    ensures
        paths.setup@ == joined(app_data@, encode_utf8("tennoscope-setup.json"@)),
        paths.database@ == joined(app_data@, encode_utf8("tennoscope.sqlite3"@)),
{
    LocalPaths {
        setup: app_data.join("tennoscope-setup.json"),
        database: app_data.join("tennoscope.sqlite3"),
    }
}

/// Where the files are on Windows, below the directory for application data.
pub fn resolve_local_paths_on_windows(app_data: &FilePath) -> (paths: LocalPaths)
    ensures
        paths.setup@ == below(app_data@, encode_utf8("tennoscope-setup.json"@)),
        paths.database@ == below(app_data@, encode_utf8("tennoscope.sqlite3"@)),
{
    LocalPaths {
        setup: place_below(app_data, "tennoscope-setup.json"),
        database: place_below(app_data, "tennoscope.sqlite3"),
    }
}

/// The setup file and the database are never the same file, whatever the directory is called.
pub proof fn law_local_paths_are_apart(app_data: Seq<u8>)
    ensures
        !same_path(
            joined(app_data, encode_utf8("tennoscope-setup.json"@)),
            joined(app_data, encode_utf8("tennoscope.sqlite3"@)),
        ),
{
    let setup = encode_utf8("tennoscope-setup.json"@);
    let database = encode_utf8("tennoscope.sqlite3"@);
    reveal_strlit("tennoscope-setup.json");
    reveal_strlit("tennoscope.sqlite3");
    is_ascii_chars_encode_utf8("tennoscope-setup.json"@);
    is_ascii_chars_encode_utf8("tennoscope.sqlite3"@);
    law_name_is_one_step(setup);
    law_name_is_one_step(database);
    law_join_appends_steps(app_data, setup);
    law_join_appends_steps(app_data, database);
    assert(setup.len() != database.len());
    assert(components(joined(app_data, setup)).last() == Component::Named(setup));
    assert(components(joined(app_data, database)).last() == Component::Named(database));
}

/// On Windows, too, the setup file and the database have different paths, whatever the directory is
/// called.
pub proof fn law_local_paths_are_apart_on_windows(app_data: Seq<u8>)
    ensures
        below(app_data, encode_utf8("tennoscope-setup.json"@)) != below(
            app_data,
            encode_utf8("tennoscope.sqlite3"@),
        ),
{
    reveal_strlit("tennoscope-setup.json");
    reveal_strlit("tennoscope.sqlite3");
    is_ascii_chars_encode_utf8("tennoscope-setup.json"@);
    is_ascii_chars_encode_utf8("tennoscope.sqlite3"@);
    assert(below(app_data, encode_utf8("tennoscope-setup.json"@)).len() != below(
        app_data,
        encode_utf8("tennoscope.sqlite3"@),
    ).len());
}

/// What reading the setup file came to.
pub enum SetupRead {
    /// It holds this.
    Parsed { status: SetupStatus },
    /// It makes no sense.
    Garbled,
    /// There is none.
    Missing,
    /// It could not be read.
    Failed,
}

/// What the player has agreed to, given what reading the setup file came to. A file that is missing
/// or makes no sense agrees to nothing; one that cannot be read may hold an agreement, so that is an
/// error.
pub fn read_setup_status(read: SetupRead) -> (status: Result<SetupStatus, String>)
    ensures
        match read {
            SetupRead::Parsed { status: parsed } => status == Ok::<SetupStatus, String>(parsed),
            SetupRead::Garbled | SetupRead::Missing => status matches Ok(nothing)
                && !nothing.risk_accepted,
            SetupRead::Failed => status matches Err(message) && message@
                == "setup status could not be read"@,
        },
{
    match read {
        SetupRead::Parsed { status } => Ok(status),
        SetupRead::Garbled | SetupRead::Missing => Ok(SetupStatus::default()),
        SetupRead::Failed => Err("setup status could not be read".to_owned()),
    }
}

/// What is saved when the player agrees.
pub fn accepted_status() -> (status: SetupStatus)
    ensures
        status.risk_accepted,
{
    SetupStatus { risk_accepted: true }
}

/// What the player has agreed to, once they agreed and `saved` says whether that could be saved.
pub fn accept_setup_risk(saved: bool) -> (status: Result<SetupStatus, String>)
    ensures
        saved ==> (status matches Ok(accepted) && accepted.risk_accepted),
        !saved ==> (status matches Err(message) && message@ == "setup status could not be saved"@),
{
    if saved {
        Ok(accepted_status())
    } else {
        Err("setup status could not be saved".to_owned())
    }
}

} // verus!
