//! The game that the application looks after: where it is installed, and what
//! its executable is entitled to.

use vstd::prelude::*;

pub mod entitlements;
pub mod launcher;
pub mod macos;

verus! {

/// Where an installation of the game lies.
#[derive(Debug, PartialEq, Eq)]
pub struct GameInfo {
    /// The directory of the installation.
    pub install_dir: String,
    /// The path of the game's executable.
    pub executable: String,
}

/// Finds the game. `settings` is what the launcher's settings file holds, if
/// it could be read; `executable_found` says whether the executable that the
/// settings lead to is there. `None` where the settings could not be read or
/// name no installation, or the executable is missing.
pub fn detect(settings: Option<&str>, executable_found: bool) -> (r: Option<GameInfo>)
    ensures
        r is Some <==> macos::is_detected(
            match settings {
                Some(text) => Some(text@),
                None => None,
            },
            executable_found,
        ),
        r matches Some(info) ==> settings matches Some(text) && macos::game_path_of(
            text@,
        ) matches Some(raw) && info.install_dir@ == macos::install_dir_of(raw) && info.executable@
            == macos::executable_of(macos::install_dir_of(raw)),
{
    macos::detect(settings, executable_found)
}

} // verus!
