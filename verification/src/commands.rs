//! What the application's commands answer, decided from what was found.

use vstd::prelude::*;
use vstd::string::StringExecFns;
use crate::game::entitlements::{list_keys, listed, EntitlementStatus};
use crate::game::GameInfo;

verus! {

/// The state of the game's installation, as the front end is told it.
#[derive(Debug, PartialEq, Eq)]
pub struct GameStatus {
    /// Whether the game was found on this machine.
    pub installed: bool,
    /// The directory of the installation, if found.
    pub install_dir: Option<String>,
    /// The path of the game's executable, if found.
    pub executable: Option<String>,
    /// Whether the executable has all four required entitlements.
    pub entitlements_ok: bool,
    /// The required entitlements that the executable has.
    pub granted_entitlements: Vec<String>,
    /// The required entitlements that it lacks.
    pub missing_entitlements: Vec<String>,
    /// Whether the library to load into the game was found.
    pub mod_available: bool,
    /// Whether the game is running.
    pub game_running: bool,
}

/// What was found of an installed game.
pub struct GameFound<'a> {
    pub info: &'a GameInfo,
    pub entitlements: &'a EntitlementStatus,
    pub running: bool,
}

fn owned(keys: &Vec<&'static str>) -> (r: Vec<String>)
    ensures
        r.deep_view() == keys.deep_view(),
{
    let mut out: Vec<String> = Vec::new();
    let mut i: usize = 0;
    while i < keys.len()
        invariant
            i <= keys.len(),
            out.deep_view() == keys.deep_view().take(i as int),
        decreases keys.len() - i,
    {
        let ghost before = out.deep_view();
        out.push(String::from_str(keys[i]));
        assert(out.deep_view() =~= before.push(keys[i as int]@));
        assert(keys.deep_view().take(i + 1) =~= keys.deep_view().take(i as int).push(
            keys[i as int]@,
        ));
        i += 1;
    }
    assert(keys.deep_view().take(keys.len() as int) =~= keys.deep_view());
    out
}

/// The state of the game's installation: of a game that was found, where it
/// lies, what it is entitled to and whether it runs; of one that was not, that
/// it is not installed. Whether the library is there is told either way.
pub fn get_game_status(game: Option<GameFound>, mod_available: bool) -> (status: GameStatus)
    ensures
        status.mod_available == mod_available,
        match game {
            Some(found) => {
                &&& status.installed
                &&& status.install_dir.deep_view() == Some(found.info.install_dir@)
                &&& status.executable.deep_view() == Some(found.info.executable@)
                &&& status.entitlements_ok == (found.entitlements.missing@.len() == 0)
                &&& status.granted_entitlements.deep_view()
                    == found.entitlements.granted.deep_view()
                &&& status.missing_entitlements.deep_view()
                    == found.entitlements.missing.deep_view()
                &&& status.game_running == found.running
            },
            None => {
                &&& !status.installed
                &&& status.install_dir is None
                &&& status.executable is None
                &&& !status.entitlements_ok
                &&& status.granted_entitlements@.len() == 0
                &&& status.missing_entitlements@.len() == 0
                &&& !status.game_running
            },
        },
{
    match game {
        Some(found) => GameStatus {
            installed: true,
            install_dir: Some(found.info.install_dir.clone()),
            executable: Some(found.info.executable.clone()),
            entitlements_ok: found.entitlements.all_granted(),
            granted_entitlements: owned(&found.entitlements.granted),
            missing_entitlements: owned(&found.entitlements.missing),
            mod_available,
            game_running: found.running,
        },
        None => GameStatus {
            installed: false,
            install_dir: None,
            executable: None,
            entitlements_ok: false,
            granted_entitlements: Vec::new(),
            missing_entitlements: Vec::new(),
            mod_available,
            game_running: false,
        },
    }
}

/// Whether the game's entitlements may be patched now: `running` is `None`
/// where no game was found, else whether it runs. A running game is not
/// patched.
pub fn patch_entitlements(running: Option<bool>) -> (r: Result<(), String>)
    ensures
        match running {
            None => r matches Err(m) && m@ == "STFC not found"@,
            Some(true) => r matches Err(m) && m@
                == "Cannot patch entitlements while the game is running"@,
            Some(false) => r is Ok,
        },
{
    match running {
        None => Err(String::from_str("STFC not found")),
        Some(true) => Err(String::from_str("Cannot patch entitlements while the game is running")),
        Some(false) => Ok(()),
    }
}

/// Whether the game may be launched with the library loaded into it: the game
/// and the library must have been found, and no entitlement be missing. What
/// is asked first decides; `entitlements` counts only where both were found.
pub fn launch_game(game_found: bool, mod_found: bool, entitlements: &EntitlementStatus) -> (r:
    Result<(), String>)
    ensures
        if !game_found {
            r matches Err(m) && m@ == "STFC not found"@
        } else if !mod_found {
            r matches Err(m) && m@ == "Mod library not found — run build:mod first"@
        } else if entitlements.missing@.len() > 0 {
            r matches Err(m) && m@ == "Missing entitlements: "@ + listed(
                entitlements.missing.deep_view(),
            ) + " — patch them first"@
        } else {
            r is Ok
        },
{
    if !game_found {
        return Err(String::from_str("STFC not found"));
    }
    if !mod_found {
        return Err(String::from_str("Mod library not found — run build:mod first"));
    }
    if !entitlements.all_granted() {
        let mut message = String::new();
        message.append("Missing entitlements: ");
        let names = list_keys(&entitlements.missing);
        message.append(names.as_str());
        message.append(" — patch them first");
        return Err(message);
    }
    Ok(())
}

} // verus!
