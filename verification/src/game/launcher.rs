//! Starting the game with a library loaded into it.

use vstd::prelude::*;
use vstd::string::StringExecFns;
use crate::game::GameInfo;

verus! {

/// The variable of the dynamic linker that names the libraries to load.
pub const INSERT_LIBRARIES: &'static str = "DYLD_INSERT_LIBRARIES";

/// The variable of the dynamic linker that names where libraries are looked
/// for.
pub const LIBRARY_PATH: &'static str = "DYLD_LIBRARY_PATH";

/// What it takes to start the game: the program, and the two variables of its
/// environment.
#[derive(Debug, PartialEq, Eq)]
pub struct Launch {
    /// The executable to start.
    pub program: String,
    /// The value of `INSERT_LIBRARIES`: the library.
    pub insert_libraries: String,
    /// The value of `LIBRARY_PATH`: the directory of the library.
    pub library_path: String,
}

/// Decides how to start the game with the library at `dylib` loaded into it.
/// `dylib_dir` is the directory that holds the library, if it has one;
/// `running` says whether the game runs already, and a running game is not
/// started again.
pub fn launch(game: &GameInfo, dylib: &str, dylib_dir: Option<&str>, running: bool) -> (r: Result<
    Launch,
    String,
>)
    ensures
        match r {
            Ok(start) => {
                &&& !running
                &&& dylib_dir matches Some(dir)
                &&& start.library_path@ == dir@
                &&& start.program@ == game.executable@
                &&& start.insert_libraries@ == dylib@
            },
            Err(why) => if running {
                why@ == "Game is already running"@
            } else {
                dylib_dir is None && why@ == "Could not determine dylib directory"@
            },
        },
{
    if running {
        return Err(String::from_str("Game is already running"));
    }
    match dylib_dir {
        Some(dir) => Ok(
            Launch {
                program: game.executable.clone(),
                insert_libraries: String::from_str(dylib),
                library_path: String::from_str(dir),
            },
        ),
        None => Err(String::from_str("Could not determine dylib directory")),
    }
}

} // verus!
