//! The launcher's settings file, a list of `KEY=value` lines, read by hand: it
//! holds a binary blob that parsers of the format stumble over.

use vstd::prelude::*;
use vstd::string::StringExecFns;
use crate::game::GameInfo;
use crate::text::{chars_of, is_line_start, line_at, line_stop, matches_at, string_of_range};

verus! {

/// The launcher's settings file, below the home directory.
pub const LAUNCHER_SETTINGS_PATH: &'static str =
    "Library/Preferences/Star Trek Fleet Command/launcher_settings.ini";

/// The key, with its `=`, whose value is the directory of the installation.
pub const GAME_PATH_KEY: &'static str = "152033..GAME_PATH=";

/// The path of the executable below the directory of the installation.
pub const EXECUTABLE_REL: &'static str =
    "Star Trek Fleet Command.app/Contents/MacOS/Star Trek Fleet Command";

/// The value of the first line that begins with the key, among the lines that
/// begin at or behind `i`.
pub open spec fn game_path_from(t: Seq<char>, i: int) -> Option<Seq<char>>
    decreases t.len() - i,
{
    if i < 0 || i >= t.len() {
        None
    } else if is_line_start(t, i, true) && GAME_PATH_KEY@.is_prefix_of(line_at(t, i)) {
        Some(line_at(t, i).skip(GAME_PATH_KEY@.len() as int))
    } else {
        game_path_from(t, i + 1)
    }
}

/// The value of the first line that begins with the key.
pub open spec fn game_path_of(t: Seq<char>) -> Option<Seq<char>> {
    game_path_from(t, 0)
}

/// The directory that a value of the key names: the launcher may write two
/// slashes at its start, of which one is dropped.
pub open spec fn install_dir_of(raw: Seq<char>) -> Seq<char> {
    if raw.len() > 0 && raw[0] == '/' {
        raw.skip(1)
    } else {
        raw
    }
}

/// The path of the executable of the installation in `dir`.
pub open spec fn executable_of(dir: Seq<char>) -> Seq<char> {
    if dir.len() == 0 || dir.last() == '/' {
        dir + EXECUTABLE_REL@
    } else {
        dir + seq!['/'] + EXECUTABLE_REL@
    }
}

proof fn lemma_no_line_begins_inside(t: Seq<char>, from: int, to: int)
    requires
        0 <= from <= to <= t.len(),
        forall|k: int| from <= k < to ==> #[trigger] t[k - 1] != '\n' && k > 0,
    ensures
        game_path_from(t, from) == game_path_from(t, to),
    decreases to - from,
{
    if from < to {
        lemma_no_line_begins_inside(t, from + 1, to);
    }
}

/// The value of the first line of `content` that begins with the key of the
/// game's path.
#[verifier::rlimit(50)]
pub fn read_game_path(content: &str) -> (r: Option<&str>)
    ensures
        match r {
            Some(value) => game_path_of(content@) == Some(value@),
            None => game_path_of(content@) is None,
        },
{
    let chars = chars_of(content);
    let key = chars_of(GAME_PATH_KEY);
    let n = chars.len();
    let mut start: usize = 0;
    while start < n
        invariant
            n == chars.len(),
            chars@ == content@,
            key@ == GAME_PATH_KEY@,
            start <= n,
            is_line_start(content@, start as int, true),
            game_path_of(content@) == game_path_from(content@, start as int),
        decreases n - start,
    {
        let mut stop: usize = start;
        while stop < n && chars[stop] != '\n'
            invariant
                start <= stop <= n,
                n == chars.len(),
                chars@ == content@,
                line_stop(content@, start as int) == line_stop(content@, stop as int),
                forall|k: int| start <= k < stop ==> content@[k] != '\n',
            decreases n - stop,
        {
            stop += 1;
        }
        let end = if stop < n && start < stop && chars[stop - 1] == '\r' {
            stop - 1
        } else {
            stop
        };
        let ghost line = line_at(content@, start as int);
        assert(line == content@.subrange(start as int, end as int));
        let begins = matches_at(&chars, start, &key) && key.len() <= end - start;
        proof {
            if key@.len() <= end - start {
                assert(line.subrange(0, key@.len() as int) =~= content@.subrange(
                    start as int,
                    start + key@.len(),
                ));
            }
        }
        if begins {
            let value = content.substring_char(start + key.len(), end);
            assert(line.skip(key@.len() as int) =~= content@.subrange(
                start + key@.len(),
                end as int,
            ));
            return Some(value);
        }
        proof {
            assert forall|k: int| start + 1 <= k < stop + 1 implies #[trigger] content@[k - 1]
                != '\n' && k > 0 by {}
            if stop < n {
                lemma_no_line_begins_inside(content@, start + 1, stop + 1);
            } else {
                lemma_no_line_begins_inside(content@, start + 1, stop as int);
            }
        }
        if stop == n {
            return None;
        }
        start = stop + 1;
    }
    None
}

/// Where the launcher's settings say that the game lies: the directory of
/// the installation, and the executable below it. `None` where the settings
/// name no installation. Nothing is said of what is on the disk.
pub fn installation(settings: &str) -> (r: Option<GameInfo>)
    ensures
        match r {
            Some(info) => game_path_of(settings@) matches Some(raw) && info.install_dir@
                == install_dir_of(raw) && info.executable@ == executable_of(install_dir_of(raw)),
            None => game_path_of(settings@) is None,
        },
{
    let raw = match read_game_path(settings) {
        Some(raw) => raw,
        None => {
            return None;
        },
    };
    let chars = chars_of(raw);
    let n = chars.len();
    let from: usize = if n > 0 && chars[0] == '/' {
        1
    } else {
        0
    };
    let install_dir = string_of_range(&chars, from, n);
    assert(install_dir@ =~= install_dir_of(raw@));
    let mut executable = string_of_range(&chars, from, n);
    if n > from && chars[n - 1] != '/' {
        executable.push('/');
    }
    executable.append(EXECUTABLE_REL);
    Some(GameInfo { install_dir, executable })
}

/// Whether the game counts as found: the settings file could be read, it
/// names an installation, and the executable of that installation is there.
pub open spec fn is_detected(settings: Option<Seq<char>>, executable_found: bool) -> bool {
    &&& executable_found
    &&& settings matches Some(text)
    &&& game_path_of(text) is Some
}

/// Finds the game. `settings` is what the launcher's settings file holds, if
/// it could be read; `executable_found` says whether the executable that the
/// settings lead to (see `installation`) is there. The game is found only
/// where the settings name an installation and its executable is there.
pub fn detect(settings: Option<&str>, executable_found: bool) -> (r: Option<GameInfo>)
    ensures
        r is Some <==> is_detected(
            match settings {
                Some(text) => Some(text@),
                None => None,
            },
            executable_found,
        ),
        r matches Some(info) ==> settings matches Some(text) && game_path_of(text@) matches Some(
            raw,
        ) && info.install_dir@ == install_dir_of(raw) && info.executable@ == executable_of(
            install_dir_of(raw),
        ),
{
    if !executable_found {
        return None;
    }
    match settings {
        Some(text) => installation(text),
        None => None,
    }
}

} // verus!
