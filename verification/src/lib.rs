//! The rules of a desktop application that looks after a game and keeps a log.
//!
//! The larger part is the life of the log: fixed-layout log lines (`format`),
//! the last date that a log file records (`tail`), archive names and the
//! retention window (`archive`), and the rotation of the log file at startup
//! and at each change of day (`rotation`). The smaller part is the game:
//! where it is installed and what its executable is entitled to (`game`), and
//! what the application's commands answer (`commands`).
//!
//! The library decides; its host performs. Everything here works on plain
//! values (text read from a file, the names found in a directory, a calendar
//! date) and answers with what to do next (`host`). What the answers make of a
//! directory is stated as laws (`directory`).

pub mod text;
pub mod archive;
pub mod commands;
pub mod date;
pub mod directory;
pub mod format;
pub mod game;
pub mod host;
pub mod rotation;
pub mod tail;
