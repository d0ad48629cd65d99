use std::collections::BTreeMap;

use daystrom_core::archive::{
    archive_date, archive_name, cleanup_old_archives, log_file_name, normalize_plugin_archives,
    size_archive_time, NormalizePlan, LOG_FILE_NAME,
};
use daystrom_core::date::Date;
use daystrom_core::host::{FileOp, LogProbe, Query, Reply, Request};
use daystrom_core::rotation::{
    check_runtime_rotation, copy_truncate_rotation, date_of_probe, init_runtime_rotation,
    rotate_logs, rotate_logs_in, Mode, Phase, RotationState,
};
use daystrom_core::tail::tail_start;

/// A log directory in memory, which does what a host is asked to do.
struct Dir {
    files: BTreeMap<String, String>,
    writes: usize,
    replaced: usize,
}

impl Dir {
    fn new() -> Self {
        Dir { files: BTreeMap::new(), writes: 0, replaced: 0 }
    }

    fn write(&mut self, name: &str, content: &str) {
        self.files.insert(name.to_string(), content.to_string());
    }

    fn has(&self, name: &str) -> bool {
        self.files.contains_key(name)
    }

    fn read(&self, name: &str) -> &str {
        self.files.get(name).map(|s| s.as_str()).expect("the file is there")
    }

    fn names(&self) -> Vec<String> {
        self.files.keys().cloned().collect()
    }

    fn perform(&mut self, op: &FileOp) {
        self.writes += 1;
        match op {
            FileOp::Rename { from, to } => {
                if let Some(content) = self.files.remove(from) {
                    if self.files.insert(to.clone(), content).is_some() {
                        self.replaced += 1;
                    }
                }
            }
            FileOp::Truncate { name } => {
                if let Some(content) = self.files.get_mut(name) {
                    content.clear();
                }
            }
            FileOp::CopyTruncate { from, to } => {
                if let Some(content) = self.files.get(from).cloned() {
                    self.files.insert(to.clone(), content);
                    self.files.insert(from.clone(), String::new());
                }
            }
            FileOp::Remove { name } => {
                self.files.remove(name);
            }
        }
    }

    fn probe(&self) -> LogProbe {
        match self.files.get(&log_file_name()) {
            None => LogProbe::Missing,
            Some(content) => {
                let start = tail_start(content.len() as u64);
                LogProbe::Read { start, tail: content.as_bytes()[start as usize..].to_vec() }
            }
        }
    }

    fn answer(&self, query: &Query) -> Option<Reply> {
        match query {
            Query::ProbeLog => Some(Reply::Log(self.probe())),
            Query::ListDir => Some(Reply::Names(self.names())),
            Query::Exists { name } => Some(Reply::Exists(self.has(name))),
            Query::Nothing => None,
        }
    }

    /// Carries a rotation through to its end.
    fn run(&mut self, begun: (Phase, Request), today: Date) {
        let (mut phase, mut request) = begun;
        for _ in 0..16 {
            for op in &request.ops {
                self.perform(op);
            }
            let Some(reply) = self.answer(&request.query) else {
                assert_eq!(phase, Phase::Finished);
                return;
            };
            (phase, request) = rotate_logs_in(phase, &reply, today);
        }
        panic!("the rotation does not end");
    }

    fn rotate_logs_in(&mut self, today: Date) {
        self.run(rotate_logs(true), today);
    }
}

fn today_date() -> Date {
    Date::new(2026, 3, 1).unwrap()
}

fn today_str() -> String {
    today_date().format()
}

/// The day `n` days before today, as `time` counts.
fn days_ago_str(n: i64) -> String {
    let today = time::Date::from_calendar_date(2026, time::Month::March, 1).unwrap();
    let then = today - time::Duration::days(n);
    let text = format!("{:04}-{:02}-{:02}", then.year(), u8::from(then.month()), then.day());
    assert_eq!(today_date().days_since(&Date::parse(&text).unwrap()), n);
    text
}

fn log_line(date: &str) -> String {
    format!(
        "{date}T14:30:45.123+01:00 INFO  [Test                ] \
         (Backend : test.rs                       :    1): message\n"
    )
}

fn rename(from: &str, to: &str) -> FileOp {
    FileOp::Rename { from: from.to_string(), to: to.to_string() }
}

fn names(list: &[&str]) -> Vec<String> {
    list.iter().map(|s| s.to_string()).collect()
}

// -- what a probe finds --

#[test]
fn last_log_date_missing_file() {
    assert!(date_of_probe(&LogProbe::Missing).is_none());
    assert!(date_of_probe(&Dir::new().probe()).is_none());
}

#[test]
fn last_log_date_of_a_probe() {
    assert!(date_of_probe(&LogProbe::Unreadable).is_none());
    let probe = LogProbe::Read { start: 0, tail: log_line("2026-02-20").into_bytes() };
    assert_eq!(date_of_probe(&probe), Date::new(2026, 2, 20));
    let probe = LogProbe::Read { start: 5, tail: log_line("2026-02-20").into_bytes() };
    assert_eq!(date_of_probe(&probe), None);
}

// -- startup rotation --

#[test]
fn rotate_archives_old_file() {
    let mut dir = Dir::new();
    let yesterday = days_ago_str(1);
    let log_file = format!("{LOG_FILE_NAME}.log");
    dir.write(&log_file, &log_line(&yesterday));

    dir.rotate_logs_in(today_date());

    assert!(!dir.has(&log_file), "the log file should be gone");
    let archive = format!("{LOG_FILE_NAME}_{yesterday}.log");
    assert!(dir.has(&archive), "archive should exist");
    assert_eq!(dir.read(&archive), log_line(&yesterday));
}

#[test]
fn rotate_keeps_todays_file() {
    let mut dir = Dir::new();
    let today = today_str();
    let log_file = format!("{LOG_FILE_NAME}.log");
    dir.write(&log_file, &log_line(&today));

    dir.rotate_logs_in(today_date());

    assert!(dir.has(&log_file), "today's log should remain");
    assert_eq!(dir.read(&log_file), log_line(&today));
    assert_eq!(dir.writes, 0);
}

#[test]
fn rotate_truncates_garbage_file() {
    let mut dir = Dir::new();
    let log_file = format!("{LOG_FILE_NAME}.log");
    dir.write(&log_file, "no valid timestamps here\n");

    dir.rotate_logs_in(today_date());

    assert!(dir.has(&log_file), "file should still exist");
    assert_eq!(dir.read(&log_file), "", "file should be empty");
}

#[test]
fn rotate_noop_when_no_log_file() {
    let mut dir = Dir::new();
    // an empty directory, without a log file
    dir.rotate_logs_in(today_date());
    assert!(dir.names().is_empty());
    assert_eq!(dir.writes, 0);
}

#[test]
fn rotate_deletes_old_archives() {
    let mut dir = Dir::new();
    let old_date = days_ago_str(31);
    let old_archive = format!("{LOG_FILE_NAME}_{old_date}.log");
    dir.write(&old_archive, "old logs");

    dir.rotate_logs_in(today_date());

    assert!(!dir.has(&old_archive), "archive older than 30 days should be deleted");
}

#[test]
fn rotate_keeps_recent_archives() {
    let mut dir = Dir::new();
    let recent_date = days_ago_str(15);
    let recent_archive = format!("{LOG_FILE_NAME}_{recent_date}.log");
    dir.write(&recent_archive, "recent logs");

    dir.rotate_logs_in(today_date());

    assert!(dir.has(&recent_archive), "archive within 30 days should be kept");
}

#[test]
fn rotate_keeps_an_archive_of_exactly_thirty_days() {
    let mut dir = Dir::new();
    let kept = format!("{LOG_FILE_NAME}_{}.log", days_ago_str(30));
    let gone = format!("{LOG_FILE_NAME}_{}_10-00-00.log", days_ago_str(31));
    dir.write(&kept, "a");
    dir.write(&gone, "b");

    dir.rotate_logs_in(today_date());

    assert!(dir.has(&kept));
    assert!(!dir.has(&gone));
}

#[test]
fn rotate_startup_normalizes_archives() {
    let mut dir = Dir::new();
    let yesterday = days_ago_str(1);
    let log_file = format!("{LOG_FILE_NAME}.log");
    dir.write(&log_file, &log_line(&yesterday));

    // archives of yesterday that were cut off by size
    for time in ["09-00-00", "13-00-00"] {
        dir.write(
            &format!("{LOG_FILE_NAME}_{yesterday}_{time}.log"),
            &format!("plugin content {time}"),
        );
    }

    dir.rotate_logs_in(today_date());

    assert!(
        dir.has(&format!("{LOG_FILE_NAME}_{yesterday}_00-00-00.log")),
        "first plugin file should be renamed to _00-00-00"
    );
    assert!(
        dir.has(&format!("{LOG_FILE_NAME}_{yesterday}_09-00-00.log")),
        "second plugin file should be renamed to _09-00-00"
    );
    assert!(
        dir.has(&format!("{LOG_FILE_NAME}_{yesterday}_13-00-00.log")),
        "main log should be archived with last plugin time"
    );
    assert!(!dir.has(&log_file), "the log file should be gone");
    assert_eq!(
        dir.read(&format!("{LOG_FILE_NAME}_{yesterday}_00-00-00.log")),
        "plugin content 09-00-00"
    );
    assert_eq!(
        dir.read(&format!("{LOG_FILE_NAME}_{yesterday}_09-00-00.log")),
        "plugin content 13-00-00"
    );
    assert_eq!(
        dir.read(&format!("{LOG_FILE_NAME}_{yesterday}_13-00-00.log")),
        log_line(&yesterday)
    );
}

#[test]
fn rotate_never_writes_over_an_archive() {
    let mut dir = Dir::new();
    let yesterday = days_ago_str(1);
    let log_file = format!("{LOG_FILE_NAME}.log");
    let archive = format!("{LOG_FILE_NAME}_{yesterday}.log");
    dir.write(&log_file, &log_line(&yesterday));
    dir.write(&archive, "existing archive content");

    dir.rotate_logs_in(today_date());

    assert_eq!(dir.read(&archive), "existing archive content");
    assert_eq!(dir.read(&log_file), log_line(&yesterday));
}

#[test]
fn rotate_archives_a_stale_file_that_is_too_old_to_keep() {
    // the archive of a log that lay for two months is swept right away
    let mut dir = Dir::new();
    let old = days_ago_str(60);
    dir.write(&format!("{LOG_FILE_NAME}.log"), &log_line(&old));

    dir.rotate_logs_in(today_date());

    assert!(dir.names().is_empty());
}

#[test]
fn rotate_leaves_a_log_from_the_future() {
    let mut dir = Dir::new();
    let log_file = format!("{LOG_FILE_NAME}.log");
    dir.write(&log_file, &log_line("2026-03-02"));

    dir.rotate_logs_in(today_date());

    assert_eq!(dir.read(&log_file), log_line("2026-03-02"));
    assert_eq!(dir.writes, 0);
}

#[test]
fn rotate_truncates_an_empty_or_unreadable_log() {
    let today = today_date();
    let (phase, _) = rotate_logs(true);
    let (phase, request) = rotate_logs_in(phase, &Reply::Log(LogProbe::Unreadable), today);
    assert_eq!(phase, Phase::Sweeping);
    assert_eq!(
        request,
        Request {
            ops: vec![FileOp::Truncate { name: "project-daystrom.log".to_string() }],
            query: Query::ListDir,
        }
    );
    let (phase, _) = rotate_logs(true);
    let probe = LogProbe::Read { start: 0, tail: Vec::new() };
    let (_, request) = rotate_logs_in(phase, &Reply::Log(probe), today);
    assert_eq!(request.ops, vec![FileOp::Truncate { name: "project-daystrom.log".to_string() }]);
}

#[test]
fn rotate_logs_without_a_directory_asks_nothing() {
    assert_eq!(
        rotate_logs(false),
        (Phase::Finished, Request { ops: vec![], query: Query::Nothing })
    );
    assert_eq!(
        rotate_logs(true),
        (Phase::Probing, Request { ops: vec![], query: Query::ProbeLog })
    );
}

#[test]
fn rotate_steps_through_the_phases() {
    let today = today_date();
    let yesterday = Date::new(2026, 2, 28).unwrap();
    let (phase, _) = rotate_logs(true);
    let probe = LogProbe::Read { start: 0, tail: log_line("2026-02-28").into_bytes() };
    let (phase, request) = rotate_logs_in(phase, &Reply::Log(probe), today);
    assert_eq!(phase, Phase::Normalizing { mode: Mode::Startup, date: yesterday });
    assert_eq!(request, Request { ops: vec![], query: Query::ListDir });

    let listing = names(&["project-daystrom.log", "project-daystrom_2026-02-28_09-00-00.log"]);
    let (phase, request) = rotate_logs_in(phase, &Reply::Names(listing), today);
    let target = "project-daystrom_2026-02-28_09-00-00.log".to_string();
    assert_eq!(phase, Phase::Archiving { mode: Mode::Startup, target: target.clone() });
    assert_eq!(
        request,
        Request {
            ops: vec![rename(
                "project-daystrom_2026-02-28_09-00-00.log",
                "project-daystrom_2026-02-28_00-00-00.log"
            )],
            query: Query::Exists { name: target.clone() },
        }
    );

    let (phase, request) = rotate_logs_in(phase, &Reply::Exists(false), today);
    assert_eq!(phase, Phase::Sweeping);
    assert_eq!(
        request,
        Request { ops: vec![rename("project-daystrom.log", &target)], query: Query::ListDir }
    );

    let listing = names(&["project-daystrom_2026-01-01.log", "project-daystrom_2026-02-28.log"]);
    let (phase, request) = rotate_logs_in(phase, &Reply::Names(listing), today);
    assert_eq!(phase, Phase::Finished);
    assert_eq!(
        request,
        Request {
            ops: vec![FileOp::Remove { name: "project-daystrom_2026-01-01.log".to_string() }],
            query: Query::Nothing,
        }
    );
}

#[test]
fn a_reply_out_of_turn_ends_the_rotation() {
    let today = today_date();
    let done = (Phase::Finished, Request { ops: vec![], query: Query::Nothing });
    assert_eq!(rotate_logs_in(Phase::Probing, &Reply::Exists(true), today), done);
    assert_eq!(rotate_logs_in(Phase::Sweeping, &Reply::Log(LogProbe::Missing), today), done);
    assert_eq!(rotate_logs_in(Phase::Finished, &Reply::Names(vec![]), today), done);
    assert_eq!(
        rotate_logs_in(
            Phase::Archiving { mode: Mode::Runtime, target: "t".to_string() },
            &Reply::Names(vec![]),
            today
        ),
        done
    );
}

// -- runtime rotation --

impl Dir {
    /// The copy of the log into the archive of yesterday, the day that the
    /// state held.
    fn copy_truncate_rotation(&mut self, time_suffix: Option<&str>) {
        let held = Date::parse(&days_ago_str(1)).unwrap();
        let found = self.has(&log_file_name());
        let begun = copy_truncate_rotation(held, time_suffix.map(|s| s.to_string()), found);
        self.run(begun, today_date());
    }

    fn check_runtime_rotation(&mut self, state: &mut Option<RotationState>, today: Date) {
        let begun = check_runtime_rotation(state, today);
        self.run(begun, today);
    }
}

#[test]
fn runtime_rotation_copies_and_truncates() {
    let mut dir = Dir::new();
    let yesterday = days_ago_str(1);
    let log_file = format!("{LOG_FILE_NAME}.log");
    dir.write(&log_file, &log_line(&yesterday));

    dir.copy_truncate_rotation(None);

    let archive = format!("{LOG_FILE_NAME}_{yesterday}.log");
    assert!(dir.has(&archive), "archive should exist");
    assert_eq!(dir.read(&archive), log_line(&yesterday));
    assert_eq!(dir.read(&log_file), "", "log file should be truncated");
}

#[test]
fn runtime_rotation_skips_same_day() {
    let mut dir = Dir::new();
    let today = today_str();
    let log_file = format!("{LOG_FILE_NAME}.log");
    let content = log_line(&today);
    dir.write(&log_file, &content);

    let mut state = Some(RotationState { current_date: today_date(), log_dir: "logs".to_string() });

    dir.check_runtime_rotation(&mut state, today_date());

    assert_eq!(dir.read(&log_file), content, "log file should be unchanged");
    assert_eq!(dir.writes, 0);
    assert_eq!(
        state,
        Some(RotationState { current_date: today_date(), log_dir: "logs".to_string() })
    );
}

#[test]
fn runtime_rotation_skips_existing_archive() {
    let mut dir = Dir::new();
    let yesterday = days_ago_str(1);
    let log_file = format!("{LOG_FILE_NAME}.log");
    dir.write(&log_file, &log_line(&yesterday));

    // the archive is there already, with other content
    let archive = format!("{LOG_FILE_NAME}_{yesterday}.log");
    dir.write(&archive, "existing archive content");

    dir.copy_truncate_rotation(None);

    assert_eq!(
        dir.read(&archive),
        "existing archive content",
        "existing archive should not be overwritten"
    );
    assert_eq!(dir.read(&log_file), log_line(&yesterday));
}

#[test]
fn copy_truncate_with_time_suffix() {
    let mut dir = Dir::new();
    let yesterday = days_ago_str(1);
    let log_file = format!("{LOG_FILE_NAME}.log");
    dir.write(&log_file, &log_line(&yesterday));

    dir.copy_truncate_rotation(Some("21-00-00"));

    let archive = format!("{LOG_FILE_NAME}_{yesterday}_21-00-00.log");
    assert!(dir.has(&archive), "archive should include time suffix");
    assert_eq!(dir.read(&log_file), "", "log file should be truncated");
}

#[test]
fn copy_truncate_goes_by_the_day_that_was_held_not_by_the_log() {
    // a log without a date is rotated like any other
    let mut dir = Dir::new();
    let yesterday = days_ago_str(1);
    let log_file = format!("{LOG_FILE_NAME}.log");
    dir.write(&log_file, "no valid timestamps here\n");
    dir.copy_truncate_rotation(None);
    assert_eq!(dir.read(&log_file), "");
    assert_eq!(
        dir.read(&format!("{LOG_FILE_NAME}_{yesterday}.log")),
        "no valid timestamps here\n"
    );
}

#[test]
fn copy_truncate_without_a_log_file_does_nothing() {
    let mut dir = Dir::new();
    dir.copy_truncate_rotation(Some("21-00-00"));
    assert!(dir.names().is_empty());
    assert_eq!(dir.writes, 0);
    let held = Date::new(2026, 2, 28).unwrap();
    assert_eq!(
        copy_truncate_rotation(held, None, false),
        (Phase::Sweeping, Request { ops: vec![], query: Query::ListDir })
    );
    assert_eq!(
        copy_truncate_rotation(held, Some("21-00-00".to_string()), true),
        (
            Phase::Archiving {
                mode: Mode::Runtime,
                target: "project-daystrom_2026-02-28_21-00-00.log".to_string()
            },
            Request {
                ops: vec![],
                query: Query::Exists {
                    name: "project-daystrom_2026-02-28_21-00-00.log".to_string()
                }
            }
        )
    );
}

#[test]
fn runtime_rotation_on_a_new_day() {
    let mut dir = Dir::new();
    let yesterday = days_ago_str(1);
    let log_file = format!("{LOG_FILE_NAME}.log");
    dir.write(&log_file, &log_line(&yesterday));
    for time in ["09-00-00", "13-00-00"] {
        dir.write(&format!("{LOG_FILE_NAME}_{yesterday}_{time}.log"), time);
    }
    let old = format!("{LOG_FILE_NAME}_{}.log", days_ago_str(40));
    dir.write(&old, "old");
    let mut state = init_runtime_rotation(Some("logs".to_string()), Date::parse(&yesterday).unwrap());

    dir.check_runtime_rotation(&mut state, today_date());

    assert_eq!(
        state,
        Some(RotationState { current_date: today_date(), log_dir: "logs".to_string() })
    );
    assert_eq!(
        dir.names(),
        vec![
            log_file.clone(),
            format!("{LOG_FILE_NAME}_{yesterday}_00-00-00.log"),
            format!("{LOG_FILE_NAME}_{yesterday}_09-00-00.log"),
            format!("{LOG_FILE_NAME}_{yesterday}_13-00-00.log"),
        ]
    );
    assert_eq!(dir.read(&log_file), "");
    assert_eq!(dir.read(&format!("{LOG_FILE_NAME}_{yesterday}_00-00-00.log")), "09-00-00");
    assert_eq!(dir.read(&format!("{LOG_FILE_NAME}_{yesterday}_09-00-00.log")), "13-00-00");
    assert_eq!(
        dir.read(&format!("{LOG_FILE_NAME}_{yesterday}_13-00-00.log")),
        log_line(&yesterday)
    );

    // a second check on the same day writes nothing
    let writes = dir.writes;
    dir.check_runtime_rotation(&mut state, today_date());
    assert_eq!(dir.writes, writes);
}

#[test]
fn runtime_rotation_moves_on_even_if_nothing_could_be_copied() {
    let mut dir = Dir::new();
    let mut state = init_runtime_rotation(Some("logs".to_string()), Date::new(2026, 2, 28).unwrap());
    dir.check_runtime_rotation(&mut state, today_date());
    assert_eq!(state.as_ref().map(|s| s.current_date), Some(today_date()));
    assert_eq!(dir.writes, 0);
}

#[test]
fn runtime_rotation_names_the_archive_by_the_day_that_was_held() {
    // the state held the 20th, the clock shows the 21st, the log ends on the 19th
    let mut dir = Dir::new();
    let log_file = format!("{LOG_FILE_NAME}.log");
    dir.write(&log_file, &log_line("2026-02-19"));
    let mut state = init_runtime_rotation(Some("logs".to_string()), Date::new(2026, 2, 20).unwrap());
    let today = Date::new(2026, 2, 21).unwrap();

    dir.check_runtime_rotation(&mut state, today);

    assert_eq!(dir.names(), vec![log_file.clone(), format!("{LOG_FILE_NAME}_2026-02-20.log")]);
    assert_eq!(dir.read(&format!("{LOG_FILE_NAME}_2026-02-20.log")), log_line("2026-02-19"));
    assert_eq!(dir.read(&log_file), "");
    assert_eq!(state.map(|s| s.current_date), Some(today));
}

#[test]
fn runtime_rotation_takes_date_and_time_from_the_day_that_was_held() {
    // the state held the 27th, the log's last line is of the 28th
    let mut dir = Dir::new();
    let log_file = format!("{LOG_FILE_NAME}.log");
    dir.write(&log_file, &log_line("2026-02-28"));
    dir.write(&format!("{LOG_FILE_NAME}_2026-02-27_10-00-00.log"), "a");
    let mut state = init_runtime_rotation(Some("logs".to_string()), Date::new(2026, 2, 27).unwrap());

    dir.check_runtime_rotation(&mut state, today_date());

    assert_eq!(
        dir.names(),
        vec![
            log_file,
            format!("{LOG_FILE_NAME}_2026-02-27_00-00-00.log"),
            format!("{LOG_FILE_NAME}_2026-02-27_10-00-00.log"),
        ]
    );
    assert_eq!(
        dir.read(&format!("{LOG_FILE_NAME}_2026-02-27_10-00-00.log")),
        log_line("2026-02-28")
    );
}

#[test]
fn runtime_rotation_steps_through_the_phases() {
    let held = Date::new(2026, 2, 28).unwrap();
    let today = today_date();
    let mut state = init_runtime_rotation(Some("logs".to_string()), held);
    let (phase, _) = check_runtime_rotation(&mut state, today);

    let listing = names(&["project-daystrom.log", "project-daystrom_2026-02-28_09-00-00.log"]);
    let (phase, request) = rotate_logs_in(phase, &Reply::Names(listing), today);
    assert_eq!(phase, Phase::Copying { date: held, last_time: Some("09-00-00".to_string()) });
    assert_eq!(
        request,
        Request {
            ops: vec![rename(
                "project-daystrom_2026-02-28_09-00-00.log",
                "project-daystrom_2026-02-28_00-00-00.log"
            )],
            query: Query::Exists { name: "project-daystrom.log".to_string() },
        }
    );

    let target = "project-daystrom_2026-02-28_09-00-00.log".to_string();
    let (phase, request) = rotate_logs_in(phase, &Reply::Exists(true), today);
    assert_eq!(phase, Phase::Archiving { mode: Mode::Runtime, target: target.clone() });
    assert_eq!(request, Request { ops: vec![], query: Query::Exists { name: target.clone() } });

    let (phase, request) = rotate_logs_in(phase, &Reply::Exists(false), today);
    assert_eq!(phase, Phase::Sweeping);
    assert_eq!(
        request,
        Request {
            ops: vec![FileOp::CopyTruncate {
                from: "project-daystrom.log".to_string(),
                to: target
            }],
            query: Query::ListDir,
        }
    );
}

#[test]
fn check_without_state_is_idle() {
    let mut state = init_runtime_rotation(None, today_date());
    assert_eq!(state, None);
    assert_eq!(
        check_runtime_rotation(&mut state, today_date()),
        (Phase::Finished, Request { ops: vec![], query: Query::Nothing })
    );
    assert_eq!(state, None);
}

#[test]
fn check_on_a_new_day_begins_with_the_day_that_was_held() {
    let held = Date::new(2026, 2, 28).unwrap();
    let mut state = init_runtime_rotation(Some("logs".to_string()), held);
    assert_eq!(
        check_runtime_rotation(&mut state, today_date()),
        (
            Phase::Normalizing { mode: Mode::Runtime, date: held },
            Request { ops: vec![], query: Query::ListDir }
        )
    );
    assert_eq!(
        check_runtime_rotation(&mut state, today_date()),
        (Phase::Finished, Request { ops: vec![], query: Query::Nothing })
    );
}

// -- cleanup_old_archives --

#[test]
fn cleanup_handles_plugin_rotation_format() {
    let old_date = days_ago_str(31);
    let plugin_archive = format!("{LOG_FILE_NAME}_{old_date}_14-30-45.log");

    let expired = cleanup_old_archives(&vec![plugin_archive.clone()], today_date());

    assert_eq!(expired, vec![plugin_archive]);
}

#[test]
fn cleanup_deletes_both_formats() {
    let old_date = days_ago_str(31);
    let our_archive = format!("{LOG_FILE_NAME}_{old_date}.log");
    let plugin_archive = format!("{LOG_FILE_NAME}_{old_date}_14-30-45.log");

    let expired =
        cleanup_old_archives(&vec![our_archive.clone(), plugin_archive.clone()], today_date());

    assert_eq!(expired, vec![our_archive, plugin_archive]);
}

#[test]
fn cleanup_goes_by_the_retention_window() {
    let today = today_date();
    let listing = names(&[
        "project-daystrom.log",
        "project-daystrom_2026-01-29.log",
        "project-daystrom_2026-01-30.log",
        "project-daystrom_2026-01-31.log",
        "project-daystrom_2026-02-14.log",
        "project-daystrom_2025-03-01_10-00-00.log",
        "project-daystrom_2026-03-05.log",
    ]);
    assert_eq!(
        cleanup_old_archives(&listing, today),
        names(&[
            "project-daystrom_2026-01-29.log",
            "project-daystrom_2025-03-01_10-00-00.log",
        ])
    );
}

#[test]
fn cleanup_leaves_what_is_no_archive() {
    let today = today_date();
    let listing = names(&[
        "project-daystrom.log",
        "project-daystrom_2020-01-01.txt",
        "project-daystrom_2020-01-01",
        "project-daystrom_2020-1-1.log",
        "project-daystrom_2020-02-30.log",
        "project-daystrom_.log",
        "project-daystrom_2020-01.log",
        "other_2020-01-01.log",
        "project-daystrom2020-01-01.log",
        "project-daystrom_2020-01-1\u{e9}.log",
        "",
    ]);
    assert_eq!(cleanup_old_archives(&listing, today), Vec::<String>::new());
}

#[test]
fn cleanup_leaves_names_of_neither_scheme() {
    let today = Date::new(2026, 2, 1).unwrap();
    let listing = names(&[
        "project-daystrom.log",
        "other_2020-01-01.log",
        "project-daystrom_2020-01-01.txt",
        "project-daystrom_2020-01-01-notes.log",
        "project-daystrom_2020-01-01 copy.log",
        "project-daystrom_2020-01-01_.log",
        "project-daystrom_2020-01-01_10-00.log",
        "project-daystrom_2020-01-01_10-00-000.log",
        "project-daystrom_2020-01-01-10-00-00.log",
        "project-daystrom_2020-01-01_10-00-00.log.log",
        "project-daystrom_2020-01-011.log",
    ]);
    assert_eq!(cleanup_old_archives(&listing, today), Vec::<String>::new());
    let mut dir = Dir::new();
    for name in &listing {
        dir.write(name, name);
    }
    dir.run((Phase::Sweeping, Request { ops: vec![], query: Query::ListDir }), today);
    assert_eq!(dir.names().len(), listing.len());
    for name in &listing {
        assert_eq!(dir.read(name), name);
    }
    assert_eq!(
        cleanup_old_archives(
            &names(&[
                "project-daystrom_2020-01-01.log",
                "project-daystrom_2020-01-01_10-00-00.log",
                "project-daystrom_2020-01-01_whatever.log",
            ]),
            today
        ),
        names(&[
            "project-daystrom_2020-01-01.log",
            "project-daystrom_2020-01-01_10-00-00.log",
            "project-daystrom_2020-01-01_whatever.log",
        ])
    );
}

// -- normalize_plugin_archives --

/// Normalizes the archives of `date` in `dir`, and returns the last time.
fn normalize(dir: &mut Dir, date: &str) -> Option<String> {
    let plan = normalize_plugin_archives(&dir.names(), date);
    for op in &plan.renames {
        dir.perform(op);
    }
    plan.last_time
}

#[test]
fn normalize_no_plugin_files() {
    let mut dir = Dir::new();
    assert_eq!(normalize(&mut dir, "2026-01-15"), None);
    assert_eq!(
        normalize_plugin_archives(&vec![], "2026-01-15"),
        NormalizePlan { renames: vec![], last_time: None }
    );
}

#[test]
fn normalize_renames_single_file() {
    let mut dir = Dir::new();
    let date = "2026-01-15";
    dir.write(&format!("{LOG_FILE_NAME}_{date}_09-00-00.log"), "log content");

    let result = normalize(&mut dir, date);
    assert_eq!(result.as_deref(), Some("09-00-00"));

    assert!(
        dir.has(&format!("{LOG_FILE_NAME}_{date}_00-00-00.log")),
        "file should be renamed to _00-00-00"
    );
    assert!(
        !dir.has(&format!("{LOG_FILE_NAME}_{date}_09-00-00.log")),
        "the file should no longer be there under its old name"
    );
}

#[test]
fn normalize_renames_chain() {
    let mut dir = Dir::new();
    let date = "2026-01-15";
    for time in ["09-00-00", "13-00-00", "21-00-00"] {
        dir.write(&format!("{LOG_FILE_NAME}_{date}_{time}.log"), &format!("content from {time}"));
    }

    let result = normalize(&mut dir, date);
    assert_eq!(result.as_deref(), Some("21-00-00"));

    assert_eq!(dir.read(&format!("{LOG_FILE_NAME}_{date}_00-00-00.log")), "content from 09-00-00");
    assert_eq!(dir.read(&format!("{LOG_FILE_NAME}_{date}_09-00-00.log")), "content from 13-00-00");
    assert_eq!(dir.read(&format!("{LOG_FILE_NAME}_{date}_13-00-00.log")), "content from 21-00-00");
    assert!(
        !dir.has(&format!("{LOG_FILE_NAME}_{date}_21-00-00.log")),
        "_21-00-00 should no longer exist"
    );
    assert_eq!(dir.replaced, 0, "no rename should replace a file");
}

#[test]
fn normalize_skips_other_dates() {
    let mut dir = Dir::new();
    let target = "2026-01-15";
    let other = "2026-01-14";
    dir.write(&format!("{LOG_FILE_NAME}_{target}_09-00-00.log"), "target");
    dir.write(&format!("{LOG_FILE_NAME}_{other}_12-00-00.log"), "other");

    normalize(&mut dir, target);

    assert!(
        dir.has(&format!("{LOG_FILE_NAME}_{other}_12-00-00.log")),
        "other date's file should remain unchanged"
    );
    assert_eq!(dir.read(&format!("{LOG_FILE_NAME}_{other}_12-00-00.log")), "other");
}

#[test]
fn normalize_orders_the_renames_whatever_the_listing() {
    let listing = names(&[
        "project-daystrom_2026-01-15_21-00-00.log",
        "project-daystrom.log",
        "project-daystrom_2026-01-15_09-00-00.log",
        "project-daystrom_2026-01-15.log",
        "project-daystrom_2026-01-15_13-00-00.log",
        "project-daystrom_2026-01-15_9-00-00.log",
        "project-daystrom_2026-01-15_09-00-000.log",
        "project-daystrom_2026-01-15_09-00-00.txt",
        "project-daystrom_2026-01-16_10-00-00.log",
    ]);
    assert_eq!(
        normalize_plugin_archives(&listing, "2026-01-15"),
        NormalizePlan {
            renames: vec![
                rename(
                    "project-daystrom_2026-01-15_09-00-00.log",
                    "project-daystrom_2026-01-15_00-00-00.log"
                ),
                rename(
                    "project-daystrom_2026-01-15_13-00-00.log",
                    "project-daystrom_2026-01-15_09-00-00.log"
                ),
                rename(
                    "project-daystrom_2026-01-15_21-00-00.log",
                    "project-daystrom_2026-01-15_13-00-00.log"
                ),
            ],
            last_time: Some("21-00-00".to_string()),
        }
    );
}

#[test]
fn normalize_twice_is_normalize_once() {
    let mut dir = Dir::new();
    let date = "2026-01-15";
    for time in ["09-00-00", "13-00-00", "21-00-00"] {
        dir.write(&format!("{LOG_FILE_NAME}_{date}_{time}.log"), time);
    }
    assert_eq!(normalize(&mut dir, date).as_deref(), Some("21-00-00"));
    let once = dir.files.clone();
    let writes = dir.writes;

    assert_eq!(normalize(&mut dir, date), None);

    assert_eq!(dir.files, once);
    assert_eq!(dir.writes, writes);
}

#[test]
fn normalize_is_not_repeatable_where_a_time_sorts_before_midnight() {
    // `!` sorts before `0`: the earliest archive is not the one at midnight
    let mut dir = Dir::new();
    let date = "2026-01-15";
    dir.write(&format!("{LOG_FILE_NAME}_{date}_!0-00-00.log"), "a");
    dir.write(&format!("{LOG_FILE_NAME}_{date}_09-00-00.log"), "b");

    assert_eq!(normalize(&mut dir, date).as_deref(), Some("09-00-00"));
    assert_eq!(dir.read(&format!("{LOG_FILE_NAME}_{date}_00-00-00.log")), "a");
    assert_eq!(dir.read(&format!("{LOG_FILE_NAME}_{date}_!0-00-00.log")), "b");

    assert_eq!(normalize(&mut dir, date).as_deref(), Some("00-00-00"));
}

#[test]
fn normalize_counts_characters() {
    // eight characters of more than eight bytes are a time as well
    let listing = names(&["project-daystrom_2026-01-15_09\u{2013}00\u{2013}00.log"]);
    let plan = normalize_plugin_archives(&listing, "2026-01-15");
    assert_eq!(plan.last_time.as_deref(), Some("09\u{2013}00\u{2013}00"));
}

#[test]
fn archive_names() {
    assert_eq!(log_file_name(), "project-daystrom.log");
    assert_eq!(archive_name("2026-01-15", None), "project-daystrom_2026-01-15.log");
    assert_eq!(
        archive_name("2026-01-15", Some("21-00-00")),
        "project-daystrom_2026-01-15_21-00-00.log"
    );
}

#[test]
fn archive_names_are_read_back() {
    let date = Date::new(2026, 1, 15).unwrap();
    assert_eq!(archive_date(&archive_name(&date.format(), None)), Some(date));
    assert_eq!(archive_date(&archive_name(&date.format(), Some("21-00-00"))), Some(date));
    assert_eq!(archive_date(&archive_name(&date.format(), Some("21-00"))), None);
    assert_eq!(archive_date("project-daystrom_2026-01-15-21-00-00.log"), None);
    assert_eq!(archive_date(&log_file_name()), None);
    let timed = archive_name("2026-01-15", Some("21-00-00"));
    assert_eq!(size_archive_time(&timed, "2026-01-15").as_deref(), Some("21-00-00"));
    assert_eq!(size_archive_time(&timed, "2026-01-16"), None);
    assert_eq!(size_archive_time(&archive_name("2026-01-15", None), "2026-01-15"), None);
    assert_eq!(size_archive_time(&archive_name("2026-01-15", Some("21-00")), "2026-01-15"), None);
    assert_eq!(size_archive_time(&log_file_name(), "2026-01-15"), None);
}
