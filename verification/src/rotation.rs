//! When the log file is rotated, and what that takes.
//!
//! A rotation is a short exchange with the host (see `host`). At startup it
//! begins with `rotate_logs`, on a change of day while the application runs
//! with `check_runtime_rotation`; `rotate_logs_in` takes each reply and says
//! what to do next, until the query is `Nothing`.
//!
//! At startup the log file is not open yet, and a stale one is renamed: it
//! goes into the archive of the last date that it records. While the
//! application runs, the logging sink holds the file open for appending: a
//! rename would not be seen through that handle, so the file is copied and
//! emptied instead, and the copy is the archive of the day that the state
//! held.

use vstd::prelude::*;
use crate::archive::{
    archive_name, archive_name_of, cleanup_old_archives, expired_archives, log_file_name,
    log_file_name_of, midnight, normalize_plugin_archives, normalized_last_time,
    normalizing_renames, sorted_times,
};
use crate::date::Date;
use crate::directory::{
    is_kept, is_touched, lemma_log_file_is_not_timed, lemma_normalizing_shifts_each_archive,
    lemma_sorted_times, timed_name,
};
use crate::host::{
    is_listing, perform, perform_all, FileOp, FileOpModel, LogProbe, LogProbeModel, Query,
    QueryModel, Reply, ReplyModel, Request, RequestModel,
};
use crate::tail::{last_date, last_log_date};

verus! {

/// Which of the two rotations is under way.
#[derive(Debug, Clone, Copy, PartialEq, Eq, Structural)]
pub enum Mode {
    /// Before the log file is opened: a stale file is renamed.
    Startup,
    /// While the log file is open elsewhere: it is copied and emptied.
    Runtime,
}

/// How far a rotation has come: what reply it waits for.
#[derive(Debug, PartialEq, Eq)]
pub enum Phase {
    /// At startup: waiting to hear of the active log file.
    Probing,
    /// Waiting for the names in the directory, to put the archives of `date`
    /// in order.
    Normalizing { mode: Mode, date: Date },
    /// While running, the archives of `date` in order: waiting to hear whether
    /// the active log file is there. `last_time` is the time that its archive
    /// is to carry.
    Copying { date: Date, last_time: Option<String> },
    /// Waiting to hear whether the name of the archive is taken.
    Archiving { mode: Mode, target: String },
    /// Waiting for the names in the directory, to delete the old archives.
    Sweeping,
    /// Nothing is waited for.
    Finished,
}

/// A `Phase` as contracts see it.
pub enum PhaseModel {
    Probing,
    Normalizing { mode: Mode, date: Date },
    Copying { date: Date, last_time: Option<Seq<char>> },
    Archiving { mode: Mode, target: Seq<char> },
    Sweeping,
    Finished,
}

impl DeepView for Phase {
    type V = PhaseModel;

    open spec fn deep_view(&self) -> PhaseModel {
        match self {
            Phase::Probing => PhaseModel::Probing,
            Phase::Normalizing { mode, date } => PhaseModel::Normalizing {
                mode: *mode,
                date: *date,
            },
            Phase::Copying { date, last_time } => PhaseModel::Copying {
                date: *date,
                last_time: last_time.deep_view(),
            },
            Phase::Archiving { mode, target } => PhaseModel::Archiving {
                mode: *mode,
                target: target@,
            },
            Phase::Sweeping => PhaseModel::Sweeping,
            Phase::Finished => PhaseModel::Finished,
        }
    }
}

impl Phase {
    /// Whether the date that the phase holds, if it holds one, is a day of the
    /// calendar. Every phase that this library hands out is well-formed.
    pub open spec fn wf(&self) -> bool {
        match self {
            Phase::Normalizing { date, .. } => date.wf(),
            Phase::Copying { date, .. } => date.wf(),
            _ => true,
        }
    }
}

/// What the date of the rotation is kept in while the application runs.
#[derive(Debug, PartialEq, Eq)]
pub struct RotationState {
    /// The day of the last check.
    pub current_date: Date,
    /// The log directory.
    pub log_dir: String,
}

/// A `RotationState` as contracts see it.
pub struct RotationStateModel {
    pub current_date: Date,
    pub log_dir: Seq<char>,
}

impl DeepView for RotationState {
    type V = RotationStateModel;

    open spec fn deep_view(&self) -> RotationStateModel {
        RotationStateModel { current_date: self.current_date, log_dir: self.log_dir@ }
    }
}

/// The last date that the probed log file records; none where the file is
/// missing or unreadable, or records no date.
pub open spec fn probed_date(probe: LogProbeModel) -> Option<Date> {
    match probe {
        LogProbeModel::Read { start, tail } => last_date(tail, start == 0),
        _ => None,
    }
}

/// The request that ends a rotation.
pub open spec fn nothing_more() -> (PhaseModel, RequestModel) {
    (PhaseModel::Finished, RequestModel { ops: Seq::empty(), query: QueryModel::Nothing })
}

/// The request that goes on to the sweep of old archives, after `ops`.
pub open spec fn then_sweep(ops: Seq<FileOpModel>) -> (PhaseModel, RequestModel) {
    (PhaseModel::Sweeping, RequestModel { ops, query: QueryModel::ListDir })
}

/// The operation that moves what the active log file holds into `target`.
pub open spec fn archive_op(mode: Mode, target: Seq<char>) -> FileOpModel {
    match mode {
        Mode::Startup => FileOpModel::Rename { from: log_file_name_of(), to: target },
        Mode::Runtime => FileOpModel::CopyTruncate { from: log_file_name_of(), to: target },
    }
}

/// One deletion for each of `names`.
pub open spec fn removals(names: Seq<Seq<char>>) -> Seq<FileOpModel> {
    Seq::new(names.len(), |i: int| FileOpModel::Remove { name: names[i] })
}

/// What the startup rotation does once it has heard of the log file: nothing
/// to a missing one or one of today; one without a date is emptied; for one of
/// an earlier day the archives of that day are put in order first.
pub open spec fn after_startup_probe(probe: LogProbeModel, today: Date) -> (
    PhaseModel,
    RequestModel,
) {
    if probe is Missing {
        then_sweep(Seq::empty())
    } else {
        match probed_date(probe) {
            None => then_sweep(seq![FileOpModel::Truncate { name: log_file_name_of() }]),
            Some(date) => if date.is_before_spec(today) {
                (
                    PhaseModel::Normalizing { mode: Mode::Startup, date },
                    RequestModel { ops: Seq::empty(), query: QueryModel::ListDir },
                )
            } else {
                then_sweep(Seq::empty())
            },
        }
    }
}

/// What the runtime rotation does once it has heard whether the active log
/// file is there: a missing file is nothing to rotate; any other goes into the
/// archive of `date`, the day that the state held, named with `last_time`
/// where normalizing gave one. Whether the archive's name is free is asked
/// next.
pub open spec fn after_log_found(date: Date, last_time: Option<Seq<char>>, found: bool) -> (
    PhaseModel,
    RequestModel,
) {
    if found {
        let target = archive_name_of(date.text(), last_time);
        (
            PhaseModel::Archiving { mode: Mode::Runtime, target },
            RequestModel { ops: Seq::empty(), query: QueryModel::Exists { name: target } },
        )
    } else {
        then_sweep(Seq::empty())
    }
}

/// What is done once the names in the directory are known, to put the archives
/// of `date` in order: the renames, and then, at startup, the question whether
/// the archive's name is free; while running, the question whether the active
/// log file is there.
pub open spec fn after_names(mode: Mode, date: Date, names: Seq<Seq<char>>) -> (
    PhaseModel,
    RequestModel,
) {
    let renames = normalizing_renames(names, date.text());
    let last_time = normalized_last_time(names, date.text());
    match mode {
        Mode::Startup => {
            let target = archive_name_of(date.text(), last_time);
            (
                PhaseModel::Archiving { mode, target },
                RequestModel { ops: renames, query: QueryModel::Exists { name: target } },
            )
        },
        Mode::Runtime => (
            PhaseModel::Copying { date, last_time },
            RequestModel {
                ops: renames,
                query: QueryModel::Exists { name: log_file_name_of() },
            },
        ),
    }
}

/// The step of a rotation: from the phase and the host's reply to the next
/// phase and request. A name that is taken is never written over: the log file
/// then stays as it is. The sweep of old archives comes last, whatever went
/// before. A reply that the phase does not wait for ends the rotation.
pub open spec fn next_step(phase: PhaseModel, reply: ReplyModel, today: Date) -> (
    PhaseModel,
    RequestModel,
) {
    match (phase, reply) {
        (PhaseModel::Probing, ReplyModel::Log(probe)) => after_startup_probe(probe, today),
        (PhaseModel::Normalizing { mode, date }, ReplyModel::Names(names)) => after_names(
            mode,
            date,
            names,
        ),
        (PhaseModel::Copying { date, last_time }, ReplyModel::Exists(found)) => after_log_found(
            date,
            last_time,
            found,
        ),
        (PhaseModel::Archiving { mode, target }, ReplyModel::Exists(taken)) => if taken {
            then_sweep(Seq::empty())
        } else {
            then_sweep(seq![archive_op(mode, target)])
        },
        (PhaseModel::Sweeping, ReplyModel::Names(names)) => (
            PhaseModel::Finished,
            RequestModel {
                ops: removals(expired_archives(names, today)),
                query: QueryModel::Nothing,
            },
        ),
        _ => nothing_more(),
    }
}

/// What a check at runtime comes to: nothing without a state, and nothing on
/// the day that the state holds. On any other day the state moves on to
/// `today`, whatever becomes of the rotation, and the rotation begins with the
/// archives of the day that the state held.
pub open spec fn runtime_check(state: Option<RotationStateModel>, today: Date) -> (
    Option<RotationStateModel>,
    (PhaseModel, RequestModel),
) {
    match state {
        None => (None, nothing_more()),
        Some(held) => if held.current_date == today {
            (state, nothing_more())
        } else {
            (
                Some(RotationStateModel { current_date: today, log_dir: held.log_dir }),
                (
                    PhaseModel::Normalizing { mode: Mode::Runtime, date: held.current_date },
                    RequestModel { ops: Seq::empty(), query: QueryModel::ListDir },
                ),
            )
        },
    }
}

fn finish() -> (r: (Phase, Request))
    ensures
        r.deep_view() == nothing_more(),
{
    let ops: Vec<FileOp> = Vec::new();
    assert(ops.deep_view() =~= Seq::<FileOpModel>::empty());
    (Phase::Finished, Request { ops, query: Query::Nothing })
}

fn sweep_after(ops: Vec<FileOp>) -> (r: (Phase, Request))
    ensures
        r.deep_view() == then_sweep(ops.deep_view()),
{
    (Phase::Sweeping, Request { ops, query: Query::ListDir })
}

fn no_ops() -> (ops: Vec<FileOp>)
    ensures
        ops.deep_view() == Seq::<FileOpModel>::empty(),
{
    let ops: Vec<FileOp> = Vec::new();
    assert(ops.deep_view() =~= Seq::<FileOpModel>::empty());
    ops
}

fn one_op(op: FileOp) -> (ops: Vec<FileOp>)
    ensures
        ops.deep_view() == seq![op.deep_view()],
{
    let mut ops: Vec<FileOp> = Vec::new();
    ops.push(op);
    assert(ops.deep_view() =~= seq![op.deep_view()]);
    ops
}

/// The last date that the probed log file records.
pub fn date_of_probe(probe: &LogProbe) -> (r: Option<Date>)
    ensures
        r == probed_date(probe.deep_view()),
        r matches Some(d) ==> d.wf(),
{
    match probe {
        LogProbe::Read { start, tail } => last_log_date(*start, tail.as_slice()),
        _ => None,
    }
}

/// Begins the rotation at startup, before the log file is opened. Without a
/// log directory there is nothing to do.
pub fn rotate_logs(dir_found: bool) -> (r: (Phase, Request))
    ensures
        r.0.wf(),
        r.deep_view() == if dir_found {
            (PhaseModel::Probing, RequestModel { ops: Seq::empty(), query: QueryModel::ProbeLog })
        } else {
            nothing_more()
        },
{
    if dir_found {
        (Phase::Probing, Request { ops: no_ops(), query: Query::ProbeLog })
    } else {
        finish()
    }
}

/// The state for the checks at runtime, made once the startup rotation is
/// through; none without a log directory, and every check is then idle.
pub fn init_runtime_rotation(log_dir: Option<String>, today: Date) -> (r: Option<RotationState>)
    ensures
        r.deep_view() == match log_dir {
            Some(dir) => Some(RotationStateModel { current_date: today, log_dir: dir@ }),
            None => None,
        },
{
    match log_dir {
        Some(dir) => Some(RotationState { current_date: today, log_dir: dir }),
        None => None,
    }
}

/// Checks, before a line is written, whether the day has changed since the
/// last check, and begins the rotation if it has. On an unchanged day this
/// asks nothing of the host.
pub fn check_runtime_rotation(state: &mut Option<RotationState>, today: Date) -> (r: (
    Phase,
    Request,
))
    requires
        *old(state) matches Some(held) ==> held.current_date.wf(),
        today.wf(),
    ensures
        (final(state).deep_view(), r.deep_view()) == runtime_check(old(state).deep_view(), today),
        r.0.wf(),
        *final(state) matches Some(held) ==> held.current_date.wf(),
{
    match state {
        None => finish(),
        Some(held) => {
            if held.current_date == today {
                finish()
            } else {
                let date = held.current_date;
                held.current_date = today;
                (
                    Phase::Normalizing { mode: Mode::Runtime, date },
                    Request { ops: no_ops(), query: Query::ListDir },
                )
            }
        },
    }
}

/// What the runtime rotation does once it has heard whether the active log
/// file is there: the file goes, by copy and truncation, into the archive of
/// `date`, the day that the state held, with `last_time` in its name where
/// normalizing gave one, unless the file is missing or the archive's name turns
/// out to be taken.
pub fn copy_truncate_rotation(date: Date, last_time: Option<String>, log_found: bool) -> (r: (
    Phase,
    Request,
))
    requires
        date.wf(),
    ensures
        r.0.wf(),
        r.deep_view() == after_log_found(date, last_time.deep_view(), log_found),
{
    if !log_found {
        return sweep_after(no_ops());
    }
    let text = date.format();
    let target = match &last_time {
        Some(time) => archive_name(text.as_str(), Some(time.as_str())),
        None => archive_name(text.as_str(), None),
    };
    let name = target.clone();
    (
        Phase::Archiving { mode: Mode::Runtime, target },
        Request { ops: no_ops(), query: Query::Exists { name } },
    )
}

/// Takes the host's reply to the last request and says what to do next.
#[verifier::rlimit(50)]
pub fn rotate_logs_in(phase: Phase, reply: &Reply, today: Date) -> (r: (Phase, Request))
    requires
        phase.wf(),
        today.wf(),
    ensures
        r.0.wf(),
        r.deep_view() == next_step(phase.deep_view(), reply.deep_view(), today),
{
    match (phase, reply) {
        (Phase::Probing, Reply::Log(probe)) => {
            match probe {
                LogProbe::Missing => sweep_after(no_ops()),
                _ => match date_of_probe(probe) {
                    None => sweep_after(one_op(FileOp::Truncate { name: log_file_name() })),
                    Some(date) => if date.is_before(&today) {
                        (
                            Phase::Normalizing { mode: Mode::Startup, date },
                            Request { ops: no_ops(), query: Query::ListDir },
                        )
                    } else {
                        sweep_after(no_ops())
                    },
                },
            }
        },
        (Phase::Normalizing { mode, date }, Reply::Names(names)) => {
            let text = date.format();
            let plan = normalize_plugin_archives(names, text.as_str());
            match mode {
                Mode::Startup => {
                    let target = match &plan.last_time {
                        Some(time) => archive_name(text.as_str(), Some(time.as_str())),
                        None => archive_name(text.as_str(), None),
                    };
                    let name = target.clone();
                    (
                        Phase::Archiving { mode, target },
                        Request { ops: plan.renames, query: Query::Exists { name } },
                    )
                },
                Mode::Runtime => (
                    Phase::Copying { date, last_time: plan.last_time },
                    Request { ops: plan.renames, query: Query::Exists { name: log_file_name() } },
                ),
            }
        },
        (Phase::Copying { date, last_time }, Reply::Exists(found)) => copy_truncate_rotation(
            date,
            last_time,
            *found,
        ),
        (Phase::Archiving { mode, target }, Reply::Exists(taken)) => {
            if *taken {
                sweep_after(no_ops())
            } else {
                let from = log_file_name();
                let op = match mode {
                    Mode::Startup => FileOp::Rename { from, to: target },
                    Mode::Runtime => FileOp::CopyTruncate { from, to: target },
                };
                sweep_after(one_op(op))
            }
        },
        (Phase::Sweeping, Reply::Names(names)) => {
            let expired = cleanup_old_archives(names, today);
            let mut ops: Vec<FileOp> = Vec::new();
            let mut i: usize = 0;
            while i < expired.len()
                invariant
                    i <= expired.len(),
                    ops.deep_view() == removals(expired.deep_view()).take(i as int),
                decreases expired.len() - i,
            {
                let ghost before = ops.deep_view();
                ops.push(FileOp::Remove { name: expired[i].clone() });
                assert(ops.deep_view() =~= before.push(removals(expired.deep_view())[i as int]));
                assert(removals(expired.deep_view()).take(i + 1) =~= removals(
                    expired.deep_view(),
                ).take(i as int).push(removals(expired.deep_view())[i as int]));
                i += 1;
            }
            assert(removals(expired.deep_view()).take(expired.len() as int) =~= removals(
                expired.deep_view(),
            ));
            (Phase::Finished, Request { ops, query: Query::Nothing })
        },
        _ => finish(),
    }
}

/// Of two checks on one day, the second asks nothing of the host and leaves
/// the state as it is, whatever the first one did.
pub proof fn lemma_second_check_of_a_day_is_idle(state: Option<RotationStateModel>, today: Date)
    ensures
        ({
            let first = runtime_check(state, today);
            let second = runtime_check(first.0, today);
            second.0 == first.0 && second.1 == nothing_more()
        }),
{
}

/// A check on the day that the state holds asks nothing of the host.
pub proof fn lemma_check_on_the_same_day_is_idle(state: RotationStateModel)
    ensures
        runtime_check(Some(state), state.current_date) == (Some(state), nothing_more()),
        nothing_more().1.ops.len() == 0,
        nothing_more().1.query is Nothing,
{
}

/// At startup a log file of today, or of a day to come, is left as it is: the
/// rotation goes on to the sweep without any operation.
pub proof fn lemma_startup_leaves_a_fresh_log(probe: LogProbeModel, today: Date)
    requires
        probed_date(probe) matches Some(date) && !date.is_before_spec(today),
    ensures
        after_startup_probe(probe, today) == then_sweep(Seq::empty()),
{
}

/// At startup a log file that is there but records no date is emptied, and
/// keeps its name.
pub proof fn lemma_startup_empties_a_log_without_a_date(
    probe: LogProbeModel,
    today: Date,
    dir: Map<Seq<char>, Seq<char>>,
)
    requires
        !(probe is Missing),
        probed_date(probe) is None,
        dir.dom().contains(log_file_name_of()),
    ensures
        after_startup_probe(probe, today).1.ops == seq![
            FileOpModel::Truncate { name: log_file_name_of() },
        ],
        perform_all(dir, after_startup_probe(probe, today).1.ops).dom() == dir.dom(),
        perform_all(dir, after_startup_probe(probe, today).1.ops)[log_file_name_of()]
            == Seq::<char>::empty(),
{
    let ops = after_startup_probe(probe, today).1.ops;
    assert(ops.drop_last() =~= Seq::<FileOpModel>::empty());
    assert(perform_all(dir, ops.drop_last()) == dir);
    assert(perform_all(dir, ops).dom() =~= dir.dom());
}

/// Archiving moves what the log file holds into the archive: at startup the
/// log file is gone afterwards, while running it is there and empty. It is
/// asked for only where the archive's name is free.
pub proof fn lemma_archiving_moves_the_log(
    mode: Mode,
    target: Seq<char>,
    today: Date,
    dir: Map<Seq<char>, Seq<char>>,
)
    requires
        dir.dom().contains(log_file_name_of()),
        target != log_file_name_of(),
    ensures
        next_step(PhaseModel::Archiving { mode, target }, ReplyModel::Exists(true), today)
            == then_sweep(Seq::empty()),
        next_step(PhaseModel::Archiving { mode, target }, ReplyModel::Exists(false), today)
            == then_sweep(seq![archive_op(mode, target)]),
        perform(dir, archive_op(mode, target))[target] == dir[log_file_name_of()],
        perform(dir, archive_op(mode, target)).dom().contains(target),
        mode == Mode::Startup ==> !perform(dir, archive_op(mode, target)).dom().contains(
            log_file_name_of(),
        ),
        mode == Mode::Runtime ==> perform(dir, archive_op(mode, target)).dom().contains(
            log_file_name_of(),
        ) && perform(dir, archive_op(mode, target))[log_file_name_of()] == Seq::<char>::empty(),
{
}

/// At startup a log file of an earlier day goes into the archive of that day,
/// and no log file is left: the archives of the day are put in order, the name
/// of the archive is then free, and the log file takes it with all that it
/// holds. This is stated for a directory that holds no archive of the day at
/// midnight yet, nor, where the day has no archive with a time, its archive
/// without one: there the archive's name is taken, and the log file stays.
#[verifier::rlimit(50)]
pub proof fn lemma_startup_archives_a_stale_log(
    dir: Map<Seq<char>, Seq<char>>,
    probe: LogProbeModel,
    today: Date,
    names: Seq<Seq<char>>,
)
    requires
        probed_date(probe) matches Some(date) && date.is_before_spec(today),
        dir.dom().contains(log_file_name_of()),
        is_listing(names, dir),
        !dir.dom().contains(timed_name(probed_date(probe)->0.text(), midnight())),
        sorted_times(names, probed_date(probe)->0.text()).len() == 0 ==> !dir.dom().contains(
            archive_name_of(probed_date(probe)->0.text(), None),
        ),
    ensures
        ({
            let date = probed_date(probe)->0;
            let target = archive_name_of(date.text(), normalized_last_time(names, date.text()));
            let first = next_step(PhaseModel::Probing, ReplyModel::Log(probe), today);
            let second = next_step(first.0, ReplyModel::Names(names), today);
            let renamed = perform_all(dir, second.1.ops);
            let third = next_step(second.0, ReplyModel::Exists(false), today);
            let archived = perform_all(renamed, third.1.ops);
            &&& first.1 == RequestModel { ops: Seq::empty(), query: QueryModel::ListDir }
            &&& second.1.query == QueryModel::Exists { name: target }
            &&& !renamed.dom().contains(target)
            &&& third.0 == PhaseModel::Sweeping
            &&& !archived.dom().contains(log_file_name_of())
            &&& archived.dom().contains(target)
            &&& archived[target] == dir[log_file_name_of()]
        }),
{
    let date = probed_date(probe)->0;
    let text = date.text();
    let times = sorted_times(names, text);
    let target = archive_name_of(text, normalized_last_time(names, text));
    let renamed = perform_all(dir, normalizing_renames(names, text));
    lemma_normalizing_shifts_each_archive(dir, names, text);
    lemma_sorted_times(names, text);
    assert(is_kept(dir, renamed, log_file_name_of())) by {
        assert forall|i: int| 0 <= i < times.len() implies log_file_name_of() != timed_name(
            text,
            #[trigger] times[i],
        ) by {
            lemma_log_file_is_not_timed(text, times[i]);
        }
        lemma_log_file_is_not_timed(text, midnight());
        assert(!is_touched(text, times, log_file_name_of()));
    }
    if times.len() == 0 {
        assert(renamed == dir);
        lemma_log_file_is_not_timed(text, midnight());
    } else {
        lemma_log_file_is_not_timed(text, times.last());
    }
    let op = archive_op(Mode::Startup, target);
    assert(seq![op].drop_last() =~= Seq::<FileOpModel>::empty());
    assert(seq![op].last() == op);
    assert(perform_all(renamed, Seq::<FileOpModel>::empty()) == renamed);
    assert(perform_all(renamed, seq![op]) == perform(renamed, op));
}

/// On a change of day while the application runs, what the log file holds
/// goes into the archive of the day that the state held, whatever dates the
/// file records, and the file is left empty: the archives of that day are put
/// in order, the name of the archive is then free, and the copy takes it. This
/// is stated for a directory that holds the log file and no archive of that
/// day at midnight yet, nor, where the day has no archive with a time, its
/// archive without one: there the archive's name is taken, and the log file
/// stays.
pub proof fn lemma_runtime_archives_the_day_that_was_held(
    dir: Map<Seq<char>, Seq<char>>,
    held: RotationStateModel,
    today: Date,
    names: Seq<Seq<char>>,
)
    requires
        held.current_date != today,
        dir.dom().contains(log_file_name_of()),
        is_listing(names, dir),
        !dir.dom().contains(timed_name(held.current_date.text(), midnight())),
        sorted_times(names, held.current_date.text()).len() == 0 ==> !dir.dom().contains(
            archive_name_of(held.current_date.text(), None),
        ),
    ensures
        ({
            let date = held.current_date;
            let target = archive_name_of(date.text(), normalized_last_time(names, date.text()));
            let first = runtime_check(Some(held), today);
            let second = next_step(first.1.0, ReplyModel::Names(names), today);
            let renamed = perform_all(dir, second.1.ops);
            let third = next_step(second.0, ReplyModel::Exists(true), today);
            let fourth = next_step(third.0, ReplyModel::Exists(false), today);
            let archived = perform_all(renamed, fourth.1.ops);
            &&& first.0 == Some(RotationStateModel { current_date: today, log_dir: held.log_dir })
            &&& first.1.1 == RequestModel { ops: Seq::empty(), query: QueryModel::ListDir }
            &&& second.1.query == QueryModel::Exists { name: log_file_name_of() }
            &&& renamed.dom().contains(log_file_name_of())
            &&& third.1 == RequestModel {
                ops: Seq::empty(),
                query: QueryModel::Exists { name: target },
            }
            &&& !renamed.dom().contains(target)
            &&& fourth.0 == PhaseModel::Sweeping
            &&& archived.dom().contains(target)
            &&& archived[target] == dir[log_file_name_of()]
            &&& archived.dom().contains(log_file_name_of())
            &&& archived[log_file_name_of()] == Seq::<char>::empty()
        }),
{
    let text = held.current_date.text();
    let times = sorted_times(names, text);
    let target = archive_name_of(text, normalized_last_time(names, text));
    let renamed = perform_all(dir, normalizing_renames(names, text));
    lemma_normalizing_shifts_each_archive(dir, names, text);
    lemma_sorted_times(names, text);
    assert(is_kept(dir, renamed, log_file_name_of())) by {
        assert forall|i: int| 0 <= i < times.len() implies log_file_name_of() != timed_name(
            text,
            #[trigger] times[i],
        ) by {
            lemma_log_file_is_not_timed(text, times[i]);
        }
        lemma_log_file_is_not_timed(text, midnight());
        assert(!is_touched(text, times, log_file_name_of()));
    }
    if times.len() == 0 {
        assert(renamed == dir);
        lemma_log_file_is_not_timed(text, midnight());
    } else {
        lemma_log_file_is_not_timed(text, times.last());
    }
    let op = archive_op(Mode::Runtime, target);
    assert(seq![op].drop_last() =~= Seq::<FileOpModel>::empty());
    assert(seq![op].last() == op);
    assert(perform_all(renamed, Seq::<FileOpModel>::empty()) == renamed);
    assert(perform_all(renamed, seq![op]) == perform(renamed, op));
}

} // verus!
