//! Archive names: how they are built, how they are read back, and which
//! archives have outlived the retention window.

use vstd::prelude::*;
use vstd::string::StringExecFns;
use vstd::relations::sorted_by;
use vstd::seq_lib::lemma_sorted_unique;
use crate::date::{iso_date, Date};
use crate::host::{FileOp, FileOpModel};
use crate::text::{
    chars_of, has_prefix, lemma_lex_order_is_total, lex_le, lex_order, matches_at, same_text,
    string_of_range, text_le,
};

verus! {

/// The log files' base name.
pub const LOG_FILE_NAME: &'static str = "project-daystrom";

/// How many days an archive is kept.
pub const MAX_LOG_AGE_DAYS: i64 = 30;

/// The extension of every log file.
pub open spec fn log_suffix() -> Seq<char> {
    ".log"@
}

/// The name of the active log file.
pub open spec fn log_file_name_of() -> Seq<char> {
    LOG_FILE_NAME@ + log_suffix()
}

/// What every archive's name begins with.
pub open spec fn archive_prefix() -> Seq<char> {
    LOG_FILE_NAME@ + "_"@
}

/// The name of the archive for `date`: with a time where there is one, else
/// with the date alone.
pub open spec fn archive_name_of(date: Seq<char>, time: Option<Seq<char>>) -> Seq<char> {
    match time {
        Some(t) => archive_prefix() + date + "_"@ + t + log_suffix(),
        None => archive_prefix() + date + log_suffix(),
    }
}

/// The name of the active log file.
pub fn log_file_name() -> (r: String)
    ensures
        r@ == log_file_name_of(),
{
    let mut out = String::new();
    out.append(LOG_FILE_NAME);
    out.append(".log");
    out
}

/// The name of the archive for `date`, with `time` where there is one.
pub fn archive_name(date: &str, time: Option<&str>) -> (r: String)
    ensures
        r@ == archive_name_of(
            date@,
            match time {
                Some(t) => Some(t@),
                None => None,
            },
        ),
{
    let mut out = String::new();
    out.append(LOG_FILE_NAME);
    out.append("_");
    out.append(date);
    match time {
        Some(t) => {
            out.append("_");
            out.append(t);
        },
        None => {},
    }
    out.append(".log");
    out
}

/// Whether `stem`, what stands in a name between the prefix and the
/// extension, is of one of the two naming schemes: ten characters for the
/// date, and then nothing, or an underscore and eight characters for a time.
pub open spec fn is_archive_stem(stem: Seq<char>) -> bool {
    stem.len() == 10 || (stem.len() == 19 && stem[10] == '_')
}

/// The date in the name of an archive: the first ten characters behind the
/// prefix, where the name is of one of the two naming schemes and they spell a
/// date. Every other name is that of no archive.
pub open spec fn archive_date_of(name: Seq<char>) -> Option<Date> {
    if archive_prefix().is_prefix_of(name) {
        let rest = name.skip(archive_prefix().len() as int);
        if log_suffix().is_suffix_of(rest) && is_archive_stem(
            rest.take(rest.len() - log_suffix().len()),
        ) {
            iso_date(rest.take(10))
        } else {
            None
        }
    } else {
        None
    }
}

/// Whether an archive of `date` has outlived the retention window on `today`:
/// it is more than `MAX_LOG_AGE_DAYS` days old.
pub open spec fn is_expired(date: Date, today: Date) -> bool {
    today.day_number() - date.day_number() > MAX_LOG_AGE_DAYS
}

/// Whether `name` is that of an archive that has outlived the retention window.
pub open spec fn is_expired_archive(name: Seq<char>, today: Date) -> bool {
    archive_date_of(name) matches Some(date) && is_expired(date, today)
}

/// `is_expired_archive` on `today`, for handing to functions that take a test.
pub open spec fn expires_on(today: Date) -> spec_fn(Seq<char>) -> bool {
    |name: Seq<char>| is_expired_archive(name, today)
}

/// The names among `names` of the archives to delete on `today`, in the order
/// of `names`.
pub open spec fn expired_archives(names: Seq<Seq<char>>, today: Date) -> Seq<Seq<char>> {
    names.filter(expires_on(today))
}

/// The date in the name of an archive, of either naming scheme; none for a
/// name of neither.
pub fn archive_date(name: &str) -> (r: Option<Date>)
    ensures
        r == archive_date_of(name@),
        r matches Some(d) ==> d.wf(),
{
    let chars = chars_of(name);
    let mut p = String::new();
    p.append(LOG_FILE_NAME);
    p.append("_");
    let prefix = chars_of(p.as_str());
    let suffix = chars_of(".log");
    if !has_prefix(&chars, &prefix) {
        return None;
    }
    let start = prefix.len();
    let n = chars.len();
    let ghost rest = name@.skip(start as int);
    if n - start < suffix.len() {
        return None;
    }
    let ends = matches_at(&chars, n - suffix.len(), &suffix);
    assert(rest.subrange(rest.len() - suffix@.len(), rest.len() as int) =~= chars@.subrange(
        n - suffix@.len(),
        n as int,
    ));
    if !ends {
        return None;
    }
    let stem = n - start - suffix.len();
    let ghost between = rest.take(rest.len() - suffix@.len());
    assert(between.len() == stem);
    if stem == 19 {
        assert(between[10] == chars@[start + 10]);
    }
    if !(stem == 10 || (stem == 19 && chars[start + 10] == '_')) {
        return None;
    }
    let head = string_of_range(&chars, start, start + 10);
    assert(rest.take(10) =~= chars@.subrange(start as int, start + 10));
    Date::parse(head.as_str())
}

/// The archives to delete on `today`: every name of either naming scheme whose
/// date is more than `MAX_LOG_AGE_DAYS` days before `today`. Names of neither
/// scheme are left alone, whatever they begin with.
pub fn cleanup_old_archives(names: &Vec<String>, today: Date) -> (r: Vec<String>)
    requires
        today.wf(),
    ensures
        r.deep_view() == expired_archives(names.deep_view(), today),
{
    let mut out: Vec<String> = Vec::new();
    let ghost pred = expires_on(today);
    let mut i: usize = 0;
    proof {
        reveal(Seq::filter);
        assert(names.deep_view().take(0) =~= Seq::<Seq<char>>::empty());
        assert(out.deep_view() =~= Seq::<Seq<char>>::empty());
    }
    while i < names.len()
        invariant
            i <= names.len(),
            today.wf(),
            pred == expires_on(today),
            out.deep_view() == names.deep_view().take(i as int).filter(pred),
        decreases names.len() - i,
    {
        let ghost before = out.deep_view();
        let date = archive_date(names[i].as_str());
        let expired = match date {
            Some(d) => today.days_since(&d) > MAX_LOG_AGE_DAYS,
            None => false,
        };
        proof {
            reveal(Seq::filter);
            let next = names.deep_view().take(i + 1);
            assert(next.drop_last() =~= names.deep_view().take(i as int));
            assert(next.last() == names[i as int]@);
            assert(expired == pred(names[i as int]@));
        }
        if expired {
            out.push(names[i].clone());
            assert(out.deep_view() =~= before.push(names[i as int]@));
        }
        i += 1;
    }
    assert(names.deep_view().take(names.len() as int) =~= names.deep_view());
    out
}

/// The time that names the first archive of a day once its archives are put
/// in order.
pub open spec fn midnight() -> Seq<char> {
    "00-00-00"@
}

/// The time in the name of an archive that was cut off by size on `date`:
/// eight characters between the date and the extension.
pub open spec fn size_archive_time_of(name: Seq<char>, date: Seq<char>) -> Option<Seq<char>> {
    let prefix = archive_prefix() + date + "_"@;
    if prefix.is_prefix_of(name) {
        let rest = name.skip(prefix.len() as int);
        if log_suffix().is_suffix_of(rest) && rest.len() - log_suffix().len() == 8 {
            Some(rest.take(8))
        } else {
            None
        }
    } else {
        None
    }
}

/// The times of the archives of `date` among `names`, in the order of `names`.
pub open spec fn size_archive_times(names: Seq<Seq<char>>, date: Seq<char>) -> Seq<Seq<char>>
    decreases names.len(),
{
    if names.len() == 0 {
        Seq::empty()
    } else {
        let before = size_archive_times(names.drop_last(), date);
        match size_archive_time_of(names.last(), date) {
            Some(time) => before.push(time),
            None => before,
        }
    }
}

/// The times of the archives of `date` among `names`, earliest first.
pub open spec fn sorted_times(names: Seq<Seq<char>>, date: Seq<char>) -> Seq<Seq<char>> {
    size_archive_times(names, date).sort_by(lex_order())
}

/// The renames that put the archives of `date` in order: the earliest takes
/// midnight, each later one the time of the one before it. Earliest first, so
/// that each name is free when it is taken.
pub open spec fn renames_of(date: Seq<char>, times: Seq<Seq<char>>) -> Seq<FileOpModel> {
    Seq::new(
        times.len(),
        |i: int|
            FileOpModel::Rename {
                from: archive_name_of(date, Some(times[i])),
                to: archive_name_of(
                    date,
                    Some(
                        if i == 0 {
                            midnight()
                        } else {
                            times[i - 1]
                        },
                    ),
                ),
            },
    )
}

/// Whether the archives with these times, earliest first, are still named by
/// when each was cut off: there is one, and the first is not at midnight.
pub open spec fn needs_normalizing(times: Seq<Seq<char>>) -> bool {
    times.len() > 0 && times[0] != midnight()
}

/// The renames that put the archives of `date` among `names` in order; none
/// where there is no such archive or they are in order already.
pub open spec fn normalizing_renames(names: Seq<Seq<char>>, date: Seq<char>) -> Seq<FileOpModel> {
    let times = sorted_times(names, date);
    if needs_normalizing(times) {
        renames_of(date, times)
    } else {
        Seq::empty()
    }
}

/// The time that the archive of what is still in the active log file gets: that
/// of the last archive before the renames; none where nothing is renamed.
pub open spec fn normalized_last_time(names: Seq<Seq<char>>, date: Seq<char>) -> Option<Seq<char>> {
    let times = sorted_times(names, date);
    if needs_normalizing(times) {
        Some(times.last())
    } else {
        None
    }
}

/// What `normalize_plugin_archives` decides.
#[derive(Debug, PartialEq, Eq)]
pub struct NormalizePlan {
    /// The renames to carry out, in this order.
    pub renames: Vec<FileOp>,
    /// The time of the last archive as it was before the renames.
    pub last_time: Option<String>,
}

/// The time in the name of an archive that was cut off by size on `date`.
pub fn size_archive_time(name: &str, date: &str) -> (r: Option<String>)
    ensures
        r.deep_view() == size_archive_time_of(name@, date@),
{
    let chars = chars_of(name);
    let mut p = String::new();
    p.append(LOG_FILE_NAME);
    p.append("_");
    p.append(date);
    p.append("_");
    let prefix = chars_of(p.as_str());
    let suffix = chars_of(".log");
    if !has_prefix(&chars, &prefix) {
        return None;
    }
    let start = prefix.len();
    let n = chars.len();
    let ghost rest = name@.skip(start as int);
    if n - start < suffix.len() || n - start - suffix.len() != 8 {
        return None;
    }
    let ends = matches_at(&chars, n - suffix.len(), &suffix);
    assert(rest.subrange(rest.len() - suffix@.len(), rest.len() as int) =~= chars@.subrange(
        n - suffix@.len(),
        n as int,
    ));
    if !ends {
        return None;
    }
    assert(rest.take(8) =~= chars@.subrange(start as int, start + 8));
    Some(string_of_range(&chars, start, start + 8))
}

/// Puts `time` into `times`, which is in order, behind all that do not come
/// after it.
#[verifier::rlimit(50)]
fn insert_in_order(times: &mut Vec<String>, time: String)
    requires
        sorted_by(old(times).deep_view(), lex_order()),
    ensures
        sorted_by(final(times).deep_view(), lex_order()),
        final(times).deep_view().to_multiset() == old(times).deep_view().to_multiset().insert(
            time@,
        ),
{
    broadcast use vstd::seq_lib::to_multiset_insert;

    proof {
        lemma_lex_order_is_total();
    }
    let ghost before = times.deep_view();
    let mut at: usize = 0;
    while at < times.len() && text_le(times[at].as_str(), time.as_str())
        invariant
            at <= times.len(),
            times.deep_view() == before,
            forall|k: int| 0 <= k < at ==> lex_le(#[trigger] before[k], time@),
        decreases times.len() - at,
    {
        at += 1;
    }
    times.insert(at, time);
    proof {
        let after = times.deep_view();
        assert(after =~= before.insert(at as int, time@));
        let le = lex_order();
        assert forall|i: int, j: int| 0 <= i < j < after.len() implies #[trigger] le(
            after[i],
            after[j],
        ) by {
            if j < at {
                assert(le(before[i], before[j]));
            } else if j == at {
                assert(lex_le(before[i], time@));
            } else if i == at {
                assert(!lex_le(before[at as int], time@));
                assert(le(before[at as int], time@) || le(time@, before[at as int]));
                if j - 1 > at {
                    assert(le(before[at as int], before[j - 1]));
                }
                assert(le(time@, before[j - 1]));
            } else if i < at {
                assert(le(before[i], before[j - 1]));
            } else {
                assert(le(before[i - 1], before[j - 1]));
            }
        }
    }
}

/// Decides how to rename the archives that were cut off by size on `date`, so
/// that each is named by when its content begins and not by when it ends:
/// `names` are the entries of the log directory. Nothing is renamed where no
/// such archive is there, or where the earliest is at midnight already.
#[verifier::rlimit(50)]
pub fn normalize_plugin_archives(names: &Vec<String>, date: &str) -> (plan: NormalizePlan)
    ensures
        plan.renames.deep_view() == normalizing_renames(names.deep_view(), date@),
        plan.last_time.deep_view() == normalized_last_time(names.deep_view(), date@),
{
    let mut times: Vec<String> = Vec::new();
    let mut i: usize = 0;
    assert(names.deep_view().take(0) =~= Seq::<Seq<char>>::empty());
    assert(times.deep_view() =~= Seq::<Seq<char>>::empty());
    while i < names.len()
        invariant
            i <= names.len(),
            sorted_by(times.deep_view(), lex_order()),
            times.deep_view().to_multiset() == size_archive_times(
                names.deep_view().take(i as int),
                date@,
            ).to_multiset(),
        decreases names.len() - i,
    {
        let ghost seen = size_archive_times(names.deep_view().take(i as int), date@);
        proof {
            let next = names.deep_view().take(i + 1);
            assert(next.drop_last() =~= names.deep_view().take(i as int));
            assert(next.last() == names[i as int]@);
            assert(size_archive_times(next, date@) == match size_archive_time_of(
                names[i as int]@,
                date@,
            ) {
                Some(time) => seen.push(time),
                None => seen,
            });
        }
        match size_archive_time(names[i].as_str(), date) {
            Some(time) => {
                proof {
                    vstd::seq_lib::to_multiset_build(seen, time@);
                }
                insert_in_order(&mut times, time);
            },
            None => {},
        }
        i += 1;
    }
    proof {
        assert(names.deep_view().take(names.len() as int) =~= names.deep_view());
        lemma_lex_order_is_total();
        let found = size_archive_times(names.deep_view(), date@);
        found.lemma_sort_by_ensures(lex_order());
        lemma_sorted_unique(times.deep_view(), sorted_times(names.deep_view(), date@), lex_order());
    }
    let mut renames: Vec<FileOp> = Vec::new();
    if times.len() == 0 || same_text(times[0].as_str(), "00-00-00") {
        assert(renames.deep_view() =~= Seq::<FileOpModel>::empty());
        return NormalizePlan { renames, last_time: None };
    }
    let ghost sorted = times.deep_view();
    let mut k: usize = 0;
    while k < times.len()
        invariant
            k <= times.len(),
            sorted == times.deep_view(),
            renames.deep_view() == renames_of(date@, sorted).take(k as int),
        decreases times.len() - k,
    {
        let from = archive_name(date, Some(times[k].as_str()));
        let to = if k == 0 {
            archive_name(date, Some("00-00-00"))
        } else {
            archive_name(date, Some(times[k - 1].as_str()))
        };
        let ghost before = renames.deep_view();
        renames.push(FileOp::Rename { from, to });
        assert(renames.deep_view() =~= before.push(renames_of(date@, sorted)[k as int]));
        assert(renames_of(date@, sorted).take(k + 1) =~= renames_of(date@, sorted).take(
            k as int,
        ).push(renames_of(date@, sorted)[k as int]));
        k += 1;
    }
    assert(renames_of(date@, sorted).take(times.len() as int) =~= renames_of(date@, sorted));
    let last = times[times.len() - 1].clone();
    NormalizePlan { renames, last_time: Some(last) }
}

/// The sweep never takes the active log file for an archive.
pub proof fn lemma_log_file_is_no_archive()
    ensures
        archive_date_of(log_file_name_of()) is None,
        forall|today: Date| !is_expired_archive(log_file_name_of(), today),
{
    reveal_strlit("_");
    reveal_strlit(".log");
    let base = LOG_FILE_NAME@;
    let name = log_file_name_of();
    assert(archive_prefix()[base.len() as int] == '_');
    assert(name[base.len() as int] == '.');
    if archive_prefix().is_prefix_of(name) {
        assert(name.subrange(0, archive_prefix().len() as int)[base.len() as int] == '.');
    }
}

/// The archives that this library names are the ones that the sweep knows: the
/// archive of a date, without a time or with one of eight characters, is read
/// back as of that date, and is deleted just when that date is more than
/// `MAX_LOG_AGE_DAYS` days before today.
pub proof fn lemma_archive_is_swept_by_its_date(date: Date, time: Option<Seq<char>>, today: Date)
    requires
        date.wf(),
        time matches Some(t) ==> t.len() == 8,
    ensures
        archive_date_of(archive_name_of(date.text(), time)) == Some(date),
        is_expired_archive(archive_name_of(date.text(), time), today) <==> today.day_number()
            - date.day_number() > MAX_LOG_AGE_DAYS,
{
    reveal_strlit("_");
    let name = archive_name_of(date.text(), time);
    let stem = match time {
        Some(t) => date.text() + "_"@ + t,
        None => date.text(),
    };
    assert(name =~= archive_prefix() + (stem + log_suffix()));
    assert(name.subrange(0, archive_prefix().len() as int) =~= archive_prefix());
    let rest = name.skip(archive_prefix().len() as int);
    assert(rest =~= stem + log_suffix());
    assert(date.text().len() == 10);
    assert(rest.subrange(rest.len() - log_suffix().len(), rest.len() as int) =~= log_suffix());
    assert(rest.take(rest.len() - log_suffix().len()) =~= stem);
    assert(rest.take(10) =~= date.text());
    crate::date::lemma_format_then_parse(date);
}

} // verus!
