//! What normalizing does to a log directory: laws over the directory as
//! `host::perform` models it.

use vstd::prelude::*;
use vstd::relations::sorted_by;
use crate::archive::{
    archive_name_of, archive_prefix, log_file_name_of, log_suffix, midnight, needs_normalizing,
    normalized_last_time, normalizing_renames, renames_of, size_archive_time_of,
    size_archive_times, sorted_times, LOG_FILE_NAME,
};
use crate::host::{is_listing, perform, perform_all, FileOpModel};
use crate::text::{lemma_lex_order_is_total, lex_le, lex_order};

verus! {

/// The name of the archive of `date` that carries `time`.
pub open spec fn timed_name(date: Seq<char>, time: Seq<char>) -> Seq<char> {
    archive_name_of(date, Some(time))
}

/// A name is read back as the time that it was built with, if that has eight
/// characters.
pub proof fn lemma_time_of_timed_name(date: Seq<char>, time: Seq<char>)
    ensures
        size_archive_time_of(timed_name(date, time), date) == if time.len() == 8 {
            Some(time)
        } else {
            None
        },
{
    let prefix = archive_prefix() + date + "_"@;
    let name = timed_name(date, time);
    assert(name =~= prefix + (time + log_suffix()));
    assert(name.subrange(0, prefix.len() as int) =~= prefix);
    let rest = name.skip(prefix.len() as int);
    assert(rest =~= time + log_suffix());
    assert(rest.subrange(rest.len() - log_suffix().len(), rest.len() as int) =~= log_suffix());
    if time.len() == 8 {
        assert(rest.take(8) =~= time);
    }
}

/// A name that is read as a time is the name built with that time.
pub proof fn lemma_timed_name_of_time(name: Seq<char>, date: Seq<char>)
    requires
        size_archive_time_of(name, date) is Some,
    ensures
        name == timed_name(date, size_archive_time_of(name, date)->0),
        size_archive_time_of(name, date)->0.len() == 8,
{
    let prefix = archive_prefix() + date + "_"@;
    let rest = name.skip(prefix.len() as int);
    let time = rest.take(8);
    assert(name =~= prefix + rest);
    assert(rest =~= time + rest.subrange(rest.len() - log_suffix().len(), rest.len() as int));
    assert(name =~= timed_name(date, time));
}

/// Two times give two names.
pub proof fn lemma_timed_names_differ(date: Seq<char>, a: Seq<char>, b: Seq<char>)
    requires
        timed_name(date, a) == timed_name(date, b),
    ensures
        a == b,
{
    let prefix = archive_prefix() + date + "_"@;
    let x = timed_name(date, a);
    let y = timed_name(date, b);
    assert(x =~= prefix + (a + log_suffix()));
    assert(y =~= prefix + (b + log_suffix()));
    assert(a.len() == b.len());
    assert(a =~= x.subrange(prefix.len() as int, (prefix.len() + a.len()) as int));
    assert(b =~= y.subrange(prefix.len() as int, (prefix.len() + b.len()) as int));
}

/// The times found among `names` are those of eight characters whose name is
/// among `names`.
#[verifier::rlimit(50)]
pub proof fn lemma_times_found(names: Seq<Seq<char>>, date: Seq<char>, time: Seq<char>)
    ensures
        size_archive_times(names, date).contains(time) <==> time.len() == 8 && names.contains(
            timed_name(date, time),
        ),
    decreases names.len(),
{
    if names.len() > 0 {
        let before = names.drop_last();
        let found = size_archive_times(before, date);
        lemma_times_found(before, date, time);
        lemma_time_of_timed_name(date, time);
        if size_archive_time_of(names.last(), date) is Some {
            lemma_timed_name_of_time(names.last(), date);
            let t = size_archive_time_of(names.last(), date)->0;
            assert(found.push(t).last() == t);
            if found.push(t).contains(time) {
                let i = choose|i: int| 0 <= i < found.push(t).len() && found.push(t)[i] == time;
                if i < found.len() {
                    assert(found[i] == time);
                }
            }
            if found.contains(time) {
                let i = choose|i: int| 0 <= i < found.len() && found[i] == time;
                assert(found.push(t)[i] == time);
            }
        }
        if names.contains(timed_name(date, time)) {
            let i = choose|i: int| 0 <= i < names.len() && names[i] == timed_name(date, time);
            if i < before.len() {
                assert(before[i] == timed_name(date, time));
            }
        }
        if before.contains(timed_name(date, time)) {
            let i = choose|i: int| 0 <= i < before.len() && before[i] == timed_name(date, time);
            assert(names[i] == timed_name(date, time));
        }
        assert(names.last() == names[names.len() - 1]);
    }
}

/// Names that are all different hold times that are all different.
#[verifier::rlimit(50)]
pub proof fn lemma_times_differ(names: Seq<Seq<char>>, date: Seq<char>)
    requires
        names.no_duplicates(),
    ensures
        size_archive_times(names, date).no_duplicates(),
    decreases names.len(),
{
    if names.len() > 0 {
        let before = names.drop_last();
        let found = size_archive_times(before, date);
        lemma_times_differ(before, date);
        if size_archive_time_of(names.last(), date) is Some {
            let t = size_archive_time_of(names.last(), date)->0;
            lemma_timed_name_of_time(names.last(), date);
            lemma_times_found(before, date, t);
            if found.contains(t) {
                let i = choose|i: int| 0 <= i < before.len() && before[i] == timed_name(date, t);
                assert(names[i] == names[names.len() - 1]);
            }
            assert forall|i: int, j: int|
                0 <= i < found.push(t).len() && 0 <= j < found.push(t).len() && i != j implies found.push(
                t,
            )[i] != found.push(t)[j] by {
                if i < found.len() && j < found.len() {
                } else if i < found.len() {
                    assert(found.contains(found[i]));
                } else {
                    assert(found.contains(found[j]));
                }
            }
        }
    }
}

/// The times of a listing, earliest first: in order, each once, and those of
/// eight characters whose name is listed.
pub proof fn lemma_sorted_times(names: Seq<Seq<char>>, date: Seq<char>)
    requires
        names.no_duplicates(),
    ensures
        sorted_by(sorted_times(names, date), lex_order()),
        sorted_times(names, date).no_duplicates(),
        forall|time: Seq<char>|
            #![trigger sorted_times(names, date).contains(time)]
            sorted_times(names, date).contains(time) <==> time.len() == 8 && names.contains(
                timed_name(date, time),
            ),
{
    broadcast use vstd::seq_lib::to_multiset_contains;

    let found = size_archive_times(names, date);
    let sorted = sorted_times(names, date);
    lemma_lex_order_is_total();
    found.lemma_sort_by_ensures(lex_order());
    lemma_times_differ(names, date);
    found.lemma_multiset_has_no_duplicates();
    sorted.lemma_multiset_has_no_duplicates_conv();
    assert forall|time: Seq<char>|
        #![trigger sorted.contains(time)]
        sorted.contains(time) <==> time.len() == 8 && names.contains(timed_name(date, time)) by {
        lemma_times_found(names, date, time);
        assert(sorted.contains(time) <==> sorted.to_multiset().count(time) > 0);
        assert(found.contains(time) <==> found.to_multiset().count(time) > 0);
    }
}

/// The active log file is no archive with a time: no rename of a
/// normalization takes it or replaces it.
pub proof fn lemma_log_file_is_not_timed(date: Seq<char>, time: Seq<char>)
    ensures
        log_file_name_of() != timed_name(date, time),
        log_file_name_of() != archive_name_of(date, None),
{
    reveal_strlit("_");
    reveal_strlit(".log");
    let base = LOG_FILE_NAME@;
    let at = base.len() as int;
    assert(log_file_name_of()[at] == '.');
    assert(timed_name(date, time)[at] == '_');
    assert(archive_name_of(date, None)[at] == '_');
}

/// The time that the `i`-th archive of a day takes when the archives are put
/// in order: midnight for the first, else the time of the one before it.
pub open spec fn earlier(times: Seq<Seq<char>>, i: int) -> Seq<char> {
    if i == 0 {
        midnight()
    } else {
        times[i - 1]
    }
}

/// Whether `name` is one that the renames for `times` take from or give.
pub open spec fn is_touched(date: Seq<char>, times: Seq<Seq<char>>, name: Seq<char>) -> bool {
    name == timed_name(date, midnight()) || exists|i: int|
        0 <= i < times.len() && name == timed_name(date, #[trigger] times[i])
}

/// Whether `name` is in `after` what it was in `dir`.
pub open spec fn is_kept(
    dir: Map<Seq<char>, Seq<char>>,
    after: Map<Seq<char>, Seq<char>>,
    name: Seq<char>,
) -> bool {
    after.dom().contains(name) == dir.dom().contains(name) && (dir.dom().contains(name)
        ==> after[name] == dir[name])
}

/// Whether `after` holds under the name `to` what `dir` held under `from`.
pub open spec fn is_moved(
    dir: Map<Seq<char>, Seq<char>>,
    after: Map<Seq<char>, Seq<char>>,
    from: Seq<char>,
    to: Seq<char>,
) -> bool {
    after.dom().contains(to) && after[to] == dir[from]
}

/// What the first `k` renames for `times` make of `dir`.
pub open spec fn after_renames(
    dir: Map<Seq<char>, Seq<char>>,
    date: Seq<char>,
    times: Seq<Seq<char>>,
    k: int,
) -> Map<Seq<char>, Seq<char>> {
    perform_all(dir, renames_of(date, times).take(k))
}

/// Whether the archives with these times are all there, each once, and none
/// at midnight.
pub open spec fn are_size_archives(
    dir: Map<Seq<char>, Seq<char>>,
    date: Seq<char>,
    times: Seq<Seq<char>>,
) -> bool {
    &&& times.no_duplicates()
    &&& !times.contains(midnight())
    &&& !dir.dom().contains(timed_name(date, midnight()))
    &&& forall|i: int|
        0 <= i < times.len() ==> dir.dom().contains(timed_name(date, #[trigger] times[i]))
}

#[verifier::rlimit(50)]
proof fn lemma_after_renames(
    dir: Map<Seq<char>, Seq<char>>,
    date: Seq<char>,
    times: Seq<Seq<char>>,
    k: int,
)
    requires
        0 <= k <= times.len(),
        are_size_archives(dir, date, times),
    ensures
        k == 0 ==> after_renames(dir, date, times, k) == dir,
        forall|i: int|
            0 <= i < k ==> is_moved(
                dir,
                after_renames(dir, date, times, k),
                timed_name(date, #[trigger] times[i]),
                timed_name(date, earlier(times, i)),
            ),
        k >= 1 ==> !after_renames(dir, date, times, k).dom().contains(
            timed_name(date, times[k - 1]),
        ),
        k < times.len() ==> !after_renames(dir, date, times, k).dom().contains(
            timed_name(date, earlier(times, k)),
        ),
        forall|i: int|
            k <= i < times.len() ==> is_kept(
                dir,
                after_renames(dir, date, times, k),
                timed_name(date, #[trigger] times[i]),
            ),
        forall|name: Seq<char>|
            !is_touched(date, times, name) ==> #[trigger] is_kept(
                dir,
                after_renames(dir, date, times, k),
                name,
            ),
    decreases k,
{
    let ops = renames_of(date, times);
    if k == 0 {
        assert(ops.take(0) =~= Seq::<FileOpModel>::empty());
    } else {
        lemma_after_renames(dir, date, times, k - 1);
        let before = after_renames(dir, date, times, k - 1);
        let after = after_renames(dir, date, times, k);
        assert(ops.take(k).drop_last() =~= ops.take(k - 1));
        assert(ops.take(k).last() == ops[k - 1]);
        let from = timed_name(date, times[k - 1]);
        let to = timed_name(date, earlier(times, k - 1));
        assert(ops[k - 1] == FileOpModel::Rename { from, to });
        assert(is_kept(dir, before, timed_name(date, times[k - 1])));
        assert(before.dom().contains(from));
        assert(after == before.remove(from).insert(to, before[from]));
        assert(earlier(times, k - 1) != times[k - 1]) by {
            if k - 1 > 0 {
                assert(times[k - 2] != times[k - 1]);
            } else {
                assert(times.contains(times[0]));
            }
        }
        assert(to != from) by {
            if to == from {
                lemma_timed_names_differ(date, earlier(times, k - 1), times[k - 1]);
            }
        }
        assert forall|i: int| 0 <= i < k implies is_moved(
            dir,
            after,
            timed_name(date, #[trigger] times[i]),
            timed_name(date, earlier(times, i)),
        ) by {
            if i < k - 1 {
                let moved_to = timed_name(date, earlier(times, i));
                assert(is_moved(dir, before, timed_name(date, times[i]), moved_to));
                assert(earlier(times, i) != times[k - 1]) by {
                    if i > 0 {
                        assert(times[i - 1] != times[k - 1]);
                    } else {
                        assert(times.contains(times[k - 1]));
                    }
                }
                assert(earlier(times, i) != earlier(times, k - 1)) by {
                    if i > 0 {
                        assert(times[i - 1] != times[k - 2]);
                    } else {
                        assert(times.contains(times[k - 2]));
                    }
                }
                if moved_to == from {
                    lemma_timed_names_differ(date, earlier(times, i), times[k - 1]);
                }
                if moved_to == to {
                    lemma_timed_names_differ(date, earlier(times, i), earlier(times, k - 1));
                }
            }
        }
        assert forall|i: int| k <= i < times.len() implies is_kept(
            dir,
            after,
            timed_name(date, #[trigger] times[i]),
        ) by {
            let name = timed_name(date, times[i]);
            assert(is_kept(dir, before, name));
            assert(times[i] != times[k - 1]);
            assert(times[i] != earlier(times, k - 1)) by {
                if k - 1 > 0 {
                    assert(times[i] != times[k - 2]);
                } else {
                    assert(times.contains(times[i]));
                }
            }
            if name == from {
                lemma_timed_names_differ(date, times[i], times[k - 1]);
            }
            if name == to {
                lemma_timed_names_differ(date, times[i], earlier(times, k - 1));
            }
        }
        assert forall|name: Seq<char>| !is_touched(date, times, name) implies #[trigger] is_kept(
            dir,
            after,
            name,
        ) by {
            assert(is_kept(dir, before, name));
            assert(is_touched(date, times, from));
            assert(is_touched(date, times, to)) by {
                if k - 1 > 0 {
                    assert(to == timed_name(date, times[k - 2]));
                }
            }
        }
    }
}

proof fn lemma_midnight_has_eight_characters()
    ensures
        midnight().len() == 8,
{
    reveal_strlit("00-00-00");
}

proof fn lemma_midnight_comes_first(times: Seq<Seq<char>>)
    requires
        sorted_by(times, lex_order()),
        times.contains(midnight()),
        forall|time: Seq<char>| #[trigger] times.contains(time) ==> lex_le(midnight(), time),
    ensures
        !needs_normalizing(times),
{
    lemma_lex_order_is_total();
    let le = lex_order();
    let i = choose|i: int| 0 <= i < times.len() && times[i] == midnight();
    assert(times.contains(times[0]));
    assert(le(midnight(), times[0]));
    if i > 0 {
        assert(le(times[0], times[i]));
    }
    assert(le(times[0], midnight()) && le(midnight(), times[0]) ==> times[0] == midnight());
}

/// No rename of a normalization replaces a file: the name that the `k`-th
/// rename gives is free once the renames before it are done. This holds
/// wherever no archive of the day is at midnight yet.
pub proof fn lemma_no_rename_replaces_a_file(
    dir: Map<Seq<char>, Seq<char>>,
    names: Seq<Seq<char>>,
    date: Seq<char>,
    k: int,
)
    requires
        is_listing(names, dir),
        !dir.dom().contains(timed_name(date, midnight())),
        0 <= k < normalizing_renames(names, date).len(),
    ensures
        normalizing_renames(names, date)[k] matches FileOpModel::Rename { from, to }
            && perform_all(dir, normalizing_renames(names, date).take(k)).dom().contains(from)
            && !perform_all(dir, normalizing_renames(names, date).take(k)).dom().contains(to),
{
    let times = sorted_times(names, date);
    lemma_sorted_times(names, date);
    lemma_midnight_has_eight_characters();
    assert(!times.contains(midnight()));
    assert forall|i: int| 0 <= i < times.len() implies dir.dom().contains(
        timed_name(date, #[trigger] times[i]),
    ) by {
        assert(times.contains(times[i]));
    }
    lemma_after_renames(dir, date, times, k);
    assert(is_kept(dir, after_renames(dir, date, times, k), timed_name(date, times[k])));
}

/// Normalizing hands each archive's content on to the name of the archive
/// before it, the first one's to midnight; the name of the last falls free,
/// and no other file is touched. This holds wherever no archive of the day is
/// at midnight yet (else the first rename would replace it).
#[verifier::rlimit(50)]
pub proof fn lemma_normalizing_shifts_each_archive(
    dir: Map<Seq<char>, Seq<char>>,
    names: Seq<Seq<char>>,
    date: Seq<char>,
)
    requires
        is_listing(names, dir),
        !dir.dom().contains(timed_name(date, midnight())),
    ensures
        ({
            let times = sorted_times(names, date);
            let after = perform_all(dir, normalizing_renames(names, date));
            &&& normalized_last_time(names, date) == if times.len() > 0 {
                Some(times.last())
            } else {
                None
            }
            &&& forall|i: int|
                0 <= i < times.len() ==> is_moved(
                    dir,
                    after,
                    timed_name(date, #[trigger] times[i]),
                    timed_name(date, earlier(times, i)),
                )
            &&& times.len() > 0 ==> !after.dom().contains(timed_name(date, times.last()))
            &&& forall|name: Seq<char>|
                !is_touched(date, times, name) ==> #[trigger] is_kept(dir, after, name)
        }),
{
    let times = sorted_times(names, date);
    lemma_sorted_times(names, date);
    lemma_midnight_has_eight_characters();
    assert(!times.contains(midnight()));
    if times.len() > 0 {
        assert(times.contains(times[0]));
        assert forall|i: int| 0 <= i < times.len() implies dir.dom().contains(
            timed_name(date, #[trigger] times[i]),
        ) by {
            assert(times.contains(times[i]));
        }
        assert(renames_of(date, times).take(times.len() as int) =~= renames_of(date, times));
        lemma_after_renames(dir, date, times, times.len() as int);
    }
}

/// Normalizing a second time renames nothing: the archives are in order, and
/// the directory stays as the first time left it, whatever the order in which
/// the names are listed.
///
/// This is stated for the directories in which the time of each archive of the
/// day is one that a clock shows, so that none comes before midnight: of two or
/// more archives, the earliest must not sort before `00-00-00`.
#[verifier::rlimit(50)]
pub proof fn lemma_normalizing_twice_is_normalizing_once(
    dir: Map<Seq<char>, Seq<char>>,
    names: Seq<Seq<char>>,
    date: Seq<char>,
    names_after: Seq<Seq<char>>,
)
    requires
        is_listing(names, dir),
        is_listing(names_after, perform_all(dir, normalizing_renames(names, date))),
        sorted_times(names, date).len() >= 2 ==> lex_le(midnight(), sorted_times(names, date)[0]),
    ensures
        normalizing_renames(names_after, date) == Seq::<FileOpModel>::empty(),
        normalized_last_time(names_after, date) is None,
        perform_all(
            perform_all(dir, normalizing_renames(names, date)),
            normalizing_renames(names_after, date),
        ) == perform_all(dir, normalizing_renames(names, date)),
{
    let times = sorted_times(names, date);
    let once = perform_all(dir, normalizing_renames(names, date));
    let again = sorted_times(names_after, date);
    let le = lex_order();
    lemma_sorted_times(names, date);
    lemma_sorted_times(names_after, date);
    lemma_midnight_has_eight_characters();
    lemma_lex_order_is_total();
    if !needs_normalizing(times) {
        assert(once == dir);
        if again.len() > 0 {
            assert(again.contains(again[0]));
            assert(times.contains(again[0]));
            assert(times[0] == midnight());
            assert(times.contains(midnight()));
            assert(again.contains(midnight()));
            assert forall|time: Seq<char>| #[trigger] again.contains(time) implies lex_le(
                midnight(),
                time,
            ) by {
                assert(times.contains(time));
                let i = choose|i: int| 0 <= i < times.len() && times[i] == time;
                if i > 0 {
                    assert(le(times[0], times[i]));
                } else {
                    assert(le(midnight(), midnight()));
                }
            }
            lemma_midnight_comes_first(again);
        }
    } else {
        assert(times.contains(times[0]));
        assert(!times.contains(midnight())) by {
            if times.contains(midnight()) {
                let i = choose|i: int| 0 <= i < times.len() && times[i] == midnight();
                assert(i > 0);
                assert(le(times[0], times[i]));
                assert(le(midnight(), times[0]));
            }
        }
        assert forall|i: int| 0 <= i < times.len() implies dir.dom().contains(
            timed_name(date, #[trigger] times[i]),
        ) by {
            assert(times.contains(times[i]));
        }
        let n = times.len() as int;
        assert(renames_of(date, times).take(n) =~= renames_of(date, times));
        lemma_after_renames(dir, date, times, n);
        assert(once == after_renames(dir, date, times, n));
        assert(is_moved(dir, once, timed_name(date, times[0]), timed_name(date, earlier(times, 0))));
        assert(again.contains(midnight()));
        assert forall|time: Seq<char>| #[trigger] again.contains(time) implies lex_le(
            midnight(),
            time,
        ) by {
            let name = timed_name(date, time);
            assert(once.dom().contains(name));
            if name == timed_name(date, midnight()) {
                lemma_timed_names_differ(date, time, midnight());
                assert(le(midnight(), midnight()));
            } else if is_touched(date, times, name) {
                let i = choose|i: int|
                    0 <= i < times.len() && name == timed_name(date, #[trigger] times[i]);
                lemma_timed_names_differ(date, time, times[i]);
                if n >= 2 {
                    if i > 0 {
                        assert(le(times[0], times[i]));
                    }
                    assert(le(midnight(), times[0]));
                } else {
                    assert(i == n - 1);
                }
            } else {
                assert(is_kept(dir, once, name));
                assert(times.contains(time));
                let i = choose|i: int| 0 <= i < times.len() && times[i] == time;
                assert(name == timed_name(date, times[i]));
            }
        }
        lemma_midnight_comes_first(again);
    }
    assert(normalizing_renames(names_after, date) =~= Seq::<FileOpModel>::empty());
}

} // verus!
