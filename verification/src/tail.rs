//! The last date that a log file records, read from its tail.
//!
//! The host reads the file from `tail_start` of its length to its end and hands
//! the bytes over. Where the read began inside the file, what stands before the
//! first line break is the rest of a line and is passed over; it may begin in
//! the middle of a character of more than one byte, and nothing else is lost
//! by that.
//!
//! A date is ten ASCII characters, so the first ten characters of a line spell
//! a date just where its first ten bytes do.

use vstd::prelude::*;
use crate::date::{iso_date, Date};

verus! {

/// How many bytes of a log file's end are read to find its last date.
pub const TAIL_READ_SIZE: u64 = 4096;

/// The byte that breaks a line.
pub const LINE_BREAK: u8 = 10;

/// Where in a file of `len` bytes the tail begins.
pub open spec fn tail_start_of(len: int) -> int {
    if len > TAIL_READ_SIZE {
        len - TAIL_READ_SIZE
    } else {
        0
    }
}

/// Where to start reading a file of `len` bytes: `TAIL_READ_SIZE` before its
/// end, or at its start where it is shorter.
pub fn tail_start(len: u64) -> (start: u64)
    ensures
        start == tail_start_of(len as int),
        start <= len,
        len - start <= TAIL_READ_SIZE,
{
    if len > TAIL_READ_SIZE {
        len - TAIL_READ_SIZE
    } else {
        0
    }
}

/// Each byte taken for the character of its number. A byte of ASCII is the
/// character that it encodes; no other byte is taken for a digit or a hyphen.
pub open spec fn as_chars(bytes: Seq<u8>) -> Seq<char> {
    Seq::new(bytes.len(), |k: int| bytes[k] as char)
}

/// Whether a line begins at `i`: behind a line break, or at the very start of
/// bytes that are read `from_start`.
pub open spec fn is_line_start(t: Seq<u8>, i: int, from_start: bool) -> bool {
    0 <= i <= t.len() && if i == 0 {
        from_start
    } else {
        t[i - 1] == LINE_BREAK
    }
}

/// The date that the ten bytes from `i` on spell, if there are ten and they
/// spell one.
pub open spec fn date_at(t: Seq<u8>, i: int) -> Option<Date> {
    if 0 <= i && i + 10 <= t.len() {
        iso_date(as_chars(t.subrange(i, i + 10)))
    } else {
        None
    }
}

/// Whether a line that begins with a date begins at `i`.
pub open spec fn is_dated_line(t: Seq<u8>, i: int, from_start: bool) -> bool {
    is_line_start(t, i, from_start) && date_at(t, i) is Some
}

/// Where the last dated line that begins before `end` begins.
pub open spec fn last_dated_line_before(t: Seq<u8>, from_start: bool, end: int) -> Option<int>
    decreases end,
{
    if end <= 0 {
        None
    } else if is_dated_line(t, end - 1, from_start) {
        Some(end - 1)
    } else {
        last_dated_line_before(t, from_start, end - 1)
    }
}

/// Where the last dated line of `t` begins.
pub open spec fn last_dated_line(t: Seq<u8>, from_start: bool) -> Option<int> {
    last_dated_line_before(t, from_start, t.len() as int)
}

/// The date of the last line of `t` that begins with one.
pub open spec fn last_date(t: Seq<u8>, from_start: bool) -> Option<Date> {
    match last_dated_line(t, from_start) {
        Some(i) => date_at(t, i),
        None => None,
    }
}

/// The date that the ten bytes of `tail` from `at` on spell.
fn date_in(tail: &[u8], at: usize) -> (r: Option<Date>)
    requires
        at + 10 <= tail@.len(),
    ensures
        r == date_at(tail@, at as int),
        r matches Some(d) ==> d.wf(),
{
    let n = tail.len();
    let mut head = String::new();
    let mut k: usize = 0;
    while k < 10
        invariant
            k <= 10,
            n == tail@.len(),
            at + 10 <= n,
            head@ == as_chars(tail@.subrange(at as int, at + k)),
        decreases 10 - k,
    {
        head.push(tail[at + k] as char);
        assert(head@ =~= as_chars(tail@.subrange(at as int, at + k + 1)));
        k += 1;
    }
    Date::parse(head.as_str())
}

/// The date of the last line of `tail` whose first ten characters are a date,
/// where `tail` is what a file holds from byte `start` on. Lines without a date
/// (the further lines of a stack trace) are passed over; so is what stands
/// before the first line break where `start` is not 0.
pub fn last_log_date(start: u64, tail: &[u8]) -> (r: Option<Date>)
    ensures
        r == last_date(tail@, start == 0),
        r matches Some(d) ==> d.wf(),
{
    let n = tail.len();
    let from_start = start == 0;
    let mut i: usize = n;
    while i > 0
        invariant
            i <= n,
            n == tail@.len(),
            from_start == (start == 0),
            last_dated_line(tail@, from_start) == last_dated_line_before(
                tail@,
                from_start,
                i as int,
            ),
        decreases i,
    {
        i -= 1;
        let begins = if i == 0 {
            from_start
        } else {
            tail[i - 1] == LINE_BREAK
        };
        if begins && n - i >= 10 {
            let date = date_in(tail, i);
            if date.is_some() {
                return date;
            }
        }
    }
    None
}

proof fn lemma_scan(t: Seq<u8>, from_start: bool, end: int)
    ensures
        match last_dated_line_before(t, from_start, end) {
            Some(i) => 0 <= i < end && is_dated_line(t, i, from_start) && forall|j: int|
                i < j < end ==> !is_dated_line(t, j, from_start),
            None => forall|j: int| 0 <= j < end ==> !is_dated_line(t, j, from_start),
        },
    decreases end,
{
    if end > 0 && !is_dated_line(t, end - 1, from_start) {
        lemma_scan(t, from_start, end - 1);
    }
}

/// What `last_dated_line` finds is a dated line, and the last one there is.
pub proof fn lemma_last_dated_line(t: Seq<u8>, from_start: bool)
    ensures
        match last_dated_line(t, from_start) {
            Some(i) => is_dated_line(t, i, from_start) && forall|j: int|
                i < j ==> !is_dated_line(t, j, from_start),
            None => forall|j: int| !is_dated_line(t, j, from_start),
        },
{
    lemma_scan(t, from_start, t.len() as int);
}

/// A line that begins with a date, with no such line after it, decides: its
/// date is the one found, whatever lines without a date follow it.
pub proof fn lemma_last_dated_line_decides(t: Seq<u8>, from_start: bool, i: int)
    requires
        is_dated_line(t, i, from_start),
        forall|j: int| i < j ==> !is_dated_line(t, j, from_start),
    ensures
        last_dated_line(t, from_start) == Some(i),
        last_date(t, from_start) == date_at(t, i),
{
    lemma_last_dated_line(t, from_start);
}

/// Reading from `cut` on finds what reading the whole finds, where the last
/// dated line of the whole begins behind the cut (or there is none): what
/// stands before the first line break behind the cut is passed over.
pub proof fn lemma_cut_agrees_with_whole(whole: Seq<u8>, cut: int)
    requires
        0 < cut <= whole.len(),
        last_dated_line(whole, true) matches Some(i) ==> cut < i,
    ensures
        last_date(whole.skip(cut), false) == last_date(whole, true),
{
    let tail = whole.skip(cut);
    lemma_last_dated_line(whole, true);
    assert forall|j: int| is_dated_line(tail, j, false) == (j > 0 && is_dated_line(
        whole,
        cut + j,
        true,
    )) by {
        if 0 < j && j + 10 <= tail.len() {
            assert(tail.subrange(j, j + 10) =~= whole.subrange(cut + j, cut + j + 10));
        }
    }
    match last_dated_line(whole, true) {
        Some(i) => {
            assert(tail.subrange(i - cut, i - cut + 10) =~= whole.subrange(i, i + 10));
            assert(is_dated_line(tail, i - cut, false));
            assert forall|j: int| i - cut < j implies !is_dated_line(tail, j, false) by {
                assert(!is_dated_line(whole, cut + j, true));
            }
            lemma_last_dated_line_decides(tail, false, i - cut);
        },
        None => {
            lemma_last_dated_line(tail, false);
            if last_dated_line(tail, false) is Some {
                let j = last_dated_line(tail, false)->0;
                assert(is_dated_line(whole, cut + j, true));
            }
        },
    }
}

/// The tail of a file tells what the whole file tells: for every file, of
/// whatever bytes, whose last dated line begins behind the start of the tail,
/// or that has no dated line, or that is no longer than a tail, the date found
/// in the bytes from `tail_start` on is the date found in all of them.
pub proof fn lemma_tail_agrees_with_whole(whole: Seq<u8>)
    requires
        last_dated_line(whole, true) matches Some(i) ==> tail_start_of(whole.len() as int) == 0
            || tail_start_of(whole.len() as int) < i,
    ensures
        last_date(
            whole.skip(tail_start_of(whole.len() as int)),
            tail_start_of(whole.len() as int) == 0,
        ) == last_date(whole, true),
{
    let cut = tail_start_of(whole.len() as int);
    if cut == 0 {
        assert(whole.skip(0) =~= whole);
    } else {
        lemma_cut_agrees_with_whole(whole, cut);
    }
}

/// The date that is found is a day of the calendar.
pub proof fn lemma_last_date_is_of_the_calendar(t: Seq<u8>, from_start: bool)
    ensures
        last_date(t, from_start) matches Some(date) ==> date.wf(),
{
    lemma_last_dated_line(t, from_start);
    if last_dated_line(t, from_start) is Some {
        let i = last_dated_line(t, from_start)->0;
        crate::date::lemma_parse_then_format(as_chars(t.subrange(i, i + 10)));
    }
}

} // verus!
