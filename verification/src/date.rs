//! Calendar dates, as log lines and archive names carry them.

use vstd::prelude::*;
use crate::text::{digit, digit_char, digit_value, four_digits, is_digit, two_digits};

verus! {

/// Whether `year` has a 29th of February.
pub open spec fn is_leap_year(year: int) -> bool {
    year % 4 == 0 && (year % 100 != 0 || year % 400 == 0)
}

/// The number of days of `month` in `year`; 0 where `month` is none.
pub open spec fn days_in_month(year: int, month: int) -> int {
    if month == 2 {
        if is_leap_year(year) {
            29
        } else {
            28
        }
    } else if month == 4 || month == 6 || month == 9 || month == 11 {
        30
    } else if 1 <= month <= 12 {
        31
    } else {
        0
    }
}

/// Whether year, month and day name a day of the calendar that four digits of
/// year can write.
pub open spec fn is_calendar_date(year: int, month: int, day: int) -> bool {
    &&& 0 <= year <= 9999
    &&& 1 <= month <= 12
    &&& 1 <= day <= days_in_month(year, month)
}

/// The days of `year` that lie before the first of `month`.
pub open spec fn days_before_month(year: int, month: int) -> int
    decreases month,
{
    if month <= 1 {
        0
    } else {
        days_before_month(year, month - 1) + days_in_month(year, month - 1)
    }
}

/// The days from the first of January of the year 0 to the first of January of
/// `year`, for a year that is not negative.
pub open spec fn days_before_year(year: int) -> int {
    365 * year + (year + 3) / 4 - (year + 99) / 100 + (year + 399) / 400
}

/// A day of the proleptic Gregorian calendar, in the years 0 to 9999.
#[derive(Clone, Copy, Debug, PartialEq, Eq, Structural)]
pub struct Date {
    pub year: i32,
    pub month: u8,
    pub day: u8,
}

/// Whether `s` has the shape `dddd-dd-dd`.
pub open spec fn has_date_shape(s: Seq<char>) -> bool {
    &&& s.len() == 10
    &&& is_digit(s[0])
    &&& is_digit(s[1])
    &&& is_digit(s[2])
    &&& is_digit(s[3])
    &&& s[4] == '-'
    &&& is_digit(s[5])
    &&& is_digit(s[6])
    &&& s[7] == '-'
    &&& is_digit(s[8])
    &&& is_digit(s[9])
}

/// The date that the ten characters `YYYY-MM-DD` spell, if they spell one.
pub open spec fn iso_date(s: Seq<char>) -> Option<Date> {
    if has_date_shape(s) {
        let year = digit_value(s[0]) * 1000 + digit_value(s[1]) * 100 + digit_value(s[2]) * 10
            + digit_value(s[3]);
        let month = digit_value(s[5]) * 10 + digit_value(s[6]);
        let day = digit_value(s[8]) * 10 + digit_value(s[9]);
        if is_calendar_date(year, month, day) {
            Some(Date { year: year as i32, month: month as u8, day: day as u8 })
        } else {
            None
        }
    } else {
        None
    }
}

/// The format description that spells a date as `YYYY-MM-DD`.
pub open spec fn iso_date_description() -> Seq<char> {
    "[year]-[month]-[day]"@
}

/// `time::Date::parse`, with the format description that
/// `time::format_description::parse_borrowed` makes of `description`.
///
/// Trusted: with the description `[year]-[month]-[day]`, a text of ten
/// characters is accepted just where it is four digits, a hyphen, two digits, a
/// hyphen and two digits, and these name a day of the calendar; that day is
/// returned. (The parser reads bytes and takes ASCII digits only; each number
/// must be padded with zeros to its full width; a sign before the year, which
/// it would take, leaves no room for the rest in ten characters; and what is
/// left over behind the day is an error.)
#[verifier::external_body]
fn parse_calendar_date(text: &str, description: &str) -> (r: Option<Date>)
    requires
        text@.len() == 10,
        description@ == iso_date_description(),
    ensures
        r == iso_date(text@),
{
    let items = time::format_description::parse_borrowed::<1>(description).ok()?;
    let date = time::Date::parse(text, &items).ok()?;
    Some(Date { year: date.year(), month: u8::from(date.month()), day: date.day() })
}

/// The difference of two `time::Date`s, in `whole_days`; the two are made by
/// `time::Date::from_calendar_date`.
///
/// Trusted: the difference is the number of days of the proleptic Gregorian
/// calendar from `earlier` to `later`, negative where `later` comes first. (A
/// date that is well-formed here is one that `time` accepts, so that nothing is
/// unwrapped in vain.)
#[verifier::external_body]
fn calendar_days_between(later: Date, earlier: Date) -> (r: i64)
    requires
        later.wf(),
        earlier.wf(),
    ensures
        r == later.day_number() - earlier.day_number(),
{
    let to = time::Month::try_from(later.month).unwrap();
    let from = time::Month::try_from(earlier.month).unwrap();
    let later = time::Date::from_calendar_date(later.year, to, later.day).unwrap();
    let earlier = time::Date::from_calendar_date(earlier.year, from, earlier.day).unwrap();
    (later - earlier).whole_days()
}

impl Date {
    /// Whether the fields name a day of the calendar. Every date that this
    /// library hands out does; one written down field by field may not.
    pub open spec fn wf(self) -> bool {
        is_calendar_date(self.year as int, self.month as int, self.day as int)
    }

    /// The date's place in the run of all days: the first of January of the year
    /// 0 is day 1.
    pub open spec fn day_number(self) -> int {
        days_before_year(self.year as int) + days_before_month(self.year as int, self.month as int)
            + self.day
    }

    /// Whether `self` comes before `other`.
    pub open spec fn is_before_spec(self, other: Date) -> bool {
        self.year < other.year || (self.year == other.year && (
        self.month < other.month || (self.month == other.month
            && self.day < other.day)))
    }

    /// The date as `YYYY-MM-DD`.
    pub open spec fn text(self) -> Seq<char> {
        four_digits(self.year as int) + seq!['-'] + two_digits(self.month as int) + seq!['-']
            + two_digits(self.day as int)
    }

    /// The date of year, month and day, where they name a day of the calendar in
    /// the years 0 to 9999.
    pub fn new(year: i32, month: u8, day: u8) -> (r: Option<Date>)
        ensures
            r == if is_calendar_date(year as int, month as int, day as int) {
                Some(Date { year, month, day })
            } else {
                None::<Date>
            },
    {
        if year < 0 || year > 9999 || month < 1 || month > 12 || day < 1 {
            return None;
        }
        let leap = year % 4 == 0 && (year % 100 != 0 || year % 400 == 0);
        let length: u8 = if month == 2 {
            if leap {
                29
            } else {
                28
            }
        } else if month == 4 || month == 6 || month == 9 || month == 11 {
            30
        } else {
            31
        };
        if day <= length {
            Some(Date { year, month, day })
        } else {
            None
        }
    }

    /// Reads a date written as `YYYY-MM-DD`: exactly ten characters, and a day
    /// that the calendar has.
    pub fn parse(text: &str) -> (r: Option<Date>)
        ensures
            r == iso_date(text@),
            r matches Some(d) ==> d.wf(),
    {
        if text.unicode_len() != 10 {
            return None;
        }
        parse_calendar_date(text, "[year]-[month]-[day]")
    }

    /// Writes the date as `YYYY-MM-DD`.
    pub fn format(&self) -> (r: String)
        requires
            self.wf(),
        ensures
            r@ == self.text(),
            r@.len() == 10,
    {
        let year: u32 = self.year as u32;
        let mut out = String::new();
        out.push(digit_char((year / 1000) as u8));
        out.push(digit_char((year / 100 % 10) as u8));
        out.push(digit_char((year / 10 % 10) as u8));
        out.push(digit_char((year % 10) as u8));
        out.push('-');
        out.push(digit_char(self.month / 10));
        out.push(digit_char(self.month % 10));
        out.push('-');
        out.push(digit_char(self.day / 10));
        out.push(digit_char(self.day % 10));
        out
    }

    /// Whether `self` comes before `other`.
    pub fn is_before(&self, other: &Date) -> (r: bool)
        ensures
            r == self.is_before_spec(*other),
    {
        self.year < other.year || (self.year == other.year && (self.month < other.month || (
        self.month == other.month && self.day < other.day)))
    }

    /// The days from `earlier` to `self`; negative where `self` comes first.
    pub fn days_since(&self, earlier: &Date) -> (r: i64)
        requires
            self.wf(),
            earlier.wf(),
        ensures
            r == self.day_number() - earlier.day_number(),
    {
        calendar_days_between(*self, *earlier)
    }
}

proof fn lemma_digit(n: int)
    requires
        0 <= n <= 9,
    ensures
        is_digit(digit(n)),
        digit_value(digit(n)) == n,
{
}

proof fn lemma_digit_of_value(c: char)
    requires
        is_digit(c),
    ensures
        0 <= digit_value(c) <= 9,
        digit(digit_value(c)) == c,
{
}

proof fn lemma_two_digits(n: int)
    requires
        0 <= n <= 99,
    ensures
        two_digits(n).len() == 2,
        is_digit(two_digits(n)[0]),
        is_digit(two_digits(n)[1]),
        digit_value(two_digits(n)[0]) * 10 + digit_value(two_digits(n)[1]) == n,
{
    lemma_digit(n / 10);
    lemma_digit(n % 10);
}

#[verifier::rlimit(50)]
proof fn lemma_four_digits(n: int)
    requires
        0 <= n <= 9999,
    ensures
        four_digits(n).len() == 4,
        is_digit(four_digits(n)[0]),
        is_digit(four_digits(n)[1]),
        is_digit(four_digits(n)[2]),
        is_digit(four_digits(n)[3]),
        digit_value(four_digits(n)[0]) * 1000 + digit_value(four_digits(n)[1]) * 100 + digit_value(
            four_digits(n)[2],
        ) * 10 + digit_value(four_digits(n)[3]) == n,
{
    lemma_digit(n / 1000);
    lemma_digit(n / 100 % 10);
    lemma_digit(n / 10 % 10);
    lemma_digit(n % 10);
}

#[verifier::rlimit(50)]
proof fn lemma_two_digits_of_values(a: char, b: char)
    requires
        is_digit(a),
        is_digit(b),
    ensures
        two_digits(digit_value(a) * 10 + digit_value(b)) == seq![a, b],
{
    lemma_digit_of_value(a);
    lemma_digit_of_value(b);
    let n = digit_value(a) * 10 + digit_value(b);
    assert(n / 10 == digit_value(a));
    assert(n % 10 == digit_value(b));
}

#[verifier::rlimit(50)]
proof fn lemma_split_four(a: int, b: int, c: int, d: int)
    requires
        0 <= a <= 9,
        0 <= b <= 9,
        0 <= c <= 9,
        0 <= d <= 9,
    ensures
        (a * 1000 + b * 100 + c * 10 + d) / 1000 == a,
        (a * 1000 + b * 100 + c * 10 + d) / 100 % 10 == b,
        (a * 1000 + b * 100 + c * 10 + d) / 10 % 10 == c,
        (a * 1000 + b * 100 + c * 10 + d) % 10 == d,
{
    let n = a * 1000 + b * 100 + c * 10 + d;
    assert(n / 1000 == a);
    assert(n / 100 == a * 10 + b);
    assert(n / 10 == a * 100 + b * 10 + c);
}

#[verifier::rlimit(50)]
proof fn lemma_four_digits_of_values(a: char, b: char, c: char, d: char)
    requires
        is_digit(a),
        is_digit(b),
        is_digit(c),
        is_digit(d),
    ensures
        four_digits(
            digit_value(a) * 1000 + digit_value(b) * 100 + digit_value(c) * 10 + digit_value(d),
        ) == seq![a, b, c, d],
{
    lemma_digit_of_value(a);
    lemma_digit_of_value(b);
    lemma_digit_of_value(c);
    lemma_digit_of_value(d);
    lemma_split_four(digit_value(a), digit_value(b), digit_value(c), digit_value(d));
}

/// A date, written and read again, is the same date.
#[verifier::rlimit(50)]
pub proof fn lemma_format_then_parse(d: Date)
    requires
        d.wf(),
    ensures
        iso_date(d.text()) == Some(d),
{
    let s = d.text();
    let y = four_digits(d.year as int);
    let m = two_digits(d.month as int);
    let dd = two_digits(d.day as int);
    lemma_four_digits(d.year as int);
    lemma_two_digits(d.month as int);
    lemma_two_digits(d.day as int);
    assert(s.len() == 10);
    assert(s[0] == y[0] && s[1] == y[1] && s[2] == y[2] && s[3] == y[3]);
    assert(s[4] == '-' && s[7] == '-');
    assert(s[5] == m[0] && s[6] == m[1]);
    assert(s[8] == dd[0] && s[9] == dd[1]);
    assert(has_date_shape(s));
}

/// Ten characters that spell a date are what that date is written as.
#[verifier::rlimit(50)]
pub proof fn lemma_parse_then_format(s: Seq<char>)
    requires
        iso_date(s) is Some,
    ensures
        iso_date(s)->0.text() == s,
        iso_date(s)->0.wf(),
{
    let d = iso_date(s)->0;
    lemma_four_digits_of_values(s[0], s[1], s[2], s[3]);
    lemma_two_digits_of_values(s[5], s[6]);
    lemma_two_digits_of_values(s[8], s[9]);
    lemma_digit_of_value(s[0]);
    lemma_digit_of_value(s[1]);
    lemma_digit_of_value(s[2]);
    lemma_digit_of_value(s[3]);
    lemma_digit_of_value(s[5]);
    lemma_digit_of_value(s[6]);
    lemma_digit_of_value(s[8]);
    lemma_digit_of_value(s[9]);
    assert(d.text() =~= s);
}

/// The number of days of `year`.
pub open spec fn days_in_year(year: int) -> int {
    if is_leap_year(year) {
        366
    } else {
        365
    }
}

#[verifier::rlimit(50)]
proof fn lemma_fourth_year(year: int)
    requires
        0 <= year,
    ensures
        (year + 4) / 4 - (year + 3) / 4 == if year % 4 == 0 {
            1int
        } else {
            0int
        },
{
    let q = year / 4;
    let r = year % 4;
    assert(year == 4 * q + r && 0 <= r < 4);
    assert((4 * q + r + 4) / 4 == q + 1);
    if r == 0 {
        assert((4 * q + 3) / 4 == q);
    } else {
        assert((4 * q + r + 3) / 4 == q + 1);
    }
}

#[verifier::rlimit(50)]
proof fn lemma_hundredth_year(year: int)
    requires
        0 <= year,
    ensures
        (year + 100) / 100 - (year + 99) / 100 == if year % 100 == 0 {
            1int
        } else {
            0int
        },
{
    let q = year / 100;
    let r = year % 100;
    assert(year == 100 * q + r && 0 <= r < 100);
    assert((100 * q + r + 100) / 100 == q + 1);
    if r == 0 {
        assert((100 * q + 99) / 100 == q);
    } else {
        assert((100 * q + r + 99) / 100 == q + 1);
    }
}

#[verifier::rlimit(50)]
proof fn lemma_four_hundredth_year(year: int)
    requires
        0 <= year,
    ensures
        (year + 400) / 400 - (year + 399) / 400 == if year % 400 == 0 {
            1int
        } else {
            0int
        },
{
    let q = year / 400;
    let r = year % 400;
    assert(year == 400 * q + r && 0 <= r < 400);
    assert((400 * q + r + 400) / 400 == q + 1);
    if r == 0 {
        assert((400 * q + 399) / 400 == q);
    } else {
        assert((400 * q + r + 399) / 400 == q + 1);
    }
}

#[verifier::rlimit(50)]
proof fn lemma_year_length(year: int)
    requires
        0 <= year,
    ensures
        days_before_year(year + 1) == days_before_year(year) + days_in_year(year),
{
    lemma_fourth_year(year);
    lemma_hundredth_year(year);
    lemma_four_hundredth_year(year);
    assert(year % 400 == 0 ==> year % 100 == 0);
    assert(year % 100 == 0 ==> year % 4 == 0);
}

proof fn lemma_years_grow(from: int, to: int)
    requires
        0 <= from <= to,
    ensures
        days_before_year(from) <= days_before_year(to),
        from < to ==> days_before_year(from) + days_in_year(from) <= days_before_year(to),
    decreases to - from,
{
    if from < to {
        lemma_years_grow(from, to - 1);
        lemma_year_length(to - 1);
        lemma_year_length(from);
    }
}

#[verifier::rlimit(50)]
proof fn lemma_months_grow(year: int, from: int, to: int)
    requires
        1 <= from <= to <= 13,
    ensures
        days_before_month(year, from) <= days_before_month(year, to),
        from < to ==> days_before_month(year, from) + days_in_month(year, from)
            <= days_before_month(year, to),
        days_before_month(year, 13) == days_in_year(year),
        0 <= days_before_month(year, from),
    decreases to - from,
{
    reveal_with_fuel(days_before_month, 14);
    if from < to {
        lemma_months_grow(year, from, to - 1);
    }
}

/// The order of dates is the order of their days: one date comes before
/// another just where its day number is the smaller one.
#[verifier::rlimit(50)]
pub proof fn lemma_earlier_date_has_smaller_day_number(a: Date, b: Date)
    requires
        a.wf(),
        b.wf(),
    ensures
        a.is_before_spec(b) <==> a.day_number() < b.day_number(),
        a == b <==> a.day_number() == b.day_number(),
{
    lemma_months_grow(a.year as int, a.month as int, 13);
    lemma_months_grow(b.year as int, b.month as int, 13);
    lemma_months_grow(a.year as int, a.month as int, a.month as int + 1);
    lemma_months_grow(b.year as int, b.month as int, b.month as int + 1);
    lemma_months_grow(a.year as int, a.month as int + 1, 13);
    lemma_months_grow(b.year as int, b.month as int + 1, 13);
    if a.year < b.year {
        lemma_years_grow(a.year as int, b.year as int);
    } else if b.year < a.year {
        lemma_years_grow(b.year as int, a.year as int);
    } else if a.month < b.month {
        lemma_months_grow(a.year as int, a.month as int, b.month as int);
    } else if b.month < a.month {
        lemma_months_grow(a.year as int, b.month as int, a.month as int);
    }
}

} // verus!
