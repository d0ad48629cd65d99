//! The fixed-column log line:
//!
//! `{timestamp} {level:5} [{logger:20}] ({origin:8}: {path:30}: {line:>4}): {message}`
//!
//! Widths count characters, not bytes, so that no character of more than one
//! byte is ever cut in two.

use vstd::prelude::*;
use vstd::string::StringExecFns;
use crate::date::Date;
use crate::text::{
    chars_of, decimal, find, first_occurrence, has_prefix, push_decimal, push_range, push_spaces,
    spaces, string_of_range, three_digits, two_digits,
};

verus! {

/// `s` brought to exactly `width` characters: the last `width` of them where it
/// is longer, else `s` followed by spaces.
pub open spec fn fitted(s: Seq<char>, width: nat) -> Seq<char> {
    if s.len() > width {
        s.subrange(s.len() - width, s.len() as int)
    } else {
        s + spaces((width - s.len()) as nat)
    }
}

/// Pads `s` on the right, or cuts it from the left, to exactly `width`
/// characters. Characters are counted, not bytes.
pub fn fit(s: &str, width: usize) -> (r: String)
    ensures
        r@ == fitted(s@, width as nat),
        r@.len() == width,
{
    let chars = chars_of(s);
    let n = chars.len();
    let mut out = String::new();
    if n > width {
        push_range(&mut out, &chars, n - width, n);
    } else {
        push_range(&mut out, &chars, 0, n);
        push_spaces(&mut out, width - n);
    }
    out
}

/// How many characters of a path that is too long are kept after the ellipsis.
pub open spec fn path_tail_len(width: nat) -> nat
    recommends
        width >= 3,
{
    ((width - 3 + 1) / 2) as nat
}

/// How many characters of a path that is too long are kept before the ellipsis.
pub open spec fn path_head_len(width: nat) -> nat
    recommends
        width >= 3,
{
    (width - 3 - path_tail_len(width)) as nat
}

/// `s` brought to exactly `width` characters: padded with spaces where it fits,
/// else its head, three dots and its tail, the tail getting the odd character.
pub open spec fn fitted_path(s: Seq<char>, width: nat) -> Seq<char>
    recommends
        s.len() <= width || width >= 3,
{
    if s.len() <= width {
        s + spaces((width - s.len()) as nat)
    } else {
        s.take(path_head_len(width) as int) + seq!['.', '.', '.'] + s.skip(
            s.len() - path_tail_len(width),
        )
    }
}

/// Pads a path on the right, or replaces its middle by `...`, to exactly
/// `width` characters. A path longer than `width` needs room for the dots.
pub fn fit_path(s: &str, width: usize) -> (r: String)
    requires
        s@.len() <= width || width >= 3,
    ensures
        r@ == fitted_path(s@, width as nat),
        r@.len() == width,
{
    let chars = chars_of(s);
    let n = chars.len();
    let mut out = String::new();
    if n <= width {
        push_range(&mut out, &chars, 0, n);
        push_spaces(&mut out, width - n);
    } else {
        let available = width - 3;
        let end_len = (available + 1) / 2;
        let start_len = available - end_len;
        push_range(&mut out, &chars, 0, start_len);
        out.push('.');
        out.push('.');
        out.push('.');
        push_range(&mut out, &chars, n - end_len, n);
    }
    out
}

/// How grave a log event is.
#[derive(Debug, Clone, Copy, PartialEq, Eq, Structural)]
pub enum Level {
    Error,
    Warn,
    Info,
    Debug,
    Trace,
}

/// Where a log event comes from.
#[derive(Debug, Clone, Copy, PartialEq, Eq, Structural)]
pub enum Origin {
    /// From the user interface: the message carries the logger's name.
    Frontend,
    /// From this application's own code.
    Backend,
}

/// A moment of local time, to the millisecond, with its offset from UTC. The
/// offset's hours and minutes have one sign.
#[derive(Debug, Clone, Copy, PartialEq, Eq, Structural)]
pub struct Timestamp {
    pub date: Date,
    pub hour: u8,
    pub minute: u8,
    pub second: u8,
    pub millisecond: u16,
    pub offset_hours: i8,
    pub offset_minutes: i8,
}

impl Timestamp {
    /// Whether the fields name a moment: a day of the calendar, a time of the
    /// day, and an offset whose parts agree in sign.
    pub open spec fn wf(self) -> bool {
        &&& self.date.wf()
        &&& self.hour < 24
        &&& self.minute < 60
        &&& self.second < 60
        &&& self.millisecond < 1000
        &&& -25 <= self.offset_hours <= 25
        &&& -59 <= self.offset_minutes <= 59
        &&& (self.offset_hours > 0 ==> self.offset_minutes >= 0)
        &&& (self.offset_hours < 0 ==> self.offset_minutes <= 0)
    }

    /// The moment as ISO 8601 writes it, with milliseconds and an offset that
    /// always has its sign: `2026-02-20T14:30:45.123+01:00`.
    pub open spec fn text(self) -> Seq<char> {
        self.date.text() + seq!['T'] + two_digits(self.hour as int) + seq![':'] + two_digits(
            self.minute as int,
        ) + seq![':'] + two_digits(self.second as int) + seq!['.'] + three_digits(
            self.millisecond as int,
        ) + seq![
            if self.offset_hours < 0 || self.offset_minutes < 0 {
                '-'
            } else {
                '+'
            },
        ] + two_digits(vstd::math::abs(self.offset_hours as int) as int) + seq![':'] + two_digits(
            vstd::math::abs(self.offset_minutes as int) as int,
        )
    }

    /// The moment of these fields, where they name one.
    pub fn new(
        date: Date,
        hour: u8,
        minute: u8,
        second: u8,
        millisecond: u16,
        offset_hours: i8,
        offset_minutes: i8,
    ) -> (r: Option<Timestamp>)
        ensures
            ({
                let made = Timestamp {
                    date,
                    hour,
                    minute,
                    second,
                    millisecond,
                    offset_hours,
                    offset_minutes,
                };
                r == if made.wf() {
                    Some(made)
                } else {
                    None::<Timestamp>
                }
            }),
    {
        if Date::new(date.year, date.month, date.day).is_none() {
            return None;
        }
        if hour < 24 && minute < 60 && second < 60 && millisecond < 1000 && -25 <= offset_hours
            && offset_hours <= 25 && -59 <= offset_minutes && offset_minutes <= 59 && !(offset_hours
            > 0 && offset_minutes < 0) && !(offset_hours < 0 && offset_minutes > 0) {
            Some(Timestamp { date, hour, minute, second, millisecond, offset_hours, offset_minutes })
        } else {
            None
        }
    }
}

/// `time::Error`: what `time` gives where it cannot make or write a moment.
/// Nothing is known of what it holds.
#[verifier::external_type_specification]
#[verifier::external_body]
pub struct ExTimeError(time::Error);

/// What one log event carries.
#[derive(Debug, PartialEq, Eq)]
pub struct LogEvent {
    pub level: Level,
    /// When the event took place, if the clock's answer is a moment that can
    /// be written; the line shows the placeholder in its stead where not.
    pub timestamp: Option<Timestamp>,
    /// The source file that the event comes from, if known.
    pub file: Option<String>,
    /// The line in that file, if known.
    pub line: Option<u32>,
    /// The logger's name, for an event of the backend.
    pub target: String,
    /// The message. One from the front end begins with the logger's name and
    /// the separator.
    pub message: String,
}

/// The character that parts the logger's name from the message, in a message
/// from the front end.
pub const SEP: char = '\u{1f}';

/// The width of the level.
pub const LEVEL_WIDTH: usize = 5;

/// The width of the logger's name.
pub const LOGGER_NAME_WIDTH: usize = 20;

/// The width of the source path.
pub const FILE_PATH_WIDTH: usize = 30;

/// What stands for the source file where none is known.
pub const UNKNOWN_FILE: &'static str = "unknown";

/// The root of the sources, which is not shown.
pub const SOURCE_ROOT: &'static str = "src/";

/// What stands for the time where there is none to write.
pub const TIMESTAMP_PLACEHOLDER: &'static str = "????-??-??T??:??:??.???+??:??";

/// The format description of the time.
pub const TIMESTAMP_FORMAT: &'static str =
    "[year]-[month]-[day]T[hour]:[minute]:[second].[subsecond digits:3][offset_hour sign:mandatory]:[offset_minute]";

/// The name of a level.
pub open spec fn level_label(level: Level) -> Seq<char> {
    match level {
        Level::Error => "ERROR"@,
        Level::Warn => "WARN"@,
        Level::Info => "INFO"@,
        Level::Debug => "DEBUG"@,
        Level::Trace => "TRACE"@,
    }
}

/// The code that a terminal takes for the colour of a level: trace is dim,
/// debug grey, info green, warn yellow, error red.
pub open spec fn level_code(level: Level) -> Seq<char> {
    match level {
        Level::Error => "31"@,
        Level::Warn => "33"@,
        Level::Info => "32"@,
        Level::Debug => "90"@,
        Level::Trace => "2"@,
    }
}

/// `text` between the escape sequence that sets the style `code` and the one
/// that resets it.
pub open spec fn styled(text: Seq<char>, code: Seq<char>) -> Seq<char> {
    seq!['\u{1b}', '['] + code + seq!['m'] + text + seq!['\u{1b}', '[', '0', 'm']
}

/// Whether `text` holds no escape character.
pub open spec fn is_plain(text: Seq<char>) -> bool {
    forall|i: int| 0 <= i < text.len() ==> text[i] != '\u{1b}'
}

/// The name of the level, from `log::Level::as_str`.
///
/// Trusted: the names are `ERROR`, `WARN`, `INFO`, `DEBUG` and `TRACE`.
#[verifier::external_body]
fn level_name(level: Level) -> (r: &'static str)
    ensures
        r@ == level_label(level),
{
    match level {
        Level::Error => log::Level::Error,
        Level::Warn => log::Level::Warn,
        Level::Info => log::Level::Info,
        Level::Debug => log::Level::Debug,
        Level::Trace => log::Level::Trace,
    }.as_str()
}

/// `text` dimmed, by `colored::Colorize::dimmed`, as the text that a terminal
/// is sent.
///
/// Trusted: the result is `text` itself where colours are switched off (by the
/// environment, or because the output is no terminal), else `text` between the
/// escape sequences for style 2 and for reset. A text that itself holds a reset
/// sequence would be changed inside, and is left out.
#[verifier::external_body]
fn dimmed(text: &str) -> (r: String)
    requires
        is_plain(text@),
    ensures
        r@ == text@ || r@ == styled(text@, "2"@),
{
    colored::Colorize::dimmed(text).to_string()
}

/// `text` in grey, by `colored::Colorize::bright_black`.
///
/// Trusted: as for `dimmed`, with colour 90.
#[verifier::external_body]
fn bright_black(text: &str) -> (r: String)
    requires
        is_plain(text@),
    ensures
        r@ == text@ || r@ == styled(text@, "90"@),
{
    colored::Colorize::bright_black(text).to_string()
}

/// `text` in green, by `colored::Colorize::green`.
///
/// Trusted: as for `dimmed`, with colour 32.
#[verifier::external_body]
fn green(text: &str) -> (r: String)
    requires
        is_plain(text@),
    ensures
        r@ == text@ || r@ == styled(text@, "32"@),
{
    colored::Colorize::green(text).to_string()
}

/// `text` in yellow, by `colored::Colorize::yellow`.
///
/// Trusted: as for `dimmed`, with colour 33.
#[verifier::external_body]
fn yellow(text: &str) -> (r: String)
    requires
        is_plain(text@),
    ensures
        r@ == text@ || r@ == styled(text@, "33"@),
{
    colored::Colorize::yellow(text).to_string()
}

/// `text` in red, by `colored::Colorize::red`.
///
/// Trusted: as for `dimmed`, with colour 31.
#[verifier::external_body]
fn red(text: &str) -> (r: String)
    requires
        is_plain(text@),
    ensures
        r@ == text@ || r@ == styled(text@, "31"@),
{
    colored::Colorize::red(text).to_string()
}

/// The moment as text, by `time::OffsetDateTime::format` with the description
/// `TIMESTAMP_FORMAT`, on the date, time and offset that `time` makes of the
/// fields.
///
/// Trusted: for a well-formed moment a text comes back, since `time` accepts
/// each of its fields (the year lies within the years that it writes with four
/// digits) and a date with time and offset supplies every component of the
/// description. The text is the date as `YYYY-MM-DD`, `T`, the time as
/// `HH:MM:SS`, a point and the milliseconds in three digits, the sign of the
/// offset, and its hours and minutes in two digits each with a colon between.
#[verifier::external_body]
fn format_offset_date_time(at: &Timestamp, description: &str) -> (r: Result<String, time::Error>)
    requires
        at.wf(),
        description@ == TIMESTAMP_FORMAT@,
    ensures
        r is Ok,
        r matches Ok(text) ==> text@ == at.text(),
{
    let month = time::Month::try_from(at.date.month)?;
    let date = time::Date::from_calendar_date(at.date.year, month, at.date.day)?;
    let time = time::Time::from_hms_milli(at.hour, at.minute, at.second, at.millisecond)?;
    let offset = time::UtcOffset::from_hms(at.offset_hours, at.offset_minutes, 0)?;
    let items = time::format_description::parse_borrowed::<1>(description)?;
    Ok(time::OffsetDateTime::new_in_offset(date, time, offset).format(&items)?)
}

/// The level as the line shows it without colour: its name, in five
/// characters.
pub open spec fn level_tag(level: Level) -> Seq<char> {
    fitted(level_label(level), LEVEL_WIDTH as nat)
}

proof fn lemma_level_tag_is_plain(level: Level)
    ensures
        is_plain(level_tag(level)),
        level_tag(level).len() == 5,
{
    reveal_strlit("ERROR");
    reveal_strlit("WARN");
    reveal_strlit("INFO");
    reveal_strlit("DEBUG");
    reveal_strlit("TRACE");
}

/// The level in five characters, coloured by how grave it is. Whether the
/// colour is really there is up to the environment: where colours are switched
/// off, the five characters come back as they are.
pub fn coloured_level(level: Level) -> (r: String)
    ensures
        r@ == level_tag(level) || r@ == styled(level_tag(level), level_code(level)),
{
    let tag = fit(level_name(level), LEVEL_WIDTH);
    proof {
        lemma_level_tag_is_plain(level);
    }
    match level {
        Level::Trace => dimmed(tag.as_str()),
        Level::Debug => bright_black(tag.as_str()),
        Level::Info => green(tag.as_str()),
        Level::Warn => yellow(tag.as_str()),
        Level::Error => red(tag.as_str()),
    }
}

/// The time as the line shows it: what was written, or the placeholder where
/// nothing could be written.
pub fn timestamp_or_placeholder(written: Option<String>) -> (r: String)
    ensures
        r@ == match written {
            Some(text) => text@,
            None => TIMESTAMP_PLACEHOLDER@,
        },
{
    match written {
        Some(text) => text,
        None => String::from_str(TIMESTAMP_PLACEHOLDER),
    }
}

/// The time as a log line shows it: the moment as ISO 8601 writes it, or the
/// placeholder where there is no moment to write.
pub open spec fn shown_time(at: Option<Timestamp>) -> Seq<char> {
    match at {
        Some(moment) => moment.text(),
        None => TIMESTAMP_PLACEHOLDER@,
    }
}

/// The moment as ISO 8601 writes it, with milliseconds and offset; the
/// placeholder of question marks where there is no moment to write. Should the
/// writing fail, the placeholder stands in as well, and nothing panics.
pub fn format_timestamp(at: Option<Timestamp>) -> (r: String)
    requires
        at matches Some(moment) ==> moment.wf(),
    ensures
        r@ == shown_time(at),
{
    let written = match at {
        Some(moment) => match format_offset_date_time(&moment, TIMESTAMP_FORMAT) {
            Ok(text) => Some(text),
            Err(_) => None,
        },
        None => None,
    };
    timestamp_or_placeholder(written)
}

/// Where the separator first stands in a message.
pub open spec fn separator_of(message: Seq<char>) -> Option<int> {
    first_occurrence(message, seq![SEP])
}

/// Where a message comes from: from the front end if it holds the separator.
pub open spec fn origin_of(message: Seq<char>) -> Origin {
    if separator_of(message) is Some {
        Origin::Frontend
    } else {
        Origin::Backend
    }
}

/// The name of the logger: what stands before the separator, or the target of
/// an event that holds none.
pub open spec fn logger_of(message: Seq<char>, target: Seq<char>) -> Seq<char> {
    match separator_of(message) {
        Some(at) => message.take(at),
        None => target,
    }
}

/// The message proper: what stands behind the separator, or all of it.
pub open spec fn body_of(message: Seq<char>) -> Seq<char> {
    match separator_of(message) {
        Some(at) => message.skip(at + 1),
        None => message,
    }
}

/// The origin in eight characters.
pub open spec fn origin_label(origin: Origin) -> Seq<char> {
    match origin {
        Origin::Frontend => "Frontend"@,
        Origin::Backend => "Backend "@,
    }
}

/// The source path without the root of the sources; `unknown` where there is
/// no path.
pub open spec fn source_path_of(file: Option<Seq<char>>) -> Seq<char> {
    let path = match file {
        Some(path) => path,
        None => UNKNOWN_FILE@,
    };
    if SOURCE_ROOT@.is_prefix_of(path) {
        path.skip(SOURCE_ROOT@.len() as int)
    } else {
        path
    }
}

/// `s` behind as many spaces as bring it to `width` characters; `s` itself
/// where it is as long or longer.
pub open spec fn right_aligned(s: Seq<char>, width: nat) -> Seq<char> {
    if s.len() < width {
        spaces((width - s.len()) as nat) + s
    } else {
        s
    }
}

/// The line number in at least four characters; 0 where none is known.
pub open spec fn line_number_of(line: Option<u32>) -> Seq<char> {
    right_aligned(
        decimal(
            match line {
                Some(n) => n as nat,
                None => 0,
            },
        ),
        4,
    )
}

/// The log line of an event, given how its time and its level are shown.
pub open spec fn line_of(
    timestamp: Seq<char>,
    level: Seq<char>,
    file: Option<Seq<char>>,
    line: Option<u32>,
    target: Seq<char>,
    message: Seq<char>,
) -> Seq<char> {
    timestamp + " "@ + level + " ["@ + fitted(
        logger_of(message, target),
        LOGGER_NAME_WIDTH as nat,
    ) + "] ("@ + origin_label(origin_of(message)) + ": "@ + fitted_path(
        source_path_of(file),
        FILE_PATH_WIDTH as nat,
    ) + ": "@ + line_number_of(line) + "): "@ + body_of(message)
}

/// Where a message comes from.
pub fn origin(message: &str) -> (r: Origin)
    ensures
        r == origin_of(message@),
{
    let chars = chars_of(message);
    let mut sep: Vec<char> = Vec::new();
    sep.push(SEP);
    assert(sep@ =~= seq![SEP]);
    match find(&chars, &sep) {
        Some(_) => Origin::Frontend,
        None => Origin::Backend,
    }
}

/// The origin in eight characters.
pub fn origin_name(origin: Origin) -> (r: &'static str)
    ensures
        r@ == origin_label(origin),
{
    match origin {
        Origin::Frontend => "Frontend",
        Origin::Backend => "Backend ",
    }
}

/// The log line of `event`, with `timestamp` and `level` as they are to be
/// shown.
#[verifier::rlimit(50)]
pub fn render_line(timestamp: &str, level: &str, event: &LogEvent) -> (r: String)
    ensures
        r@ == line_of(
            timestamp@,
            level@,
            event.file.deep_view(),
            event.line,
            event.target@,
            event.message@,
        ),
{
    let message = chars_of(event.message.as_str());
    let mut sep: Vec<char> = Vec::new();
    sep.push(SEP);
    assert(sep@ =~= seq![SEP]);
    let found = find(&message, &sep);
    let mut out = String::new();
    out.append(timestamp);
    out.append(" ");
    out.append(level);
    out.append(" [");
    let logger = match found {
        Some(at) => {
            let name = string_of_range(&message, 0, at);
            assert(message@.take(at as int) =~= message@.subrange(0, at as int));
            fit(name.as_str(), LOGGER_NAME_WIDTH)
        },
        None => fit(event.target.as_str(), LOGGER_NAME_WIDTH),
    };
    out.append(logger.as_str());
    out.append("] (");
    out.append(origin_name(origin(event.message.as_str())));
    out.append(": ");
    let file = match &event.file {
        Some(path) => chars_of(path.as_str()),
        None => chars_of(UNKNOWN_FILE),
    };
    let root = chars_of(SOURCE_ROOT);
    let shown = if has_prefix(&file, &root) {
        string_of_range(&file, root.len(), file.len())
    } else {
        assert(file@.subrange(0, file@.len() as int) =~= file@);
        string_of_range(&file, 0, file.len())
    };
    let path = fit_path(shown.as_str(), FILE_PATH_WIDTH);
    out.append(path.as_str());
    out.append(": ");
    let number: u32 = match event.line {
        Some(n) => n,
        None => 0,
    };
    let mut digits = String::new();
    push_decimal(&mut digits, number);
    assert(digits@ =~= decimal(number as nat));
    let width = digits.as_str().unicode_len();
    if width < 4 {
        push_spaces(&mut out, 4 - width);
    }
    out.append(digits.as_str());
    out.append("): ");
    match found {
        Some(at) => {
            push_range(&mut out, &message, at + 1, message.len());
            assert(message@.skip(at + 1) =~= message@.subrange(at + 1, message@.len() as int));
        },
        None => out.append(event.message.as_str()),
    }
    out
}

/// Whether `line` is the log line of an event of these parts, with its level
/// plain or coloured.
pub open spec fn is_line_of(
    line: Seq<char>,
    level: Level,
    timestamp: Option<Timestamp>,
    file: Option<Seq<char>>,
    number: Option<u32>,
    target: Seq<char>,
    message: Seq<char>,
) -> bool {
    ||| line == line_of(shown_time(timestamp), level_tag(level), file, number, target, message)
    ||| line == line_of(
        shown_time(timestamp),
        styled(level_tag(level), level_code(level)),
        file,
        number,
        target,
        message,
    )
}

/// The log line of `event`: its time, or the placeholder where it has none;
/// its level, coloured where the environment takes colours; and the columns
/// of `line_of`.
pub fn format_log(event: &LogEvent) -> (r: String)
    requires
        event.timestamp matches Some(moment) ==> moment.wf(),
    ensures
        is_line_of(
            r@,
            event.level,
            event.timestamp,
            event.file.deep_view(),
            event.line,
            event.target@,
            event.message@,
        ),
{
    let timestamp = format_timestamp(event.timestamp);
    let level = coloured_level(event.level);
    render_line(timestamp.as_str(), level.as_str(), event)
}

proof fn lemma_decimal_width(n: nat)
    requires
        n <= 9999,
    ensures
        1 <= decimal(n).len() <= 4,
{
    reveal_with_fuel(decimal, 5);
}

/// The columns of a log line stand at fixed places: whatever the logger, the
/// path and the line number below 10000 are, the message begins 75 characters
/// behind the time and the level, and the line ends with it.
pub proof fn lemma_line_has_fixed_columns(
    timestamp: Seq<char>,
    level: Seq<char>,
    file: Option<Seq<char>>,
    line: Option<u32>,
    target: Seq<char>,
    message: Seq<char>,
)
    requires
        line matches Some(n) ==> n <= 9999,
    ensures
        line_of(timestamp, level, file, line, target, message).len() == timestamp.len()
            + level.len() + 75 + body_of(message).len(),
        line_of(timestamp, level, file, line, target, message).take(timestamp.len() as int)
            == timestamp,
        line_of(timestamp, level, file, line, target, message).skip(
            (timestamp.len() + level.len() + 75) as int,
        ) == body_of(message),
        fitted(logger_of(message, target), LOGGER_NAME_WIDTH as nat).len() == LOGGER_NAME_WIDTH,
        fitted_path(source_path_of(file), FILE_PATH_WIDTH as nat).len() == FILE_PATH_WIDTH,
        origin_label(origin_of(message)).len() == 8,
        line_number_of(line).len() == 4,
{
    reveal_strlit(" ");
    reveal_strlit(" [");
    reveal_strlit("] (");
    reveal_strlit(": ");
    reveal_strlit("): ");
    reveal_strlit("Frontend");
    reveal_strlit("Backend ");
    let number: nat = match line {
        Some(n) => n as nat,
        None => 0,
    };
    lemma_decimal_width(number);
    let whole = line_of(timestamp, level, file, line, target, message);
    assert(whole.take(timestamp.len() as int) =~= timestamp);
    assert(whole.skip((timestamp.len() + level.len() + 75) as int) =~= body_of(message));
}

} // verus!
