//! The timestamps of log lines and of the prompt, as plain numbers, and the
//! formats that they are read in.

use vstd::prelude::*;
use vstd::string::{StrSliceExecFns, StringExecFns};

verus! {

/// A calendar date: the number of the day, counted from 1 January of the
/// year 1 as day 1.
#[derive(Debug, Clone, Copy, PartialEq, Eq, Structural)]
pub struct LogDate {
    pub days: i32,
}

/// A time of day: the seconds since midnight and the nanoseconds since the
/// last full second.
#[derive(Debug, Clone, Copy, PartialEq, Eq, Structural)]
pub struct LogTime {
    pub secs: u32,
    pub frac: u32,
}

/// A date with a time of day.
#[derive(Debug, Clone, Copy, PartialEq, Eq, Structural)]
pub struct LogDateTime {
    pub date: LogDate,
    pub time: LogTime,
}

/// The format of a log line that starts with date and time.
pub const LOG_TIMESTAMP_FORMAT_PLAIN: &'static str = "%Y-%m-%d %H:%M:%S%.9f";

/// The format of a log line that starts with date and time in brackets.
pub const LOG_TIMESTAMP_FORMAT_BRACKETED: &'static str = "[%Y-%m-%d %H:%M:%S]";

/// The format of the date that a timestamp typed at the prompt may start with.
pub const PROMPT_DATE_FORMAT: &'static str = "%Y-%m-%d";

/// The format of a time with seconds typed at the prompt.
pub const PROMPT_TIME_FORMAT_SECONDS: &'static str = "%H:%M:%S%.9f";

/// The format of a time without seconds typed at the prompt.
pub const PROMPT_TIME_FORMAT_MINUTES: &'static str = "%H:%M";

/// What `NaiveDateTime::parse_and_remainder` of chrono reads at the start of
/// `line`, taken as text, in the format `format`: the day, the seconds since
/// midnight and the nanoseconds. `None` where it fails or the line is no
/// text.
pub uninterp spec fn datetime_prefix(line: Seq<u8>, format: Seq<char>) -> Option<(int, int, int)>;

/// What `NaiveDate::parse_and_remainder` of chrono reads at the start of
/// `text` in the format `format`: the day and the text that is left.
pub uninterp spec fn date_prefix(text: Seq<char>, format: Seq<char>) -> Option<(int, Seq<char>)>;

/// What `NaiveTime::parse_from_str` of chrono reads from `text` in the
/// format `format`: the seconds since midnight and the nanoseconds.
pub uninterp spec fn time_of_day(text: Seq<char>, format: Seq<char>) -> Option<(int, int)>;

/// True when the date and time with the numbers `a` is that with the
/// numbers `b` or later: the later day, on the same day the later second,
/// in the same second the later nanosecond.
pub open spec fn numbers_reached(a: (int, int, int), b: (int, int, int)) -> bool {
    if a.0 != b.0 {
        a.0 > b.0
    } else if a.1 != b.1 {
        a.1 > b.1
    } else {
        a.2 >= b.2
    }
}

impl LogDateTime {
    /// The numbers of the date and time.
    pub open spec fn numbers(self) -> (int, int, int) {
        (self.date.days as int, self.time.secs as int, self.time.frac as int)
    }

    /// True when this date and time is `target` or later.
    pub open spec fn reached(self, target: LogDateTime) -> bool {
        numbers_reached(self.numbers(), target.numbers())
    }

    pub fn new(date: LogDate, time: LogTime) -> (datetime: Self)
        ensures
            datetime.date == date,
            datetime.time == time,
    {
        Self { date, time }
    }

    /// Tells whether this date and time is `target` or later.
    pub fn has_reached(&self, target: &LogDateTime) -> (reached: bool)
        ensures
            reached == self.reached(*target),
    {
        if self.date.days != target.date.days {
            self.date.days > target.date.days
        } else if self.time.secs != target.time.secs {
            self.time.secs > target.time.secs
        } else {
            self.time.frac >= target.time.frac
        }
    }
}

/// Reads date and time at the start of `line` with
/// `NaiveDateTime::parse_and_remainder` of chrono, the bytes taken as text
/// by `std::str::from_utf8`. The contract names the result; the day is that
/// of `Datelike::num_days_from_ce`, the time that of
/// `Timelike::num_seconds_from_midnight` and `Timelike::nanosecond`.
#[verifier::external_body]
pub(crate) fn parse_datetime_prefix(line: &[u8], format: &str) -> (parsed: Option<LogDateTime>)
    ensures
        match parsed {
            Some(datetime) => datetime_prefix(line@, format@) == Some(datetime.numbers()),
            None => datetime_prefix(line@, format@) is None,
        },
{
    let text = std::str::from_utf8(line).ok()?;
    let (datetime, _) = chrono::NaiveDateTime::parse_and_remainder(text, format).ok()?;
    Some(
        LogDateTime {
            date: LogDate { days: chrono::Datelike::num_days_from_ce(&datetime) },
            time: LogTime {
                secs: chrono::Timelike::num_seconds_from_midnight(&datetime),
                frac: chrono::Timelike::nanosecond(&datetime),
            },
        },
    )
}

/// Reads a date at the start of `text` with `NaiveDate::parse_and_remainder`
/// of chrono and returns it with the text that is left. The contract names
/// the result.
#[verifier::external_body]
fn parse_date_prefix(text: &str, format: &str) -> (parsed: Option<(LogDate, String)>)
    ensures
        match parsed {
            Some((date, rest)) => date_prefix(text@, format@) == Some((date.days as int, rest@)),
            None => date_prefix(text@, format@) is None,
        },
{
    let (date, rest) = chrono::NaiveDate::parse_and_remainder(text, format).ok()?;
    Some((LogDate { days: chrono::Datelike::num_days_from_ce(&date) }, rest.to_string()))
}

/// Reads a time of day from `text` with `NaiveTime::parse_from_str` of
/// chrono. The contract names the result.
#[verifier::external_body]
fn parse_time_of_day(text: &str, format: &str) -> (parsed: Option<LogTime>)
    ensures
        match parsed {
            Some(time) => time_of_day(text@, format@) == Some((time.secs as int, time.frac as int)),
            None => time_of_day(text@, format@) is None,
        },
{
    let time = chrono::NaiveTime::parse_from_str(text, format).ok()?;
    Some(
        LogTime {
            secs: chrono::Timelike::num_seconds_from_midnight(&time),
            frac: chrono::Timelike::nanosecond(&time),
        },
    )
}

/// The format in which `line` starts with a timestamp: the plain format
/// where it can be read in it, else the bracketed one where it can be read
/// in that.
pub open spec fn spec_detect(line: Seq<u8>) -> Option<Seq<char>> {
    if datetime_prefix(line, LOG_TIMESTAMP_FORMAT_PLAIN@) is Some {
        Some(LOG_TIMESTAMP_FORMAT_PLAIN@)
    } else if datetime_prefix(line, LOG_TIMESTAMP_FORMAT_BRACKETED@) is Some {
        Some(LOG_TIMESTAMP_FORMAT_BRACKETED@)
    } else {
        None
    }
}

/// The format in which `line` starts with a timestamp, if it does.
pub fn detect_log_timstamp_format(line: &[u8]) -> (format: Option<String>)
    ensures
        match format {
            Some(found) => spec_detect(line@) == Some(found@),
            None => spec_detect(line@) is None,
        },
{
    // ordering should be strict -> loose
    if parse_datetime_prefix(line, LOG_TIMESTAMP_FORMAT_PLAIN).is_some() {
        Some(String::from_str(LOG_TIMESTAMP_FORMAT_PLAIN))
    } else if parse_datetime_prefix(line, LOG_TIMESTAMP_FORMAT_BRACKETED).is_some() {
        Some(String::from_str(LOG_TIMESTAMP_FORMAT_BRACKETED))
    } else {
        None
    }
}

/// Tells whether `text` holds a colon.
pub fn contains_colon(text: &str) -> (found: bool)
    ensures
        found == text@.contains(':'),
{
    let length = text.unicode_len();
    let mut i: usize = 0;
    while i < length
        invariant
            i <= length == text@.len(),
            forall|j: int| 0 <= j < i ==> text@[j] != ':',
        decreases length - i,
    {
        if text.get_char(i) == ':' {
            return true;
        }
        i += 1;
    }
    false
}

/// The text that the time of a prompt is read from: `text` itself where it
/// holds a colon, else `text` with `:00` after it, as the hours alone are
/// no time.
pub open spec fn time_text(text: Seq<char>) -> Seq<char> {
    if text.contains(':') {
        text
    } else {
        text + ":00"@
    }
}

/// The time that `text` names: read with seconds where that succeeds, else
/// without.
pub open spec fn spec_time(text: Seq<char>) -> Option<(int, int)> {
    if time_of_day(time_text(text), PROMPT_TIME_FORMAT_SECONDS@) is Some {
        time_of_day(time_text(text), PROMPT_TIME_FORMAT_SECONDS@)
    } else {
        time_of_day(time_text(text), PROMPT_TIME_FORMAT_MINUTES@)
    }
}

/// The date and the time that `content` names: the date where `content`
/// starts with one, and the time that the text after the date names, or all
/// of `content` where it starts with no date.
pub open spec fn spec_parse_log_timestamp(content: Seq<char>) -> (Option<int>, Option<(int, int)>) {
    match date_prefix(content, PROMPT_DATE_FORMAT@) {
        Some((days, rest)) => (Some(days), spec_time(rest)),
        None => (None, spec_time(content)),
    }
}

/// Reads a timestamp typed at the prompt: a date, a time, or a date and a
/// time. The time may be given as hours alone, with minutes, or with
/// seconds and their fraction.
pub fn parse_log_timestamp(content: &str) -> (parsed: (Option<LogDate>, Option<LogTime>))
    ensures
        match parsed.0 {
            Some(date) => spec_parse_log_timestamp(content@).0 == Some(date.days as int),
            None => spec_parse_log_timestamp(content@).0 is None,
        },
        match parsed.1 {
            Some(time) => spec_parse_log_timestamp(content@).1 == Some(
                (time.secs as int, time.frac as int),
            ),
            None => spec_parse_log_timestamp(content@).1 is None,
        },
{
    let (date, time_str) = match parse_date_prefix(content, PROMPT_DATE_FORMAT) {
        Some((date, remain)) => (Some(date), remain),
        None => (None, String::from_str(content)),
    };
    // a time cannot be read from the hours alone
    let time_str = if contains_colon(time_str.as_str()) {
        time_str
    } else {
        time_str.concat(":00")
    };
    // ordering should be strict -> loose
    let time = match parse_time_of_day(time_str.as_str(), PROMPT_TIME_FORMAT_SECONDS) {
        Some(parsed_time) => Some(parsed_time),
        None => parse_time_of_day(time_str.as_str(), PROMPT_TIME_FORMAT_MINUTES),
    };
    (date, time)
}

} // verus!
