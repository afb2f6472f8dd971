use chrono::{Datelike, NaiveDate, NaiveTime, Timelike};
use loss::document::{Document, Fetch};
use loss::log_timestamp::{
    contains_colon, detect_log_timstamp_format, parse_log_timestamp, LogDate, LogDateTime,
    LogTime, LOG_TIMESTAMP_FORMAT_BRACKETED, LOG_TIMESTAMP_FORMAT_PLAIN,
};

fn date(year: i32, month: u32, day: u32) -> Option<LogDate> {
    NaiveDate::from_ymd_opt(year, month, day).map(|date| LogDate {
        days: date.num_days_from_ce(),
    })
}

fn time(hour: u32, min: u32, sec: u32, nano: u32) -> Option<LogTime> {
    NaiveTime::from_hms_nano_opt(hour, min, sec, nano).map(|time| LogTime {
        secs: time.num_seconds_from_midnight(),
        frac: time.nanosecond(),
    })
}

#[test]
fn test_detect_log_timstamp_format() {
    assert_eq!(
        detect_log_timstamp_format("2024-01-01 12:00:00.123 [Info] hello".as_bytes()),
        Some("%Y-%m-%d %H:%M:%S%.9f".to_string())
    );
    assert_eq!(
        detect_log_timstamp_format("2024-01-01 12:00:00 [Info] hello".as_bytes()),
        Some("%Y-%m-%d %H:%M:%S%.9f".to_string())
    );
    assert_eq!(
        detect_log_timstamp_format("20240101 12:00:00 [Info] hello".as_bytes()),
        None
    );
    assert_eq!(
        detect_log_timstamp_format("[2024-01-01 12:00:00] [Info] hello".as_bytes()),
        Some("[%Y-%m-%d %H:%M:%S]".to_string())
    );
}

#[test]
fn test_parse_log_timestamp() {
    assert_eq!(
        parse_log_timestamp("2024-01-02 8:12:50.1234567"),
        (date(2024, 1, 2), time(8, 12, 50, 123456700))
    );
    assert_eq!(
        parse_log_timestamp("2024-01-02 8:12:20"),
        (date(2024, 1, 2), time(8, 12, 20, 0))
    );
    assert_eq!(
        parse_log_timestamp("2024-01-02 8:12"),
        (date(2024, 1, 2), time(8, 12, 0, 0))
    );
    assert_eq!(
        parse_log_timestamp("2024-01-02 21"),
        (date(2024, 1, 2), time(21, 0, 0, 0))
    );
    assert_eq!(
        parse_log_timestamp("8:12:50.1234567"),
        (None, time(8, 12, 50, 123456700))
    );
    assert_eq!(parse_log_timestamp("8:12:20"), (None, time(8, 12, 20, 0)));
    assert_eq!(parse_log_timestamp("8:12"), (None, time(8, 12, 0, 0)));
    assert_eq!(parse_log_timestamp("21"), (None, time(21, 0, 0, 0)));
}

#[test]
fn timestamps_that_are_none() {
    assert_eq!(parse_log_timestamp("soon"), (None, None));
    assert_eq!(parse_log_timestamp(""), (None, None));
    assert_eq!(parse_log_timestamp("25:00"), (None, None));
    assert_eq!(parse_log_timestamp("2024-01-02"), (date(2024, 1, 2), None));
    assert!(contains_colon("8:12"));
    assert!(!contains_colon("21"));
    assert!(!contains_colon(""));
}

#[test]
fn datetime_prefix_is_read_as_numbers() {
    // the first timestamp of the first chunk gives the default date
    let data = b"2024-01-01 12:00:05.250 first\n2024-01-01 12:00:06 second\nlast";
    let mut doc = open(data);
    assert_eq!(doc.query_offset_by_timestamp(None, time(12, 0, 6, 0).unwrap()), Fetch::Ready(Some(30)));
    assert_eq!(doc.log_default_date, date(2024, 1, 1));
    assert_eq!(date(2024, 1, 1), Some(LogDate { days: 738886 }));
    assert_eq!(date(1, 1, 1), Some(LogDate { days: 1 }));
    // the fraction of a second counts
    let at = |frac: u32| LogTime { secs: 12 * 3600 + 5, frac };
    assert_eq!(doc.query_offset_by_timestamp(None, at(250_000_000)), Fetch::Ready(Some(0)));
    assert_eq!(doc.query_offset_by_timestamp(None, at(250_000_001)), Fetch::Ready(Some(30)));
    // and so does the day
    let next_day = date(2024, 1, 2);
    assert_eq!(doc.query_offset_by_timestamp(next_day, at(0)), Fetch::Ready(Some(57)));
    assert_eq!(
        parse_log_timestamp("12:00:05.25"),
        (None, Some(at(250_000_000)))
    );
    assert_eq!(
        detect_log_timstamp_format(&[0xff, 0xfe, b'2']),
        None
    );
    let reached = LogDateTime::new(date(2024, 1, 1).unwrap(), at(0));
    assert_eq!(reached.time.secs, 43205);
}

#[test]
fn has_reached_orders_by_day_then_second_then_fraction() {
    let at = |days: i32, secs: u32, frac: u32| LogDateTime {
        date: LogDate { days },
        time: LogTime { secs, frac },
    };
    assert!(at(2, 0, 0).has_reached(&at(1, 86399, 999)));
    assert!(!at(1, 86399, 999).has_reached(&at(2, 0, 0)));
    assert!(at(1, 11, 0).has_reached(&at(1, 10, 5)));
    assert!(!at(1, 10, 5).has_reached(&at(1, 11, 0)));
    assert!(at(1, 10, 5).has_reached(&at(1, 10, 5)));
    assert!(at(1, 10, 6).has_reached(&at(1, 10, 5)));
    assert!(!at(1, 10, 4).has_reached(&at(1, 10, 5)));
}

fn open(data: &[u8]) -> Document {
    let tail: &[u8] = match Document::tail_window(data.len()) {
        Some((begin, end)) => &data[begin..end],
        None => &[],
    };
    Document::new(data.len(), tail).unwrap()
}

fn jump(doc: &mut Document, data: &[u8], text: &str) -> Option<usize> {
    let (date, time) = parse_log_timestamp(text);
    loop {
        match doc.query_offset_by_timestamp(date, time.unwrap()) {
            Fetch::Ready(offset) => return offset,
            Fetch::Missing(at) => {
                let (begin, end) = doc.plan_load_around(at).unwrap();
                doc.load_chunk_around(at, &data[begin..end]).unwrap().unwrap();
            }
        }
    }
}

#[test]
fn timestamp_jump_finds_the_line() {
    let data =
        b"2024-01-01 12:00:00.000 A\n2024-01-01 12:00:05.000 B\n2024-01-01 12:00:10.000 C\n";
    let mut doc = open(data);
    assert_eq!(jump(&mut doc, data, "12:00:05"), Some(26));
    assert_eq!(
        doc.log_timestamp_format,
        Some(LOG_TIMESTAMP_FORMAT_PLAIN.to_string())
    );
    assert_eq!(doc.log_default_date, date(2024, 1, 1));
    assert_eq!(jump(&mut doc, data, "12:00:00"), Some(0));
    assert_eq!(jump(&mut doc, data, "11:00"), Some(0));
    assert_eq!(jump(&mut doc, data, "12:00:03"), Some(26));
    assert_eq!(jump(&mut doc, data, "2024-01-01 12:00:01"), Some(26));
    // no line before the last has reached it: the start of the last line
    assert_eq!(jump(&mut doc, data, "12:00:07"), Some(52));
    assert_eq!(jump(&mut doc, data, "2024-01-02 00:00"), Some(52));
    assert_eq!(jump(&mut doc, data, "2023-12-31 23:59"), Some(0));
}

#[test]
fn timestamp_jump_without_lines_or_timestamps() {
    let mut empty = open(b"");
    assert_eq!(jump(&mut empty, b"", "12:00"), Some(0));
    let mut single = open(b"2024-01-01 12:00:00 only line");
    assert_eq!(jump(&mut single, b"2024-01-01 12:00:00 only line", "13:00"), Some(0));
    let data = b"no timestamps\nin this file\nat all";
    let mut plain = open(data);
    assert_eq!(jump(&mut plain, data, "12:00"), None);
    assert_eq!(plain.log_timestamp_format, None);
    assert_eq!(plain.log_default_date, None);
}

#[test]
fn timestamp_jump_in_many_chunks() {
    let mut data: Vec<u8> = Vec::new();
    let mut starts: Vec<usize> = Vec::new();
    for hour in 10..13 {
        for minute in 0..60 {
            for second in 0..60 {
                starts.push(data.len());
                data.extend_from_slice(
                    format!(
                        "[2024-03-04 {:02}:{:02}:{:02}] entry {}\n",
                        hour,
                        minute,
                        second,
                        starts.len()
                    )
                    .as_bytes(),
                );
            }
        }
    }
    data.extend_from_slice(b"[2024-03-04 13:00:00] end");
    assert!(data.len() > 4 * 65536);
    let mut doc = open(&data);
    assert_eq!(jump(&mut doc, &data, "10:00:00"), Some(0));
    assert_eq!(jump(&mut doc, &data, "10:30:30"), Some(starts[30 * 60 + 30]));
    assert_eq!(jump(&mut doc, &data, "11:59:59"), Some(starts[2 * 3600 - 1]));
    assert_eq!(
        jump(&mut doc, &data, "2024-03-04 12:07:08"),
        Some(starts[2 * 3600 + 7 * 60 + 8])
    );
    assert_eq!(jump(&mut doc, &data, "09:00"), Some(0));
    assert_eq!(
        doc.log_timestamp_format,
        Some(LOG_TIMESTAMP_FORMAT_BRACKETED.to_string())
    );
    assert!(doc.chunks.len() > 1);
}

#[test]
fn timestamp_jump_finds_the_first_line_that_has_reached_it() {
    // several lines share the second that is looked for
    let data = b"2024-01-01 12:00:00 a\n2024-01-01 12:00:05 b\n2024-01-01 12:00:05 c\n2024-01-01 12:00:05 d\n2024-01-01 12:00:09 e\nlast";
    let mut doc = open(data);
    assert_eq!(jump(&mut doc, data, "12:00:05"), Some(22));
    assert_eq!(jump(&mut doc, data, "12:00:06"), Some(88));
    assert_eq!(jump(&mut doc, data, "12:00:09"), Some(88));
    assert_eq!(jump(&mut doc, data, "12:00:10"), Some(110));
    assert_eq!(doc.last_line_start_offset(), 110);
    // a fraction of a second counts
    let data = b"2024-01-01 12:00:00.100 a\n2024-01-01 12:00:00.200 b\n2024-01-01 12:00:00.300 c\nz";
    let mut doc = open(data);
    assert_eq!(jump(&mut doc, data, "12:00:00.15"), Some(26));
    assert_eq!(jump(&mut doc, data, "12:00:00.2"), Some(26));
    assert_eq!(jump(&mut doc, data, "12:00:00.2000001"), Some(52));
}

#[test]
fn timestamp_format_is_that_of_the_first_stamped_row() {
    let data = b"no stamp here\n[2024-05-06 01:02:03] first\n2024-05-07 01:02:04 second\nend";
    let mut doc = open(data);
    doc.load_log_timestamp_format_and_default_date();
    assert_eq!(
        doc.log_timestamp_format,
        Some(LOG_TIMESTAMP_FORMAT_BRACKETED.to_string())
    );
    assert_eq!(doc.log_default_date, date(2024, 5, 6));
    // only the first hundred rows are looked at
    let mut late: Vec<u8> = Vec::new();
    for _ in 0..100 {
        late.extend_from_slice(b"plain\n");
    }
    late.extend_from_slice(b"2024-05-07 01:02:04 stamped\nend");
    let mut doc = open(&late);
    assert_eq!(jump(&mut doc, &late, "01:00"), None);
    assert_eq!(doc.log_timestamp_format, None);
    late.drain(..6);
    let mut doc = open(&late);
    assert_eq!(jump(&mut doc, &late, "01:00"), Some(99 * 6));
    assert_eq!(
        doc.log_timestamp_format,
        Some(LOG_TIMESTAMP_FORMAT_PLAIN.to_string())
    );
}

#[test]
fn timestamp_jump_gives_up_at_lines_without_timestamps() {
    // the halving lands on a line without timestamp that ends at its bound
    let data = b"2024-01-01 12:00:00 a\na line without any timestamp that is long\nend";
    let mut doc = open(data);
    assert_eq!(doc.last_line_start_offset(), 64);
    assert_eq!(jump(&mut doc, data, "12:00:05"), None);
    // it lands on a line with one: the lines without count as early
    let data = b"2024-01-01 12:00:00 a line that is long enough\ncontinued\nend";
    let mut doc = open(data);
    assert_eq!(doc.last_line_start_offset(), 57);
    assert_eq!(jump(&mut doc, data, "12:00:05"), Some(57));
    assert_eq!(jump(&mut doc, data, "12:00:00"), Some(0));
    assert_eq!(
        doc.log_timestamp_format,
        Some(LOG_TIMESTAMP_FORMAT_PLAIN.to_string())
    );
}
