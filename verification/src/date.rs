//! Calendar dates and timestamps, held as plain numbers, and their text form
//! `YYYYMMDDTHHMMSS`.

use crate::text::{all_digits, digit_char, digit_value, digits_value, is_digit};
use chrono::{Datelike, Timelike};
use vstd::prelude::*;

verus! {

/// The earliest year a date can have.
pub const MIN_YEAR: i32 = -262143;

/// The latest year a date can have.
pub const MAX_YEAR: i32 = 262142;

/// The nanoseconds in one second. A timestamp whose nanoseconds reach this
/// number stands within a leap second.
pub const NANOS_PER_SECOND: u32 = 1_000_000_000;

/// Whether `year` has a 29th of February in the proleptic Gregorian calendar.
pub open spec fn is_leap_year(year: int) -> bool {
    year % 4 == 0 && (year % 100 != 0 || year % 400 == 0)
}

/// The number of days of `month` in `year`; zero where `month` is no month.
pub open spec fn days_in_month(year: int, month: int) -> int {
    if month == 2 {
        if is_leap_year(year) {
            29
        } else {
            28
        }
    } else if month == 4 || month == 6 || month == 9 || month == 11 {
        30
    } else if 1 <= month <= 12 {
        31
    } else {
        0
    }
}

/// A day of the proleptic Gregorian calendar, as a mathematical value.
pub struct DateView {
    pub year: int,
    pub month: int,
    pub day: int,
}

impl DateView {
    /// Whether the day exists and its year is one a date can have.
    pub open spec fn is_valid(self) -> bool {
        &&& MIN_YEAR <= self.year <= MAX_YEAR
        &&& 1 <= self.month <= 12
        &&& 1 <= self.day <= days_in_month(self.year, self.month)
    }

    /// Whether the day comes before `other`.
    pub open spec fn is_before(self, other: DateView) -> bool {
        ||| self.year < other.year
        ||| self.year == other.year && self.month < other.month
        ||| self.year == other.year && self.month == other.month && self.day < other.day
    }

    /// The first instant of the day.
    pub open spec fn midnight(self) -> TimestampView {
        TimestampView { date: self, hour: 0, minute: 0, second: 0, nanosecond: 0 }
    }
}

/// A day of the proleptic Gregorian calendar. Every value is a day that exists.
#[derive(Clone, Copy, Debug, PartialEq, Eq)]
pub struct Date {
    year: i32,
    month: u32,
    day: u32,
}

impl View for Date {
    type V = DateView;

    closed spec fn view(&self) -> DateView {
        DateView { year: self.year as int, month: self.month as int, day: self.day as int }
    }
}

impl Date {
    #[verifier::type_invariant]
    spec fn inv(self) -> bool {
        self@.is_valid()
    }

    /// The date of the given year, month and day, if that day exists.
    pub fn new(year: i32, month: u32, day: u32) -> (r: Option<Date>)
        ensures
            r is Some <==> (DateView {
                year: year as int,
                month: month as int,
                day: day as int,
            }).is_valid(),
            r matches Some(d) ==> d@ == (DateView {
                year: year as int,
                month: month as int,
                day: day as int,
            }),
    {
        if year < MIN_YEAR || year > MAX_YEAR || month < 1 || month > 12 || day < 1 {
            return None;
        }
        // A multiple of 400 years makes the year positive and leaves leap years leap.
        let shifted: u32 = (year + 262400) as u32;
        let leap = shifted % 4 == 0 && (shifted % 100 != 0 || shifted % 400 == 0);
        let days: u32 = if month == 2 {
            if leap {
                29
            } else {
                28
            }
        } else if month == 4 || month == 6 || month == 9 || month == 11 {
            30
        } else {
            31
        };
        if day > days {
            return None;
        }
        Some(Date { year, month, day })
    }

    /// The year.
    pub fn year(&self) -> (y: i32)
        ensures
            y == self@.year,
            self@.is_valid(),
    {
        proof {
            use_type_invariant(self);
        }
        self.year
    }

    /// The month, from 1 to 12.
    pub fn month(&self) -> (m: u32)
        ensures
            m == self@.month,
            self@.is_valid(),
    {
        proof {
            use_type_invariant(self);
        }
        self.month
    }

    /// The day of the month, from 1.
    pub fn day(&self) -> (d: u32)
        ensures
            d == self@.day,
            self@.is_valid(),
    {
        proof {
            use_type_invariant(self);
        }
        self.day
    }

    /// Whether this day comes before `other`.
    pub fn is_before(&self, other: &Date) -> (b: bool)
        ensures
            b == self@.is_before(other@),
    {
        self.year < other.year || (self.year == other.year && (self.month < other.month || (
        self.month == other.month && self.day < other.day)))
    }

    /// The first instant of this day.
    pub fn midnight(&self) -> (t: Timestamp)
        ensures
            t@ == self@.midnight(),
    {
        proof {
            use_type_invariant(self);
        }
        Timestamp { date: *self, hour: 0, minute: 0, second: 0, nanosecond: 0 }
    }
}

/// A date with a time of day, as a mathematical value.
pub struct TimestampView {
    pub date: DateView,
    pub hour: int,
    pub minute: int,
    pub second: int,
    pub nanosecond: int,
}

impl TimestampView {
    /// Whether the date exists and the time is a time of day. Within a leap
    /// second the second is 59 and the nanoseconds are a second or more.
    pub open spec fn is_valid(self) -> bool {
        &&& self.date.is_valid()
        &&& 0 <= self.hour < 24
        &&& 0 <= self.minute < 60
        &&& 0 <= self.second < 60
        &&& 0 <= self.nanosecond < 2 * NANOS_PER_SECOND
        &&& self.nanosecond >= NANOS_PER_SECOND ==> self.second == 59
    }

    /// The second as it is written: 60 within a leap second.
    pub open spec fn written_second(self) -> int {
        if self.nanosecond >= NANOS_PER_SECOND {
            self.second + 1
        } else {
            self.second
        }
    }

    /// The timestamp without its fraction of a second.
    pub open spec fn whole_second(self) -> TimestampView {
        TimestampView {
            nanosecond: if self.nanosecond >= NANOS_PER_SECOND {
                NANOS_PER_SECOND as int
            } else {
                0
            },
            ..self
        }
    }

    /// Whether the year is written with four digits and no sign.
    pub open spec fn has_plain_year(self) -> bool {
        0 <= self.date.year <= 9999
    }
}

/// The mathematical value of a timestamp that may be absent.
pub open spec fn view_of(t: Option<Timestamp>) -> Option<TimestampView> {
    match t {
        Some(t) => Some(t@),
        None => None,
    }
}

/// A date with a time of day. Every value is valid.
#[derive(Clone, Copy, Debug, PartialEq, Eq)]
pub struct Timestamp {
    date: Date,
    hour: u32,
    minute: u32,
    second: u32,
    nanosecond: u32,
}

impl View for Timestamp {
    type V = TimestampView;

    closed spec fn view(&self) -> TimestampView {
        TimestampView {
            date: self.date@,
            hour: self.hour as int,
            minute: self.minute as int,
            second: self.second as int,
            nanosecond: self.nanosecond as int,
        }
    }
}

impl Timestamp {
    #[verifier::type_invariant]
    spec fn inv(self) -> bool {
        self@.is_valid()
    }

    /// The timestamp of the given day and time of day, if that is a time of
    /// day. A leap second is given as second 59 with a second or more of
    /// nanoseconds.
    pub fn new(date: Date, hour: u32, minute: u32, second: u32, nanosecond: u32) -> (r: Option<
        Timestamp,
    >)
        ensures
            r is Some <==> (TimestampView {
                date: date@,
                hour: hour as int,
                minute: minute as int,
                second: second as int,
                nanosecond: nanosecond as int,
            }).is_valid(),
            r matches Some(t) ==> t@ == (TimestampView {
                date: date@,
                hour: hour as int,
                minute: minute as int,
                second: second as int,
                nanosecond: nanosecond as int,
            }),
    {
        proof {
            use_type_invariant(&date);
        }
        if hour >= 24 || minute >= 60 || second >= 60 || nanosecond >= 2 * NANOS_PER_SECOND || (nanosecond
            >= NANOS_PER_SECOND && second != 59) {
            return None;
        }
        Some(Timestamp { date, hour, minute, second, nanosecond })
    }

    /// The day.
    pub fn date(&self) -> (d: Date)
        ensures
            d@ == self@.date,
    {
        self.date
    }

    /// The hour, from 0 to 23.
    pub fn hour(&self) -> (h: u32)
        ensures
            h == self@.hour,
            self@.is_valid(),
    {
        proof {
            use_type_invariant(self);
        }
        self.hour
    }

    /// The minute, from 0 to 59.
    pub fn minute(&self) -> (m: u32)
        ensures
            m == self@.minute,
            self@.is_valid(),
    {
        proof {
            use_type_invariant(self);
        }
        self.minute
    }

    /// The second, from 0 to 59.
    pub fn second(&self) -> (s: u32)
        ensures
            s == self@.second,
            self@.is_valid(),
    {
        proof {
            use_type_invariant(self);
        }
        self.second
    }

    /// The nanoseconds since the second began; a second or more within a
    /// leap second.
    pub fn nanosecond(&self) -> (n: u32)
        ensures
            n == self@.nanosecond,
            self@.is_valid(),
    {
        proof {
            use_type_invariant(self);
        }
        self.nanosecond
    }
}

/// `n`, below a hundred, in two digits.
pub open spec fn two_digits(n: int) -> Seq<char> {
    seq![digit_char(n / 10), digit_char(n % 10)]
}

/// `n`, below ten thousand, in four digits.
pub open spec fn four_digits(n: int) -> Seq<char> {
    seq![
        digit_char(n / 1000),
        digit_char(n / 100 % 10),
        digit_char(n / 10 % 10),
        digit_char(n % 10),
    ]
}

/// The text `YYYYMMDDTHHMMSS` of a timestamp whose year has four digits.
pub open spec fn plain_timestamp_text(t: TimestampView) -> Seq<char> {
    four_digits(t.date.year) + two_digits(t.date.month) + two_digits(t.date.day) + seq!['T']
        + two_digits(t.hour) + two_digits(t.minute) + two_digits(t.written_second())
}

/// The timestamp that a text of the shape `YYYYMMDDTHHMMSS` denotes: fifteen
/// characters, all digits but the `T`, that give a valid date and time.
/// Second 60 denotes a leap second.
pub open spec fn plain_timestamp_value(s: Seq<char>) -> Option<TimestampView> {
    if s.len() == 15 && s[8] == 'T' && all_digits(s.subrange(0, 8)) && all_digits(
        s.subrange(9, 15),
    ) {
        let second = digits_value(s.subrange(13, 15));
        let t = TimestampView {
            date: DateView {
                year: digits_value(s.subrange(0, 4)),
                month: digits_value(s.subrange(4, 6)),
                day: digits_value(s.subrange(6, 8)),
            },
            hour: digits_value(s.subrange(9, 11)),
            minute: digits_value(s.subrange(11, 13)),
            second: if second == 60 {
                59
            } else {
                second
            },
            nanosecond: if second == 60 {
                NANOS_PER_SECOND as int
            } else {
                0
            },
        };
        if t.is_valid() {
            Some(t)
        } else {
            None
        }
    } else {
        None
    }
}

/// What chrono writes for a timestamp under the format `%Y%m%dT%H%M%S`.
pub uninterp spec fn chrono_timestamp_text(t: TimestampView) -> Seq<char>;

/// What chrono reads from a text under the format `%Y%m%dT%H%M%S`.
pub uninterp spec fn chrono_timestamp_of_text(s: Seq<char>) -> Option<TimestampView>;

/// The text of a timestamp in a calendar file: `YYYYMMDDTHHMMSS` where the
/// year has four digits, and what chrono writes for other years.
pub open spec fn timestamp_text(t: TimestampView) -> Seq<char> {
    if t.has_plain_year() {
        plain_timestamp_text(t)
    } else {
        chrono_timestamp_text(t)
    }
}

/// The timestamp that a text in a calendar file denotes: that of the shape
/// `YYYYMMDDTHHMMSS` where the text has it, and what chrono reads otherwise.
pub open spec fn timestamp_of_text(s: Seq<char>) -> Option<TimestampView> {
    if plain_timestamp_value(s) is Some {
        plain_timestamp_value(s)
    } else {
        chrono_timestamp_of_text(s)
    }
}

/// Calls chrono's `NaiveDateTime::format` with `%Y%m%dT%H%M%S` and collects
/// what it displays. Trusted: the text is a function of the timestamp, and for
/// a year from 0 to 9999 it is four digits of year, two each of month and day,
/// the letter `T`, and two digits each of hour, minute and second, the second
/// written as 60 within a leap second.
#[verifier::external_body]
fn chrono_format(t: &Timestamp) -> (s: String)
    requires
        t@.is_valid(),
    ensures
        s@ == chrono_timestamp_text(t@),
        t@.has_plain_year() ==> s@ == plain_timestamp_text(t@),
{
    let date = chrono::NaiveDate::from_ymd_opt(t.date.year, t.date.month, t.date.day).unwrap();
    let time = date.and_hms_nano_opt(t.hour, t.minute, t.second, t.nanosecond).unwrap();
    time.format("%Y%m%dT%H%M%S").to_string()
}

/// Calls chrono's `NaiveDateTime::parse_from_str` with `%Y%m%dT%H%M%S`.
/// Trusted: the outcome is a function of the text; whatever is read is a
/// valid timestamp; and a text of exactly the shape `YYYYMMDDTHHMMSS` whose
/// numbers give a valid date and time is read as that timestamp.
#[verifier::external_body]
fn chrono_parse(s: &str) -> (r: Option<Timestamp>)
    ensures
        view_of(r) == chrono_timestamp_of_text(s@),
        r matches Some(t) ==> t@.is_valid(),
        plain_timestamp_value(s@) is Some ==> view_of(r) == plain_timestamp_value(s@),
{
    match chrono::NaiveDateTime::parse_from_str(s, "%Y%m%dT%H%M%S") {
        Ok(t) => Some(
            Timestamp {
                date: Date { year: t.year(), month: t.month(), day: t.day() },
                hour: t.hour(),
                minute: t.minute(),
                second: t.second(),
                nanosecond: t.nanosecond(),
            },
        ),
        Err(_) => None,
    }
}

/// Reads the clock through chrono's `Utc::now`. Trusted: what comes back is a
/// valid timestamp; nothing else is known of it.
#[verifier::external_body]
pub(crate) fn current_time() -> (t: Timestamp)
    ensures
        t@.is_valid(),
{
    let t = chrono::Utc::now().naive_utc();
    Timestamp {
        date: Date { year: t.year(), month: t.month(), day: t.day() },
        hour: t.hour(),
        minute: t.minute(),
        second: t.second(),
        nanosecond: t.nanosecond(),
    }
}

/// Writes a timestamp as it stands in a calendar file.
pub fn format_timestamp(t: &Timestamp) -> (s: String)
    ensures
        s@ == timestamp_text(t@),
{
    proof {
        use_type_invariant(t);
    }
    chrono_format(t)
}

/// Reads a timestamp as it stands in a calendar file.
pub fn parse_timestamp(s: &str) -> (r: Option<Timestamp>)
    ensures
        view_of(r) == timestamp_of_text(s@),
{
    chrono_parse(s)
}

/// Two digits written for a number below a hundred denote that number.
pub proof fn lemma_two_digits_value(n: int)
    requires
        0 <= n < 100,
    ensures
        two_digits(n).len() == 2,
        all_digits(two_digits(n)),
        digits_value(two_digits(n)) == n,
{
    let s = two_digits(n);
    assert(is_digit(s[0]) && is_digit(s[1]));
    let s1 = s.drop_last();
    assert(s1.len() == 1 && s1.last() == s[0]);
    assert(s1.drop_last().len() == 0);
    assert(digits_value(s1.drop_last()) == 0);
    assert(digits_value(s1) == digit_value(s[0]));
    assert(digit_value(s[0]) == n / 10);
    assert(digit_value(s[1]) == n % 10);
}

/// Four digits written for a number below ten thousand denote that number.
pub proof fn lemma_four_digits_value(n: int)
    requires
        0 <= n < 10000,
    ensures
        four_digits(n).len() == 4,
        all_digits(four_digits(n)),
        digits_value(four_digits(n)) == n,
{
    let s = four_digits(n);
    assert(is_digit(s[0]) && is_digit(s[1]) && is_digit(s[2]) && is_digit(s[3]));
    let s3 = s.drop_last();
    let s2 = s3.drop_last();
    let s1 = s2.drop_last();
    assert(s1.drop_last().len() == 0);
    assert(digits_value(s1.drop_last()) == 0);
    assert(s1.last() == s[0] && s2.last() == s[1] && s3.last() == s[2]);
    assert(digits_value(s1) == digit_value(s[0]));
    assert(digits_value(s2) == 10 * digits_value(s1) + digit_value(s[1]));
    assert(digits_value(s3) == 10 * digits_value(s2) + digit_value(s[2]));
    assert(digit_value(s[0]) == n / 1000);
    assert(digit_value(s[1]) == n / 100 % 10);
    assert(digit_value(s[2]) == n / 10 % 10);
    assert(digit_value(s[3]) == n % 10);
}

/// A timestamp whose year has four digits reads back from its text as
/// itself, to the second.
pub proof fn lemma_timestamp_text_reads_back(t: TimestampView)
    requires
        t.is_valid(),
        t.has_plain_year(),
    ensures
        plain_timestamp_value(timestamp_text(t)) == Some(t.whole_second()),
        timestamp_of_text(timestamp_text(t)) == Some(t.whole_second()),
{
    let s = plain_timestamp_text(t);
    lemma_four_digits_value(t.date.year);
    lemma_two_digits_value(t.date.month);
    lemma_two_digits_value(t.date.day);
    lemma_two_digits_value(t.hour);
    lemma_two_digits_value(t.minute);
    lemma_two_digits_value(t.written_second());
    assert(s.len() == 15);
    assert(s[8] == 'T');
    assert(s.subrange(0, 4) == four_digits(t.date.year));
    assert(s.subrange(4, 6) == two_digits(t.date.month));
    assert(s.subrange(6, 8) == two_digits(t.date.day));
    assert(s.subrange(9, 11) == two_digits(t.hour));
    assert(s.subrange(11, 13) == two_digits(t.minute));
    assert(s.subrange(13, 15) == two_digits(t.written_second()));
    assert(all_digits(s.subrange(0, 8))) by {
        assert forall|i: int| 0 <= i < 8 implies is_digit(#[trigger] s.subrange(0, 8)[i]) by {
            if i < 4 {
                assert(s[i] == four_digits(t.date.year)[i]);
            } else if i < 6 {
                assert(s[i] == two_digits(t.date.month)[i - 4]);
            } else {
                assert(s[i] == two_digits(t.date.day)[i - 6]);
            }
        }
    }
    assert(all_digits(s.subrange(9, 15))) by {
        assert forall|i: int| 0 <= i < 6 implies is_digit(#[trigger] s.subrange(9, 15)[i]) by {
            if i < 2 {
                assert(s[i + 9] == two_digits(t.hour)[i]);
            } else if i < 4 {
                assert(s[i + 9] == two_digits(t.minute)[i - 2]);
            } else {
                assert(s[i + 9] == two_digits(t.written_second())[i - 4]);
            }
        }
    }
    let back = plain_timestamp_value(s);
    assert(back == Some(t.whole_second()));
}

} // verus!
