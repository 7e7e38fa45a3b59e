//! Calendar dates and times of day, and the clock and time zone of the machine.

use chrono::{Datelike, TimeZone, Timelike};
use vstd::prelude::*;

use crate::text;

verus! {

/// The first year of the calendar.
pub const FIRST_YEAR: i32 = -262_143;

/// The last year of the calendar.
pub const LAST_YEAR: i32 = 262_142;

/// The longest span, in days, that can be compared with the age of an item.
pub const MAX_SPAN_DAYS: i64 = 106_751_991_167;

/// A date and a time of day. A leap second is the second 59 with a `nanosecond` of
/// one milliard or more.
#[derive(Clone, Copy, Debug, PartialEq, Eq)]
pub struct CivilTime {
    pub year: i32,
    pub month: u32,
    pub day: u32,
    pub hour: u32,
    pub minute: u32,
    pub second: u32,
    pub nanosecond: u32,
}

/// A point in time: the date and time on the wall, and by how many seconds the wall
/// clock is ahead of UTC.
#[derive(Clone, Copy, Debug, PartialEq, Eq)]
pub struct LocalTime {
    pub civil: CivilTime,
    pub utc_offset: i32,
}

/// Leap years of the Gregorian calendar.
pub open spec fn is_leap_year(year: int) -> bool {
    year % 4 == 0 && (year % 100 != 0 || year % 400 == 0)
}

/// The number of days of a month.
pub open spec fn days_in_month(year: int, month: int) -> int {
    if month == 2 {
        if is_leap_year(year) {
            29
        } else {
            28
        }
    } else if month == 4 || month == 6 || month == 9 || month == 11 {
        30
    } else {
        31
    }
}

/// The number of days of `year` before the first of `month`.
pub open spec fn days_before_month(year: int, month: int) -> int
    decreases month,
{
    if month <= 1 {
        0
    } else {
        days_before_month(year, month - 1) + days_in_month(year, month - 1)
    }
}

/// The number of a day, counted from the first day of the year 1 as number one.
pub open spec fn day_number(year: int, month: int, day: int) -> int {
    let past = year - 1;
    365 * past + past / 4 - past / 100 + past / 400 + days_before_month(year, month) + day
}

impl CivilTime {
    /// The date exists, lies in the calendar's range, and so does the time of day.
    pub open spec fn valid(self) -> bool {
        &&& FIRST_YEAR <= self.year <= LAST_YEAR
        &&& 1 <= self.month <= 12
        &&& 1 <= self.day <= days_in_month(self.year as int, self.month as int)
        &&& self.hour < 24
        &&& self.minute < 60
        &&& self.second < 60
        &&& self.nanosecond < 2_000_000_000
        &&& self.nanosecond >= 1_000_000_000 ==> self.second == 59
    }

    /// The time without the part of a second; a leap second stays one.
    pub open spec fn whole_second(self) -> CivilTime {
        CivilTime {
            nanosecond: if self.nanosecond >= 1_000_000_000 {
                1_000_000_000
            } else {
                0
            },
            ..self
        }
    }

    /// The seconds from the day before the first of the year 1 to this time.
    pub open spec fn wall_seconds(self) -> int {
        day_number(self.year as int, self.month as int, self.day as int) * 86_400 + self.hour
            * 3600 + self.minute * 60 + self.second
    }
}

impl LocalTime {
    /// The seconds from the day before the first of the year 1, UTC, to this time.
    pub open spec fn utc_seconds(self) -> int {
        self.civil.wall_seconds() - self.utc_offset
    }

    /// The wall time is valid, the offset is less than a day, and the UTC time too
    /// lies in the calendar's range.
    pub open spec fn wf(self) -> bool {
        &&& self.civil.valid()
        &&& -86_400 < self.utc_offset < 86_400
        &&& day_number(FIRST_YEAR as int, 1, 1) * 86_400 <= self.utc_seconds()
        &&& self.utc_seconds() < (day_number(LAST_YEAR as int, 12, 31) + 1) * 86_400
    }
}

/// The nanoseconds from `then` to `now`. A leap second counts where it lies at the one
/// end or the other and earlier in its day than the other end in its own.
pub open spec fn elapsed_nanos(now: LocalTime, then: LocalTime) -> int {
    let a = now.utc_seconds();
    let b = then.utc_seconds();
    let leap: int = if a % 86_400 > b % 86_400 && then.civil.nanosecond >= 1_000_000_000 {
        1
    } else if a % 86_400 < b % 86_400 && now.civil.nanosecond >= 1_000_000_000 {
        -1
    } else {
        0
    };
    (a - b + leap) * 1_000_000_000 + now.civil.nanosecond - then.civil.nanosecond
}

/// A year: four digits, more where needed; with its sign outside the years 0 to 9999.
pub open spec fn year_text(year: int) -> Seq<char> {
    if 0 <= year <= 9999 {
        text::zero_padded(year as nat, 4)
    } else if year > 9999 {
        seq!['+'] + text::zero_padded(year as nat, 4)
    } else {
        seq!['-'] + text::zero_padded((-year) as nat, 4)
    }
}

/// What the specifier `%c` of a format stands for.
pub open spec fn format_field(c: char, t: CivilTime) -> Seq<char> {
    if c == 'Y' {
        year_text(t.year as int)
    } else if c == 'm' {
        text::zero_padded(t.month as nat, 2)
    } else if c == 'd' {
        text::zero_padded(t.day as nat, 2)
    } else if c == 'H' {
        text::zero_padded(t.hour as nat, 2)
    } else if c == 'M' {
        text::zero_padded(t.minute as nat, 2)
    } else {
        text::zero_padded((t.second + t.nanosecond / 1_000_000_000) as nat, 2)
    }
}

/// From position `i` on, each `%` of `format` begins one of the specifiers `%Y`, `%m`,
/// `%d`, `%H`, `%M`, `%S`.
pub open spec fn plain_format(format: Seq<char>, i: int) -> bool
    decreases format.len() - i,
{
    if i >= format.len() {
        true
    } else if format[i] == '%' {
        &&& i + 1 < format.len()
        &&& seq!['Y', 'm', 'd', 'H', 'M', 'S'].contains(format[i + 1])
        &&& plain_format(format, i + 2)
    } else {
        plain_format(format, i + 1)
    }
}

/// `t` written by `format`, from position `i` of the format on.
pub open spec fn formatted(format: Seq<char>, i: int, t: CivilTime) -> Seq<char>
    decreases format.len() - i,
{
    if i >= format.len() {
        Seq::empty()
    } else if format[i] == '%' && i + 1 < format.len() {
        format_field(format[i + 1], t) + formatted(format, i + 2, t)
    } else {
        seq![format[i]] + formatted(format, i + 1, t)
    }
}

/// The formats of the log, of the captures' names and of the window use the plain
/// specifiers only.
pub proof fn lemma_plain_formats()
    ensures
        plain_format(log_time_format(), 0),
        plain_format("%Y%m%d_%H%M%S"@, 0),
        plain_format("%d.%m"@, 0),
        plain_format("%d.%m.%Y"@, 0),
        plain_format("%d.%m %H:%M:%S"@, 0),
{
    reveal_strlit("%Y-%m-%d %H:%M:%S");
    reveal_strlit("%Y%m%d_%H%M%S");
    reveal_strlit("%d.%m");
    reveal_strlit("%d.%m.%Y");
    reveal_strlit("%d.%m %H:%M:%S");
    reveal_with_fuel(plain_format, 18);
    let s = seq!['Y', 'm', 'd', 'H', 'M', 'S'];
    assert(s[0] == 'Y' && s[1] == 'm' && s[2] == 'd' && s[3] == 'H' && s[4] == 'M' && s[5] == 'S');
}

/// What [`chrono::NaiveDateTime::parse_from_str`] reads from a text by a format.
pub uninterp spec fn parsed_time(s: Seq<char>, format: Seq<char>) -> Option<CivilTime>;

/// The format of the times in the log.
pub open spec fn log_time_format() -> Seq<char> {
    "%Y-%m-%d %H:%M:%S"@
}

/// `s` reads back: if it is a valid time in the log's format, parsing it gives that
/// time to the second.
pub open spec fn reads_back(s: Seq<char>) -> bool {
    forall|t: CivilTime|
        t.valid() && s == #[trigger] formatted(log_time_format(), 0, t) ==> parsed_time(
            s,
            log_time_format(),
        ) == Some(t.whole_second())
}

/// [`chrono::NaiveDateTime::format`], written to a string: the numeric specifiers are
/// zero-padded decimals, `%S` counts a leap second as 60, and all else stands for
/// itself.
#[verifier::external_body]
pub(crate) fn format_time(t: &CivilTime, format: &str) -> (s: String)
    requires
        t.valid(),
        plain_format(format@, 0),
    ensures
        s@ == formatted(format@, 0, *t),
{
    let date = chrono::NaiveDate::from_ymd_opt(t.year, t.month, t.day).unwrap();
    let time = date.and_hms_nano_opt(t.hour, t.minute, t.second, t.nanosecond).unwrap();
    time.format(format).to_string()
}

/// [`chrono::NaiveDateTime::parse_from_str`], by a format of the numeric specifiers: the
/// result depends on the two texts alone, is a time that exists, and reads back a time
/// in the log's format. Which other texts it accepts is left unsaid.
#[verifier::external_body]
pub(crate) fn parse_time(s: &str, format: &str) -> (r: Option<CivilTime>)
    requires
        plain_format(format@, 0),
    ensures
        r == parsed_time(s@, format@),
        r matches Some(t) ==> t.valid(),
        forall|t: CivilTime|
            t.valid() && format@ == log_time_format() && s@ == #[trigger] formatted(format@, 0, t)
                ==> r == Some(t.whole_second()),
{
    match chrono::NaiveDateTime::parse_from_str(s, format) {
        Ok(t) => Some(
            CivilTime {
                year: t.year(),
                month: t.month(),
                day: t.day(),
                hour: t.hour(),
                minute: t.minute(),
                second: t.second(),
                nanosecond: t.nanosecond(),
            },
        ),
        Err(_) => None,
    }
}

/// [`chrono::Local::now`]: some point in time.
#[verifier::external_body]
fn local_now() -> (now: LocalTime)
    ensures
        now.wf(),
{
    let t = chrono::Local::now();
    LocalTime {
        civil: CivilTime {
            year: t.year(),
            month: t.month(),
            day: t.day(),
            hour: t.hour(),
            minute: t.minute(),
            second: t.second(),
            nanosecond: t.nanosecond(),
        },
        utc_offset: t.offset().local_minus_utc(),
    }
}

/// [`chrono::TimeZone::from_local_datetime`] of [`chrono::Local`], where it gives a
/// single result: a point in time at which the wall clock shows `t`. Whether there is
/// one, and its offset, rest on the machine's time zone.
#[verifier::external_body]
fn resolve_local(t: &CivilTime) -> (r: Option<LocalTime>)
    requires
        t.valid(),
    ensures
        r matches Some(l) ==> l.wf() && l.civil == *t,
{
    let date = chrono::NaiveDate::from_ymd_opt(t.year, t.month, t.day).unwrap();
    let time = date.and_hms_nano_opt(t.hour, t.minute, t.second, t.nanosecond).unwrap();
    match chrono::Local.from_local_datetime(&time).single() {
        Some(l) => Some(LocalTime { civil: *t, utc_offset: l.offset().local_minus_utc() }),
        None => None,
    }
}

/// The difference of two [`chrono::DateTime`]s, compared with
/// [`chrono::Duration::days`]: whether fewer than `days` days of 24 hours lie between
/// `then` and `now`.
#[verifier::external_body]
pub(crate) fn is_within_days(now: &LocalTime, then: &LocalTime, days: i64) -> (r: bool)
    requires
        now.wf(),
        then.wf(),
        -MAX_SPAN_DAYS <= days <= MAX_SPAN_DAYS,
    ensures
        r == (elapsed_nanos(*now, *then) < days * 86_400_000_000_000),
{
    let (n, t) = (now.civil, then.civil);
    let a = chrono::FixedOffset::east_opt(now.utc_offset).unwrap().from_local_datetime(
        &chrono::NaiveDate::from_ymd_opt(n.year, n.month, n.day).unwrap()
            .and_hms_nano_opt(n.hour, n.minute, n.second, n.nanosecond).unwrap(),
    ).unwrap();
    let b = chrono::FixedOffset::east_opt(then.utc_offset).unwrap().from_local_datetime(
        &chrono::NaiveDate::from_ymd_opt(t.year, t.month, t.day).unwrap()
            .and_hms_nano_opt(t.hour, t.minute, t.second, t.nanosecond).unwrap(),
    ).unwrap();
    (a - b) < chrono::Duration::days(days)
}

/// `now` is what a look at the machine's clock gave.
pub closed spec fn is_present(now: LocalTime) -> bool {
    call_ensures(local_now, (), now)
}

/// `r` is what looking up `t` in the machine's time zone gave.
pub closed spec fn is_resolution_of(t: CivilTime, r: Option<LocalTime>) -> bool {
    call_ensures(resolve_local, (&t,), r)
}

/// The present time, by the machine's clock.
pub(crate) fn present_time() -> (now: LocalTime)
    ensures
        is_present(now),
        now.wf(),
{
    local_now()
}

/// The point in time at which the wall clock shows `t`, by the machine's time zone, if
/// there is just one.
pub(crate) fn resolve_time(t: &CivilTime) -> (r: Option<LocalTime>)
    requires
        t.valid(),
    ensures
        is_resolution_of(*t, r),
        r matches Some(l) ==> l.wf() && l.civil == *t,
{
    resolve_local(t)
}

/// A present time is one that the clock itself gave, and a resolution one that the time
/// zone itself gave.
proof fn law_clock_and_zone(now: LocalTime, t: CivilTime, r: Option<LocalTime>)
    ensures
        is_present(now) ==> call_ensures(local_now, (), now) && now.wf(),
        is_resolution_of(t, r) ==> call_ensures(resolve_local, (&t,), r) && (
        r matches Some(l) ==> l.wf() && l.civil == t),
{
}

/// The seconds of a time as they are shown: a leap second is the second 60.
pub open spec fn shown_second(t: CivilTime) -> nat {
    (t.second + t.nanosecond / 1_000_000_000) as nat
}

/// Day and month as they are shown, such as `09.03`.
pub open spec fn day_month(t: CivilTime) -> Seq<char> {
    text::zero_padded(t.day as nat, 2) + seq!['.'] + text::zero_padded(t.month as nat, 2)
}

/// Hour, minute and second as they are shown, such as `08:05:07`.
pub open spec fn clock_face(t: CivilTime) -> Seq<char> {
    text::zero_padded(t.hour as nat, 2) + seq![':'] + text::zero_padded(t.minute as nat, 2) + seq![
        ':',
    ] + text::zero_padded(shown_second(t), 2)
}

/// The formats of the window.
proof fn lemma_short_formats(t: CivilTime)
    ensures
        formatted("%d.%m"@, 0, t) == day_month(t),
        formatted("%d.%m.%Y"@, 0, t) == day_month(t) + seq!['.'] + year_text(t.year as int),
        formatted("%d.%m %H:%M:%S"@, 0, t) == day_month(t) + seq![' '] + clock_face(t),
{
    reveal_strlit("%d.%m");
    reveal_strlit("%d.%m.%Y");
    reveal_strlit("%d.%m %H:%M:%S");
    let f = "%d.%m"@;
    assert(formatted(f, 5, t) == Seq::<char>::empty());
    assert(formatted(f, 3, t) == text::zero_padded(t.month as nat, 2) + formatted(f, 5, t));
    assert(formatted(f, 2, t) == seq!['.'] + formatted(f, 3, t));
    assert(formatted(f, 0, t) == text::zero_padded(t.day as nat, 2) + formatted(f, 2, t));
    let f = "%d.%m.%Y"@;
    assert(formatted(f, 8, t) == Seq::<char>::empty());
    assert(formatted(f, 6, t) == year_text(t.year as int) + formatted(f, 8, t));
    assert(formatted(f, 5, t) == seq!['.'] + formatted(f, 6, t));
    assert(formatted(f, 3, t) == text::zero_padded(t.month as nat, 2) + formatted(f, 5, t));
    assert(formatted(f, 2, t) == seq!['.'] + formatted(f, 3, t));
    assert(formatted(f, 0, t) == text::zero_padded(t.day as nat, 2) + formatted(f, 2, t));
    let f = "%d.%m %H:%M:%S"@;
    assert(formatted(f, 14, t) == Seq::<char>::empty());
    assert(formatted(f, 12, t) == text::zero_padded(shown_second(t), 2) + formatted(f, 14, t));
    assert(formatted(f, 11, t) == seq![':'] + formatted(f, 12, t));
    assert(formatted(f, 9, t) == text::zero_padded(t.minute as nat, 2) + formatted(f, 11, t));
    assert(formatted(f, 8, t) == seq![':'] + formatted(f, 9, t));
    assert(formatted(f, 6, t) == text::zero_padded(t.hour as nat, 2) + formatted(f, 8, t));
    assert(formatted(f, 5, t) == seq![' '] + formatted(f, 6, t));
    assert(formatted(f, 3, t) == text::zero_padded(t.month as nat, 2) + formatted(f, 5, t));
    assert(formatted(f, 2, t) == seq!['.'] + formatted(f, 3, t));
    assert(formatted(f, 0, t) == text::zero_padded(t.day as nat, 2) + formatted(f, 2, t));
}

/// The format of the log.
proof fn lemma_log_format(t: CivilTime)
    ensures
        formatted(log_time_format(), 0, t) == year_text(t.year as int) + seq!['-']
            + text::zero_padded(t.month as nat, 2) + seq!['-'] + text::zero_padded(t.day as nat, 2)
            + seq![' '] + clock_face(t),
{
    reveal_strlit("%Y-%m-%d %H:%M:%S");
    let f = log_time_format();
    assert(formatted(f, 9, t) == clock_face(t)) by {
        assert(formatted(f, 17, t) == Seq::<char>::empty());
        assert(formatted(f, 15, t) == text::zero_padded(shown_second(t), 2) + formatted(f, 17, t));
        assert(formatted(f, 14, t) == seq![':'] + formatted(f, 15, t));
        assert(formatted(f, 12, t) == text::zero_padded(t.minute as nat, 2) + formatted(f, 14, t));
        assert(formatted(f, 11, t) == seq![':'] + formatted(f, 12, t));
        assert(formatted(f, 9, t) == text::zero_padded(t.hour as nat, 2) + formatted(f, 11, t));
    }
    let date = text::zero_padded(t.day as nat, 2) + seq![' '] + clock_face(t);
    assert(formatted(f, 6, t) == date) by {
        assert(formatted(f, 8, t) == seq![' '] + formatted(f, 9, t));
        assert(formatted(f, 6, t) == text::zero_padded(t.day as nat, 2) + formatted(f, 8, t));
    }
    assert(formatted(f, 5, t) == seq!['-'] + formatted(f, 6, t));
    assert(formatted(f, 3, t) == text::zero_padded(t.month as nat, 2) + formatted(f, 5, t));
    assert(formatted(f, 2, t) == seq!['-'] + formatted(f, 3, t));
    assert(formatted(f, 0, t) == year_text(t.year as int) + formatted(f, 2, t));
}

/// The format of the captures' names.
proof fn lemma_capture_format(t: CivilTime)
    ensures
        formatted("%Y%m%d_%H%M%S"@, 0, t) == year_text(t.year as int) + text::zero_padded(
            t.month as nat,
            2,
        ) + text::zero_padded(t.day as nat, 2) + seq!['_'] + text::zero_padded(t.hour as nat, 2)
            + text::zero_padded(t.minute as nat, 2) + text::zero_padded(shown_second(t), 2),
{
    reveal_strlit("%Y%m%d_%H%M%S");
    let f = "%Y%m%d_%H%M%S"@;
    assert(formatted(f, 13, t) == Seq::<char>::empty());
    assert(formatted(f, 11, t) == text::zero_padded(shown_second(t), 2) + formatted(f, 13, t));
    assert(formatted(f, 9, t) == text::zero_padded(t.minute as nat, 2) + formatted(f, 11, t));
    assert(formatted(f, 7, t) == text::zero_padded(t.hour as nat, 2) + formatted(f, 9, t));
    assert(formatted(f, 6, t) == seq!['_'] + formatted(f, 7, t));
    assert(formatted(f, 4, t) == text::zero_padded(t.day as nat, 2) + formatted(f, 6, t));
    assert(formatted(f, 2, t) == text::zero_padded(t.month as nat, 2) + formatted(f, 4, t));
    assert(formatted(f, 0, t) == year_text(t.year as int) + formatted(f, 2, t));
}

/// What the formats of the program write.
pub proof fn law_formats(t: CivilTime)
    ensures
        formatted("%d.%m"@, 0, t) == day_month(t),
        formatted("%d.%m.%Y"@, 0, t) == day_month(t) + seq!['.'] + year_text(t.year as int),
        formatted("%d.%m %H:%M:%S"@, 0, t) == day_month(t) + seq![' '] + clock_face(t),
        formatted(log_time_format(), 0, t) == year_text(t.year as int) + seq!['-']
            + text::zero_padded(t.month as nat, 2) + seq!['-'] + text::zero_padded(t.day as nat, 2)
            + seq![' '] + clock_face(t),
        formatted("%Y%m%d_%H%M%S"@, 0, t) == year_text(t.year as int) + text::zero_padded(
            t.month as nat,
            2,
        ) + text::zero_padded(t.day as nat, 2) + seq!['_'] + text::zero_padded(t.hour as nat, 2)
            + text::zero_padded(t.minute as nat, 2) + text::zero_padded(shown_second(t), 2),
{
    lemma_short_formats(t);
    lemma_log_format(t);
    lemma_capture_format(t);
}

} // verus!
