//! Calendar dates and local date-times as plain numbers, read and printed by `chrono`.
use crate::etl::script::alias::lemma_nat_text;
use crate::text;
use chrono::{Datelike, NaiveDate, NaiveDateTime, Timelike};
use vstd::prelude::*;

verus! {

pub open spec fn is_leap_year(y: int) -> bool {
    y % 4 == 0 && (y % 100 != 0 || y % 400 == 0)
}

pub open spec fn days_in_month(y: int, m: int) -> int {
    if m == 2 {
        if is_leap_year(y) {
            29
        } else {
            28
        }
    } else if m == 4 || m == 6 || m == 9 || m == 11 {
        30
    } else {
        31
    }
}

/// A day of the proleptic Gregorian calendar, in the years that can be represented.
pub open spec fn is_day(y: int, m: int, d: int) -> bool {
    -262143 <= y <= 262142 && 1 <= m <= 12 && 1 <= d <= days_in_month(y, m)
}

/// A time of day; a leap second is second 59 with a second more of nanoseconds.
pub open spec fn is_time(h: int, mi: int, s: int, n: int) -> bool {
    &&& 0 <= h < 24
    &&& 0 <= mi < 60
    &&& 0 <= s < 60
    &&& 0 <= n < 2_000_000_000
    &&& n >= 1_000_000_000 ==> s == 59
}

pub struct DayView {
    pub year: int,
    pub month: int,
    pub day: int,
}

pub struct StampView {
    pub date: DayView,
    pub hour: int,
    pub minute: int,
    pub second: int,
    pub nano: int,
}

/// A calendar date.
#[derive(Debug, Clone, Copy, PartialEq, Eq)]
pub struct Day {
    year: i32,
    month: u32,
    day: u32,
}

/// A calendar date with a time of day, in no particular time zone.
#[derive(Debug, Clone, Copy, PartialEq, Eq)]
pub struct Stamp {
    date: Day,
    hour: u32,
    minute: u32,
    second: u32,
    nano: u32,
}

impl View for Day {
    type V = DayView;

    closed spec fn view(&self) -> DayView {
        DayView { year: self.year as int, month: self.month as int, day: self.day as int }
    }
}

impl View for Stamp {
    type V = StampView;

    closed spec fn view(&self) -> StampView {
        StampView {
            date: self.date@,
            hour: self.hour as int,
            minute: self.minute as int,
            second: self.second as int,
            nano: self.nano as int,
        }
    }
}

pub open spec fn day_ok(d: DayView) -> bool {
    is_day(d.year, d.month, d.day)
}

pub open spec fn stamp_ok(t: StampView) -> bool {
    day_ok(t.date) && is_time(t.hour, t.minute, t.second, t.nano)
}

/// The date at midnight.
pub open spec fn midnight(d: DayView) -> StampView {
    StampView { date: d, hour: 0, minute: 0, second: 0, nano: 0 }
}

/// The days of a year before a month.
pub open spec fn days_before_month(y: int, m: int) -> int
    decreases m,
{
    if m <= 1 {
        0
    } else {
        days_before_month(y, m - 1) + days_in_month(y, m - 1)
    }
}

/// The days from 1970-01-01 to a date.
pub open spec fn day_number(d: DayView) -> int {
    let y = d.year - 1;
    365 * y + y / 4 - y / 100 + y / 400 + days_before_month(d.year, d.month) + d.day - 719_163
}

/// The milliseconds from midnight of 1970-01-01 to a date and time.
pub open spec fn stamp_millis(t: StampView) -> int {
    day_number(t.date) * 86_400_000 + (t.hour * 3600 + t.minute * 60 + t.second) * 1000 + t.nano
        / 1_000_000
}

/// A number in at least `width` digits.
pub open spec fn padded(n: nat, width: nat) -> Seq<char> {
    let t = text::nat_text(n);
    if t.len() >= width {
        t
    } else {
        Seq::new((width - t.len()) as nat, |i: int| '0') + t
    }
}

/// A year in at least four digits, with a sign outside 0 to 9999.
pub open spec fn year_text(y: int) -> Seq<char> {
    if 0 <= y < 10000 {
        padded(y as nat, 4)
    } else if y < 0 {
        seq!['-'] + padded((-y) as nat, 4)
    } else {
        seq!['+'] + padded(y as nat, 4)
    }
}

/// `YYYY-MM-DD`.
pub open spec fn day_text(d: DayView) -> Seq<char> {
    year_text(d.year) + seq!['-'] + padded(d.month as nat, 2) + seq!['-'] + padded(d.day as nat, 2)
}

/// `YYYY-MM-DD hh:mm:ss`, a leap second as second 60.
pub open spec fn stamp_text(t: StampView) -> Seq<char> {
    day_text(t.date) + seq![' '] + padded(t.hour as nat, 2) + seq![':'] + padded(
        t.minute as nat,
        2,
    ) + seq![':'] + padded((t.second + t.nano / 1_000_000_000) as nat, 2)
}

/// The date that `NaiveDate::parse_from_str` reads from a text in a format.
pub uninterp spec fn chrono_date(s: Seq<char>, fmt: Seq<char>) -> Option<(i32, u32, u32)>;

/// The date and time that `NaiveDateTime::parse_from_str` reads from a text in a format.
pub uninterp spec fn chrono_stamp(s: Seq<char>, fmt: Seq<char>) -> Option<
    ((i32, u32, u32), (u32, u32, u32, u32)),
>;

/// `r` fits what stands in the text: a date as `%Y-%m-%d` shows it reads back as
/// that date in this format, and a text that goes on with a time of day is no date.
pub open spec fn reads_shown_day(s: Seq<char>, fmt: Seq<char>, r: Option<DayView>) -> bool {
    &&& fmt == "%Y-%m-%d"@ ==> forall|d: DayView|
        day_ok(d) && s == #[trigger] day_text(d) ==> r == Some(d)
    &&& fmt == "%Y-%m-%d"@ || fmt == "%Y/%m/%d"@ ==> forall|t: StampView|
        stamp_ok(t) && s == #[trigger] stamp_text(t) ==> r is None
}

/// `r` fits what stands in the text: a whole second as `%Y-%m-%d %H:%M:%S` shows
/// it reads back as itself in this format, and a date alone has no time of day.
pub open spec fn reads_shown_stamp(s: Seq<char>, fmt: Seq<char>, r: Option<StampView>) -> bool {
    &&& fmt == "%Y-%m-%d %H:%M:%S"@ ==> forall|t: StampView|
        stamp_ok(t) && t.nano == 0 && s == #[trigger] stamp_text(t) ==> r == Some(t)
    &&& fmt == "%Y-%m-%d %H:%M:%S"@ || fmt == "%Y-%m-%dT%H:%M:%S"@ || fmt == "%Y/%m/%d %H:%M:%S"@
        || fmt == "%Y-%m-%d %H:%M"@ || fmt == "%Y/%m/%d %H:%M"@ ==> forall|d: DayView|
        day_ok(d) && s == #[trigger] day_text(d) ==> r is None
}

/// Calls `NaiveDate::parse_from_str`; what it reads depends on the text and the
/// format alone, and is a day of the calendar. In `%Y-%m-%d` it reads a date back
/// that was printed so; a text with more behind the date, or with another
/// separator than the format's, it refuses.
#[verifier::external_body]
fn read_day(s: &str, fmt: &str) -> (r: Option<(i32, u32, u32)>)
    ensures
        r == chrono_date(s@, fmt@),
        r matches Some((y, m, d)) ==> is_day(y as int, m as int, d as int),
        reads_shown_day(s@, fmt@, day_of(r)),
{
    NaiveDate::parse_from_str(s, fmt).ok().map(|d| (d.year(), d.month(), d.day()))
}

/// Calls `NaiveDateTime::parse_from_str`; what it reads depends on the text and
/// the format alone, and is a time of a day of the calendar. In
/// `%Y-%m-%d %H:%M:%S` it reads a whole second back that was printed so; where the
/// format goes on with hours, a text that ends with the date is refused.
#[verifier::external_body]
fn read_stamp(s: &str, fmt: &str) -> (r: Option<((i32, u32, u32), (u32, u32, u32, u32))>)
    ensures
        r == chrono_stamp(s@, fmt@),
        r matches Some((d, t)) ==> is_day(d.0 as int, d.1 as int, d.2 as int) && is_time(
            t.0 as int,
            t.1 as int,
            t.2 as int,
            t.3 as int,
        ),
        reads_shown_stamp(s@, fmt@, stamp_of(r)),
{
    NaiveDateTime::parse_from_str(s, fmt).ok().map(
        |t|
            (
                (t.year(), t.month(), t.day()),
                (t.hour(), t.minute(), t.second(), t.nanosecond()),
            ),
    )
}

/// Formats a `NaiveDate` with `%Y-%m-%d`.
#[verifier::external_body]
fn write_day(year: i32, month: u32, day: u32) -> (r: String)
    requires
        is_day(year as int, month as int, day as int),
    ensures
        r@ == day_text(DayView { year: year as int, month: month as int, day: day as int }),
{
    NaiveDate::from_ymd_opt(year, month, day).unwrap().format("%Y-%m-%d").to_string()
}

/// Formats a `NaiveDateTime` with `%Y-%m-%d %H:%M:%S`.
#[verifier::external_body]
fn write_stamp(date: (i32, u32, u32), time: (u32, u32, u32, u32)) -> (r: String)
    requires
        is_day(date.0 as int, date.1 as int, date.2 as int),
        is_time(time.0 as int, time.1 as int, time.2 as int, time.3 as int),
    ensures
        r@ == stamp_text(
            StampView {
                date: DayView { year: date.0 as int, month: date.1 as int, day: date.2 as int },
                hour: time.0 as int,
                minute: time.1 as int,
                second: time.2 as int,
                nano: time.3 as int,
            },
        ),
{
    NaiveDate::from_ymd_opt(date.0, date.1, date.2).unwrap().and_hms_nano_opt(
        time.0,
        time.1,
        time.2,
        time.3,
    ).unwrap().format("%Y-%m-%d %H:%M:%S").to_string()
}

fn month_len(y: i32, m: u32) -> (r: u32)
    requires
        -262143 <= y <= 262142,
    ensures
        r == days_in_month(y as int, m as int),
{
    if m == 2 {
        let shifted: i32 = y + 262400;
        assert(shifted % 400 == y as int % 400);
        assert(shifted % 100 == y as int % 100);
        assert(shifted % 4 == y as int % 4);
        if shifted % 4 == 0 && (shifted % 100 != 0 || shifted % 400 == 0) {
            29
        } else {
            28
        }
    } else if m == 4 || m == 6 || m == 9 || m == 11 {
        30
    } else {
        31
    }
}

impl Day {
    #[verifier::type_invariant]
    spec fn inv(self) -> bool {
        day_ok(self@)
    }

    /// The date of that year, month and day, where the calendar has it.
    pub fn new(year: i32, month: u32, day: u32) -> (r: Option<Day>)
        ensures
            match r {
                Some(x) => x@ == (DayView {
                    year: year as int,
                    month: month as int,
                    day: day as int,
                }) && day_ok(x@),
                None => !is_day(year as int, month as int, day as int),
            },
    {
        if year < -262143 || year > 262142 || month < 1 || month > 12 || day < 1 {
            return None;
        }
        if day > month_len(year, month) {
            return None;
        }
        Some(Day { year, month, day })
    }

    pub fn year(&self) -> (r: i32)
        ensures
            r == self@.year,
    {
        self.year
    }

    pub fn month(&self) -> (r: u32)
        ensures
            r == self@.month,
    {
        self.month
    }

    pub fn day(&self) -> (r: u32)
        ensures
            r == self@.day,
    {
        self.day
    }

    /// The date at midnight.
    pub fn at_midnight(&self) -> (r: Stamp)
        ensures
            r@ == midnight(self@),
    {
        proof {
            use_type_invariant(self);
        }
        Stamp { date: *self, hour: 0, minute: 0, second: 0, nano: 0 }
    }

    /// The date as `YYYY-MM-DD`.
    pub fn show(&self) -> (r: String)
        ensures
            r@ == day_text(self@),
    {
        proof {
            use_type_invariant(self);
        }
        write_day(self.year, self.month, self.day)
    }
}

impl Stamp {
    #[verifier::type_invariant]
    spec fn inv(self) -> bool {
        stamp_ok(self@)
    }

    /// The date with that time of day, where there is such a time.
    pub fn new(date: Day, hour: u32, minute: u32, second: u32, nano: u32) -> (r: Option<Stamp>)
        ensures
            match r {
                Some(x) => x@ == (StampView {
                    date: date@,
                    hour: hour as int,
                    minute: minute as int,
                    second: second as int,
                    nano: nano as int,
                }),
                None => !is_time(hour as int, minute as int, second as int, nano as int),
            },
    {
        proof {
            use_type_invariant(&date);
        }
        if hour >= 24 || minute >= 60 || second >= 60 || nano >= 2_000_000_000 || (nano
            >= 1_000_000_000 && second != 59) {
            None
        } else {
            Some(Stamp { date, hour, minute, second, nano })
        }
    }

    /// Every date-time is one of the calendar.
    pub(crate) fn check(&self)
        ensures
            stamp_ok(self@),
    {
        proof {
            use_type_invariant(self);
        }
    }

    pub fn date(&self) -> (r: Day)
        ensures
            r@ == self@.date,
    {
        self.date
    }

    pub fn hour(&self) -> (r: u32)
        ensures
            r == self@.hour,
    {
        self.hour
    }

    pub fn minute(&self) -> (r: u32)
        ensures
            r == self@.minute,
    {
        self.minute
    }

    pub fn second(&self) -> (r: u32)
        ensures
            r == self@.second,
    {
        self.second
    }

    pub fn nano(&self) -> (r: u32)
        ensures
            r == self@.nano,
    {
        self.nano
    }

    /// The date and time as `YYYY-MM-DD hh:mm:ss`.
    pub fn show(&self) -> (r: String)
        ensures
            r@ == stamp_text(self@),
    {
        proof {
            use_type_invariant(self);
        }
        write_stamp(
            (self.date.year, self.date.month, self.date.day),
            (self.hour, self.minute, self.second, self.nano),
        )
    }
}

pub open spec fn day_of(p: Option<(i32, u32, u32)>) -> Option<DayView> {
    match p {
        Some((y, m, d)) => Some(DayView { year: y as int, month: m as int, day: d as int }),
        None => None,
    }
}

pub open spec fn stamp_of(p: Option<((i32, u32, u32), (u32, u32, u32, u32))>) -> Option<StampView> {
    match p {
        Some((d, t)) => Some(
            StampView {
                date: DayView { year: d.0 as int, month: d.1 as int, day: d.2 as int },
                hour: t.0 as int,
                minute: t.1 as int,
                second: t.2 as int,
                nano: t.3 as int,
            },
        ),
        None => None,
    }
}

pub open spec fn first_some<A>(a: Option<A>, b: Option<A>) -> Option<A> {
    if a is Some {
        a
    } else {
        b
    }
}

/// The date that a text stands for, written with `-` or with `/`.
pub open spec fn date_read(s: Seq<char>) -> Option<DayView> {
    first_some(day_of(chrono_date(s, "%Y-%m-%d"@)), day_of(chrono_date(s, "%Y/%m/%d"@)))
}

/// The date and time that a text stands for; a date alone is its midnight.
pub open spec fn stamp_read(s: Seq<char>) -> Option<StampView> {
    first_some(
        stamp_of(chrono_stamp(s, "%Y-%m-%d %H:%M:%S"@)),
        first_some(
            stamp_of(chrono_stamp(s, "%Y-%m-%dT%H:%M:%S"@)),
            first_some(
                stamp_of(chrono_stamp(s, "%Y/%m/%d %H:%M:%S"@)),
                first_some(
                    stamp_of(chrono_stamp(s, "%Y-%m-%d %H:%M"@)),
                    first_some(
                        stamp_of(chrono_stamp(s, "%Y/%m/%d %H:%M"@)),
                        match date_read(s) {
                            Some(d) => Some(midnight(d)),
                            None => None,
                        },
                    ),
                ),
            ),
        ),
    )
}

pub open spec fn opt_day(d: Option<Day>) -> Option<DayView> {
    match d {
        Some(x) => Some(x@),
        None => None,
    }
}

pub open spec fn opt_stamp(t: Option<Stamp>) -> Option<StampView> {
    match t {
        Some(x) => Some(x@),
        None => None,
    }
}

fn day_in(s: &str, fmt: &str) -> (r: Option<Day>)
    ensures
        opt_day(r) == day_of(chrono_date(s@, fmt@)),
        reads_shown_day(s@, fmt@, opt_day(r)),
{
    match read_day(s, fmt) {
        Some((y, m, d)) => Day::new(y, m, d),
        None => None,
    }
}

fn stamp_in(s: &str, fmt: &str) -> (r: Option<Stamp>)
    ensures
        opt_stamp(r) == stamp_of(chrono_stamp(s@, fmt@)),
        reads_shown_stamp(s@, fmt@, opt_stamp(r)),
{
    match read_stamp(s, fmt) {
        Some((d, t)) => match Day::new(d.0, d.1, d.2) {
            Some(day) => Stamp::new(day, t.0, t.1, t.2, t.3),
            None => None,
        },
        None => None,
    }
}

/// Reads a date. A date as it is shown reads back as itself, and a date and time
/// is no date.
pub fn parse_date(s: &str) -> (r: Option<Day>)
    ensures
        opt_day(r) == date_read(s@),
        forall|d: DayView| day_ok(d) && s@ == #[trigger] day_text(d) ==> opt_day(r) == Some(d),
        forall|t: StampView| stamp_ok(t) && s@ == #[trigger] stamp_text(t) ==> r is None,
{
    match day_in(s, "%Y-%m-%d") {
        Some(d) => Some(d),
        None => day_in(s, "%Y/%m/%d"),
    }
}

/// Reads a date and time, or a date as its midnight. A whole second as it is shown
/// reads back as itself.
pub fn parse_datetime(s: &str) -> (r: Option<Stamp>)
    ensures
        opt_stamp(r) == stamp_read(s@),
        forall|t: StampView|
            stamp_ok(t) && t.nano == 0 && s@ == #[trigger] stamp_text(t) ==> opt_stamp(r) == Some(
                t,
            ),
        forall|d: DayView|
            day_ok(d) && s@ == #[trigger] day_text(d) ==> opt_stamp(r) == Some(midnight(d)),
{
    if let Some(t) = stamp_in(s, "%Y-%m-%d %H:%M:%S") {
        return Some(t);
    }
    if let Some(t) = stamp_in(s, "%Y-%m-%dT%H:%M:%S") {
        return Some(t);
    }
    if let Some(t) = stamp_in(s, "%Y/%m/%d %H:%M:%S") {
        return Some(t);
    }
    if let Some(t) = stamp_in(s, "%Y-%m-%d %H:%M") {
        return Some(t);
    }
    if let Some(t) = stamp_in(s, "%Y/%m/%d %H:%M") {
        return Some(t);
    }
    match parse_date(s) {
        Some(d) => Some(d.at_midnight()),
        None => None,
    }
}

/// A number in two digits, or in more.
proof fn lemma_padded(n: nat, width: nat)
    requires
        width > 0,
    ensures
        padded(n, width).len() >= width,
        text::all_digits(padded(n, width)),
{
    lemma_nat_text(n);
    let t = text::nat_text(n);
    let p = padded(n, width);
    assert forall|i: int| 0 <= i < p.len() implies text::is_digit(#[trigger] p[i]) by {
        if t.len() < width && i >= width - t.len() {
            assert(p[i] == t[i - (width - t.len())]);
        }
    }
}

proof fn lemma_year_text(y: int)
    ensures
        year_text(y).len() >= 4,
        text::is_digit(year_text(y)[0]) || year_text(y)[0] == '+' || year_text(y)[0] == '-',
{
    if y >= 0 {
        lemma_padded(y as nat, 4);
    } else {
        lemma_padded((-y) as nat, 4);
    }
}

/// A date as it is shown starts with a digit or a sign, has a `-` behind the year,
/// and ends with a digit.
pub(crate) proof fn lemma_day_shape(d: DayView)
    requires
        day_ok(d),
    ensures
        4 <= year_text(d.year).len() <= day_text(d).len() - 6,
        text::is_digit(day_text(d)[0]) || day_text(d)[0] == '+' || day_text(d)[0] == '-',
        day_text(d)[year_text(d.year).len() as int] == '-',
        text::is_digit(day_text(d).last()),
        text::trim(day_text(d)) == day_text(d),
{
    let s = day_text(d);
    let y = year_text(d.year);
    lemma_year_text(d.year);
    lemma_padded(d.month as nat, 2);
    lemma_padded(d.day as nat, 2);
    let p = padded(d.day as nat, 2);
    assert(s[0] == y[0]);
    assert(s.last() == p.last());
    text::lemma_trimmed(s);
}

/// A date and time as it is shown starts with a digit or a sign, has a `-` behind
/// the year, and ends with a digit.
pub(crate) proof fn lemma_stamp_shape(t: StampView)
    requires
        stamp_ok(t),
    ensures
        4 <= year_text(t.date.year).len() <= stamp_text(t).len() - 6,
        text::is_digit(stamp_text(t)[0]) || stamp_text(t)[0] == '+' || stamp_text(t)[0] == '-',
        stamp_text(t)[year_text(t.date.year).len() as int] == '-',
        text::is_digit(stamp_text(t).last()),
        text::trim(stamp_text(t)) == stamp_text(t),
{
    let s = stamp_text(t);
    let d = day_text(t.date);
    let y = year_text(t.date.year);
    lemma_day_shape(t.date);
    let last = (t.second + t.nano / 1_000_000_000) as nat;
    lemma_padded(last, 2);
    let p = padded(last, 2);
    assert(s[0] == d[0] && s[y.len() as int] == d[y.len() as int]);
    assert(s.last() == p.last());
    text::lemma_trimmed(s);
}

/// A day comes `day_number` days behind the first of January 1970, so the next day of
/// a month has the next number, and the first of a month the number behind the last
/// of the month before.
pub proof fn law_days_are_counted_one_by_one(d: DayView)
    requires
        day_ok(d),
    ensures
        d.day < days_in_month(d.year, d.month) ==> day_number(DayView { day: d.day + 1, ..d })
            == day_number(d) + 1,
        d.day == days_in_month(d.year, d.month) && d.month < 12 ==> day_number(
            DayView { month: d.month + 1, day: 1, ..d },
        ) == day_number(d) + 1,
        d.month == 12 && d.day == 31 ==> day_number(
            DayView { year: d.year + 1, month: 1, day: 1 },
        ) == day_number(d) + 1,
        day_number(DayView { year: 1970, month: 1, day: 1 }) == 0,
{
    let y = d.year;
    if d.month == 12 && d.day == 31 {
        reveal_with_fuel(days_before_month, 13);
        assert(days_before_month(y, 12) + 31 == if is_leap_year(y) {
            366int
        } else {
            365
        });
        let x = y - 1;
        assert(y / 4 - x / 4 == if y % 4 == 0 {
            1int
        } else {
            0
        });
        assert(y / 100 - x / 100 == if y % 100 == 0 {
            1int
        } else {
            0
        });
        assert(y / 400 - x / 400 == if y % 400 == 0 {
            1int
        } else {
            0
        });
    }
}

/// Times of one day stand in the order of their milliseconds, a whole day is
/// 86 400 000 of them, and midnight of the first of January 1970 is zero.
pub proof fn law_milliseconds_follow_the_clock(t: StampView)
    requires
        stamp_ok(t),
        t.nano < 1_000_000_000,
    ensures
        0 <= stamp_millis(t) - stamp_millis(midnight(t.date)) < 86_400_000,
        t.second < 59 ==> stamp_millis(StampView { second: t.second + 1, ..t }) == stamp_millis(t)
            + 1000,
        t.minute < 59 ==> stamp_millis(StampView { minute: t.minute + 1, ..t }) == stamp_millis(t)
            + 60_000,
        t.hour < 23 ==> stamp_millis(StampView { hour: t.hour + 1, ..t }) == stamp_millis(t)
            + 3_600_000,
        stamp_millis(midnight(DayView { year: 1970, month: 1, day: 1 })) == 0,
{
    law_days_are_counted_one_by_one(t.date);
}

/// A text is read as a time in whichever of the forms it has, seconds and all, and a date
/// alone as its midnight; a text in none of them is no time.
pub proof fn law_every_form_of_a_time_is_read(s: Seq<char>)
    ensures
        stamp_read(s) is Some <==> chrono_stamp(s, "%Y-%m-%d %H:%M:%S"@) is Some || chrono_stamp(
            s,
            "%Y-%m-%dT%H:%M:%S"@,
        ) is Some || chrono_stamp(s, "%Y/%m/%d %H:%M:%S"@) is Some || chrono_stamp(
            s,
            "%Y-%m-%d %H:%M"@,
        ) is Some || chrono_stamp(s, "%Y/%m/%d %H:%M"@) is Some || chrono_date(s, "%Y-%m-%d"@) is Some
            || chrono_date(s, "%Y/%m/%d"@) is Some,
        date_read(s) is Some <==> chrono_date(s, "%Y-%m-%d"@) is Some || chrono_date(
            s,
            "%Y/%m/%d"@,
        ) is Some,
        date_read(s) matches Some(d) ==> day_of(chrono_date(s, "%Y-%m-%d"@)) == Some(d) || day_of(
            chrono_date(s, "%Y/%m/%d"@),
        ) == Some(d),
        stamp_read(s) matches Some(t) ==> (date_read(s) matches Some(d) && t == midnight(d))
            || stamp_of(chrono_stamp(s, "%Y-%m-%d %H:%M:%S"@)) == Some(t) || stamp_of(
            chrono_stamp(s, "%Y-%m-%dT%H:%M:%S"@),
        ) == Some(t) || stamp_of(chrono_stamp(s, "%Y/%m/%d %H:%M:%S"@)) == Some(t) || stamp_of(
            chrono_stamp(s, "%Y-%m-%d %H:%M"@),
        ) == Some(t) || stamp_of(chrono_stamp(s, "%Y/%m/%d %H:%M"@)) == Some(t),
{
}

} // verus!
