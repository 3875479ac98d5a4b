//! Civil date and time arithmetic in the proleptic Gregorian calendar, and the
//! text form `YYYY-MM-DDTHH:MM:SS[.fraction][Z]`.
use vstd::prelude::*;
use vstd::utf8::*;
use crate::text::{
    bytes_of, decimal_digits, digit_char, digit_value, lemma_number_at_bound, number_at, pow10,
    push_char, push_digits, read_number, text_bytes,
};

verus! {

pub const MILLIS_PER_DAY: i64 = 86_400_000;

/// The instant `0000-01-01T00:00:00.000`, in milliseconds since the epoch.
pub const MIN_MILLIS: i64 = -62_167_219_200_000;

/// The instant `9999-12-31T23:59:59.999`, in milliseconds since the epoch.
pub const MAX_MILLIS: i64 = 253_402_300_799_999;

/// Tells whether `year` has a 29th of February.
pub open spec fn is_leap_year(year: int) -> bool {
    year % 4 == 0 && (year % 100 != 0 || year % 400 == 0)
}

/// The number of days of a month.
pub open spec fn days_in_month(year: int, month: int) -> int {
    if month == 2 {
        if is_leap_year(year) {
            29
        } else {
            28
        }
    } else if month == 4 || month == 6 || month == 9 || month == 11 {
        30
    } else {
        31
    }
}

/// The number of days of `year` that lie before the first of `month`.
pub open spec fn days_before_month(year: int, month: int) -> int
    decreases month,
{
    if month <= 1 {
        0
    } else {
        days_before_month(year, month - 1) + days_in_month(year, month - 1)
    }
}

/// The number of leap years among the years `1..=n` of a 400-year cycle count.
pub open spec fn leap_years_through(n: int) -> int {
    n / 4 - n / 100 + n / 400
}

/// The number of days from the epoch, 1970-01-01, to the first of January of
/// `year`. Years are shifted by 400, one full cycle, so that the count of
/// leap years is taken of a positive number.
pub open spec fn days_before_year(year: int) -> int {
    365 * (year - 1970) + leap_years_through(year + 399) - leap_years_through(2369)
}

/// The number of days from the epoch to the given date.
pub open spec fn days_from_civil(year: int, month: int, day: int) -> int {
    days_before_year(year) + days_before_month(year, month) + day - 1
}

/// A date and a time of day, to the millisecond.
#[derive(Clone, Copy, Debug, PartialEq, Eq, Structural)]
pub struct DateTime {
    pub year: u16,
    pub month: u8,
    pub day: u8,
    pub hour: u8,
    pub minute: u8,
    pub second: u8,
    pub millisecond: u16,
}

impl DateTime {
    /// The fields name a date of the years 0 to 9999 and a time of day.
    pub open spec fn valid(self) -> bool {
        &&& self.year <= 9999
        &&& 1 <= self.month <= 12
        &&& 1 <= self.day <= days_in_month(self.year as int, self.month as int)
        &&& self.hour < 24
        &&& self.minute < 60
        &&& self.second < 60
        &&& self.millisecond < 1000
    }

    /// Milliseconds since the epoch.
    pub open spec fn timestamp(self) -> int {
        days_from_civil(self.year as int, self.month as int, self.day as int) * 86_400_000
            + self.hour * 3_600_000 + self.minute * 60_000 + self.second * 1000
            + self.millisecond
    }

    /// Checks the ranges of the fields.
    pub fn is_valid(&self) -> (ok: bool)
        ensures
            ok == self.valid(),
    {
        self.year <= 9999 && 1 <= self.month && self.month <= 12 && 1 <= self.day
            && self.day <= month_length(self.year, self.month) && self.hour < 24
            && self.minute < 60 && self.second < 60 && self.millisecond < 1000
    }

    /// Milliseconds since the epoch.
    pub fn to_millis(&self) -> (millis: i64)
        requires
            self.valid(),
        ensures
            millis == self.timestamp(),
            MIN_MILLIS <= millis <= MAX_MILLIS,
    {
        let days: i64 = year_start(self.year) + month_start(self.year, self.month) + (
        self.day as i64) - 1;
        proof {
            reveal_with_fuel(days_before_month, 14);
            lemma_year_length(self.year as int);
            assert(days_before_year(self.year + 1) <= 2_932_897);
            assert(days < days_before_year(self.year + 1));
        }
        days * MILLIS_PER_DAY + (self.hour as i64) * 3_600_000 + (self.minute as i64) * 60_000 + (
        self.second as i64) * 1000 + (self.millisecond as i64)
    }

    /// The date and time of an instant, where its year lies in 0 to 9999.
    pub fn from_millis(millis: i64) -> (r: Option<DateTime>)
        ensures
            r.is_some() <==> MIN_MILLIS <= millis <= MAX_MILLIS,
            r matches Some(dt) ==> dt.valid() && dt.timestamp() == millis,
    {
        if millis < MIN_MILLIS || millis > MAX_MILLIS {
            return None;
        }
        let shifted: i64 = millis - MIN_MILLIS;
        let days: i64 = shifted / MILLIS_PER_DAY;
        let (hour, minute, second, millisecond) = split_day(shifted % MILLIS_PER_DAY);
        let (year, month, day) = locate_date(days);
        Some(DateTime { year, month, day, hour, minute, second, millisecond })
    }
}

/// Splits a time of day, in milliseconds, into hour, minute, second and millisecond.
fn split_day(rest: i64) -> (r: (u8, u8, u8, u16))
    requires
        0 <= rest < 86_400_000,
    ensures
        r.0 < 24,
        r.1 < 60,
        r.2 < 60,
        r.3 < 1000,
        rest == r.0 * 3_600_000 + r.1 * 60_000 + r.2 * 1000 + r.3,
{
    let hour: i64 = rest / 3_600_000;
    let in_hour: i64 = rest % 3_600_000;
    let minute: i64 = in_hour / 60_000;
    let in_minute: i64 = in_hour % 60_000;
    let second: i64 = in_minute / 1000;
    let millisecond: i64 = in_minute % 1000;
    (hour as u8, minute as u8, second as u8, millisecond as u16)
}

/// The date of a day, counted from the first of January of the year 0.
fn locate_date(days: i64) -> (r: (u16, u8, u8))
    requires
        0 <= days <= 3_652_424,
    ensures
        r.0 <= 9999,
        1 <= r.1 <= 12,
        1 <= r.2 <= days_in_month(r.0 as int, r.1 as int),
        days_from_civil(r.0 as int, r.1 as int, r.2 as int) == days - 719_528,
{
    let year: u16 = locate_year(days);
    let in_year: i64 = days - (year_start(year) - year_start(0));
    proof {
        lemma_year_length(year as int);
    }
    let (month, day) = locate_month(year, in_year);
    (year, month, day)
}

/// A year has 365 days, and one more where it is a leap year.
pub proof fn lemma_year_length(year: int)
    requires
        0 <= year <= 9999,
    ensures
        days_before_year(year + 1) - days_before_year(year) == 365 + if is_leap_year(year) {
            1int
        } else {
            0int
        },
{
    let n = year + 400;
    assert(n % 4 == year % 4);
    assert(n % 100 == year % 100);
    assert(n % 400 == year % 400);
    assert(n / 4 - (n - 1) / 4 == if n % 4 == 0 { 1int } else { 0int });
    assert(n / 100 - (n - 1) / 100 == if n % 100 == 0 { 1int } else { 0int });
    assert(n / 400 - (n - 1) / 400 == if n % 400 == 0 { 1int } else { 0int });
}

/// The year in which a day lies, counted from the first of January of the year 0.
fn locate_year(days: i64) -> (year: u16)
    requires
        0 <= days <= 3_652_424,
    ensures
        year <= 9999,
        days_before_year(year as int) - days_before_year(0) <= days,
        days < days_before_year(year + 1) - days_before_year(0),
{
    let origin: i64 = year_start(0);
    let mut year: u16 = (days / 366) as u16;
    while year < 9999 && year_start(year + 1) - origin <= days
        invariant
            year <= 9999,
            origin == days_before_year(0),
            0 <= days <= 3_652_424,
            days_before_year(year as int) - origin <= days,
        decreases 9999 - year,
    {
        year = year + 1;
    }
    year
}

/// The month and the day of the month of a day of a year, counted from 0.
fn locate_month(year: u16, in_year: i64) -> (r: (u8, u8))
    requires
        year <= 9999,
        0 <= in_year < 365 + if is_leap_year(year as int) { 1int } else { 0int },
    ensures
        1 <= r.0 <= 12,
        1 <= r.1 <= days_in_month(year as int, r.0 as int),
        days_before_month(year as int, r.0 as int) + r.1 - 1 == in_year,
{
    let mut left: i64 = in_year;
    let mut month: u8 = 1;
    proof {
        reveal_with_fuel(days_before_month, 14);
    }
    while month < 12 && left >= month_length(year, month) as i64
        invariant
            1 <= month <= 12,
            0 <= left,
            days_before_month(year as int, month as int) + left == in_year,
            in_year < 365 + if is_leap_year(year as int) { 1int } else { 0int },
        decreases 12 - month,
    {
        proof {
            reveal_with_fuel(days_before_month, 2);
        }
        left = left - month_length(year, month) as i64;
        month = month + 1;
    }
    assert(left < days_in_month(year as int, month as int)) by {
        reveal_with_fuel(days_before_month, 14);
    }
    (month, (left + 1) as u8)
}

/// At most 334 days, or 335 in a leap year, lie before the first of a month.
pub proof fn lemma_month_start_bound(year: int, month: int)
    requires
        1 <= month <= 12,
    ensures
        0 <= days_before_month(year, month) <= 335,
{
    reveal_with_fuel(days_before_month, 14);
}

/// The number of days of a month.
pub fn month_length(year: u16, month: u8) -> (days: u8)
    ensures
        days == days_in_month(year as int, month as int),
{
    if month == 2 {
        if year % 4 == 0 && (year % 100 != 0 || year % 400 == 0) {
            29
        } else {
            28
        }
    } else if month == 4 || month == 6 || month == 9 || month == 11 {
        30
    } else {
        31
    }
}

/// The number of days from the epoch to the first of January of `year`.
pub fn year_start(year: u16) -> (days: i64)
    requires
        year <= 10000,
    ensures
        days == days_before_year(year as int),
        -719_528 <= days <= 2_932_897,
{
    let shifted: i64 = year as i64 + 399;
    365 * (year as i64 - 1970) + (shifted / 4 - shifted / 100 + shifted / 400) - 574
}

/// The number of days of `year` that lie before the first of `month`.
pub fn month_start(year: u16, month: u8) -> (days: i64)
    requires
        1 <= month <= 12,
    ensures
        days == days_before_month(year as int, month as int),
        0 <= days <= 335,
{
    proof {
        lemma_month_start_bound(year as int, month as int);
    }
    let mut days: i64 = 0;
    let mut m: u8 = 1;
    while m < month
        invariant
            1 <= m <= month <= 12,
            days == days_before_month(year as int, m as int),
            0 <= days <= 31 * (m - 1),
        decreases month - m,
    {
        proof {
            reveal_with_fuel(days_before_month, 2);
        }
        days = days + month_length(year, m) as i64;
        m = m + 1;
    }
    days
}

/// The time of day of a valid date and time, in milliseconds.
pub open spec fn time_of_day(dt: DateTime) -> int {
    dt.hour * 3_600_000 + dt.minute * 60_000 + dt.second * 1000 + dt.millisecond
}

/// Later years start later.
pub proof fn lemma_year_start_monotonic(a: int, b: int)
    requires
        0 <= a <= b <= 10000,
    ensures
        days_before_year(a) <= days_before_year(b),
    decreases b - a,
{
    if a < b {
        lemma_year_length(b - 1);
        lemma_year_start_monotonic(a, b - 1);
    }
}

/// Two valid dates and times of one instant are the same.
pub proof fn lemma_timestamp_injective(a: DateTime, b: DateTime)
    requires
        a.valid(),
        b.valid(),
        a.timestamp() == b.timestamp(),
    ensures
        a == b,
{
    let da = days_from_civil(a.year as int, a.month as int, a.day as int);
    let db = days_from_civil(b.year as int, b.month as int, b.day as int);
    assert(0 <= time_of_day(a) < 86_400_000);
    assert(0 <= time_of_day(b) < 86_400_000);
    assert(da * 86_400_000 + time_of_day(a) == db * 86_400_000 + time_of_day(b));
    assert(da == db);
    assert(time_of_day(a) == time_of_day(b));
    assert(a.hour == b.hour && a.minute == b.minute && a.second == b.second && a.millisecond
        == b.millisecond);
    lemma_year_length(a.year as int);
    lemma_year_length(b.year as int);
    lemma_date_in_year(a.year as int, a.month as int, a.day as int);
    lemma_date_in_year(b.year as int, b.month as int, b.day as int);
    if a.year < b.year {
        lemma_year_start_monotonic(a.year + 1, b.year as int);
    }
    if b.year < a.year {
        lemma_year_start_monotonic(b.year + 1, a.year as int);
    }
    assert(a.year == b.year);
    lemma_month_starts(a.year as int, a.month as int, b.month as int);
    lemma_month_starts(a.year as int, b.month as int, a.month as int);
}

/// A date lies within its year.
pub proof fn lemma_date_in_year(year: int, month: int, day: int)
    requires
        1 <= month <= 12,
        1 <= day <= days_in_month(year, month),
    ensures
        0 <= days_before_month(year, month) + day - 1 < 365 + if is_leap_year(year) {
            1int
        } else {
            0int
        },
{
    reveal_with_fuel(days_before_month, 14);
}

/// A later month starts after the end of an earlier one.
pub proof fn lemma_month_starts(year: int, earlier: int, later: int)
    requires
        1 <= earlier <= 12,
        1 <= later <= 12,
    ensures
        earlier < later ==> days_before_month(year, earlier) + days_in_month(year, earlier)
            <= days_before_month(year, later),
{
    reveal_with_fuel(days_before_month, 14);
}

/// The date and time of an instant whose year lies in 0 to 9999.
pub open spec fn civil_of(millis: int) -> DateTime {
    choose|dt: DateTime| dt.valid() && dt.timestamp() == millis
}

/// The text of a date and time, with a trailing `Z` where `utc` is set. The
/// milliseconds are written, with three digits, only where they are not zero.
pub open spec fn format_date_time(dt: DateTime, utc: bool) -> Seq<char> {
    decimal_digits(dt.year as int, 4) + seq!['-'] + decimal_digits(dt.month as int, 2) + seq!['-']
        + decimal_digits(dt.day as int, 2) + seq!['T'] + decimal_digits(dt.hour as int, 2)
        + seq![':'] + decimal_digits(dt.minute as int, 2) + seq![':'] + decimal_digits(
        dt.second as int,
        2,
    ) + (if dt.millisecond != 0 {
        seq!['.'] + decimal_digits(dt.millisecond as int, 3)
    } else {
        Seq::empty()
    }) + (if utc {
        seq!['Z']
    } else {
        Seq::empty()
    })
}

/// The text of an instant whose year lies in 0 to 9999.
pub open spec fn format_millis(millis: int, utc: bool) -> Seq<char> {
    format_date_time(civil_of(millis), utc)
}

/// Writes a date and time as text.
pub fn format_civil(dt: &DateTime, utc: bool) -> (text: String)
    ensures
        text@ == format_date_time(*dt, utc),
{
    let mut text = String::new();
    push_digits(&mut text, dt.year as u128, 4);
    push_char(&mut text, '-');
    push_digits(&mut text, dt.month as u128, 2);
    push_char(&mut text, '-');
    push_digits(&mut text, dt.day as u128, 2);
    push_char(&mut text, 'T');
    push_digits(&mut text, dt.hour as u128, 2);
    push_char(&mut text, ':');
    push_digits(&mut text, dt.minute as u128, 2);
    push_char(&mut text, ':');
    push_digits(&mut text, dt.second as u128, 2);
    if dt.millisecond != 0 {
        push_char(&mut text, '.');
        push_digits(&mut text, dt.millisecond as u128, 3);
    }
    if utc {
        push_char(&mut text, 'Z');
    }
    assert(text@ =~= format_date_time(*dt, utc));
    text
}

/// Writes an instant as text, where its year lies in 0 to 9999.
pub fn format_timestamp(millis: i64, utc: bool) -> (r: Option<String>)
    ensures
        r.is_some() <==> MIN_MILLIS <= millis <= MAX_MILLIS,
        r matches Some(text) ==> text@ == format_millis(millis as int, utc),
{
    match DateTime::from_millis(millis) {
        Some(dt) => {
            proof {
                lemma_timestamp_injective(dt, civil_of(millis as int));
            }
            Some(format_civil(&dt, utc))
        },
        None => None,
    }
}

/// The milliseconds that the `count` digits `digits` behind a decimal point
/// stand for; digits after the third are dropped.
pub open spec fn fraction_millis(digits: int, count: nat) -> int {
    if count >= 3 {
        digits / pow10((count - 3) as nat)
    } else {
        digits * pow10((3 - count) as nat)
    }
}

/// The part of a text that holds the date and time: all of it, or all but
/// the trailing `Z`.
pub open spec fn body_length(bytes: Seq<u8>, utc: bool) -> int {
    if utc {
        bytes.len() - 1
    } else {
        bytes.len() as int
    }
}

/// The punctuation of `YYYY-MM-DDTHH:MM:SS`, an optional fraction of one to
/// nine digits, and the trailing `Z` where `utc` is set.
pub open spec fn date_time_shape(bytes: Seq<u8>, utc: bool) -> bool {
    let end = body_length(bytes, utc);
    &&& (utc ==> bytes.len() >= 1 && bytes[bytes.len() - 1] == 90)
    &&& (end == 19 || 21 <= end <= 29)
    &&& bytes[4] == 45
    &&& bytes[7] == 45
    &&& bytes[10] == 84
    &&& bytes[13] == 58
    &&& bytes[16] == 58
    &&& (end > 19 ==> bytes[19] == 46)
}

/// The date and time that a text spells, where it spells a valid one.
pub open spec fn parse_date_time_spec(bytes: Seq<u8>, utc: bool) -> Option<DateTime> {
    let end = body_length(bytes, utc);
    if !date_time_shape(bytes, utc) {
        None
    } else {
        let count = if end > 19 {
            (end - 20) as nat
        } else {
            0nat
        };
        match (
            number_at(bytes, 0, 4),
            number_at(bytes, 5, 2),
            number_at(bytes, 8, 2),
            number_at(bytes, 11, 2),
            number_at(bytes, 14, 2),
            number_at(bytes, 17, 2),
            number_at(bytes, 20, count),
        ) {
            (Some(year), Some(month), Some(day), Some(hour), Some(minute), Some(second), Some(fraction)) => {
                let dt = DateTime {
                    year: year as u16,
                    month: month as u8,
                    day: day as u8,
                    hour: hour as u8,
                    minute: minute as u8,
                    second: second as u8,
                    millisecond: fraction_millis(fraction, count) as u16,
                };
                if dt.valid() {
                    Some(dt)
                } else {
                    None
                }
            },
            _ => None,
        }
    }
}

/// The instant that a text spells, in milliseconds since the epoch.
pub open spec fn parse_millis(text: Seq<char>, utc: bool) -> Option<int> {
    match parse_date_time_spec(text_bytes(text), utc) {
        Some(dt) => Some(dt.timestamp()),
        None => None,
    }
}

/// The milliseconds of a fraction of `count` digits.
fn fraction_to_millis(digits: u32, count: usize) -> (millis: u16)
    requires
        count <= 9,
        digits < pow10(count as nat),
    ensures
        millis == fraction_millis(digits as int, count as nat),
        millis < 1000,
{
    proof {
        reveal_with_fuel(pow10, 10);
    }
    if count == 0 {
        (digits * 1000) as u16
    } else if count == 1 {
        (digits * 100) as u16
    } else if count == 2 {
        (digits * 10) as u16
    } else if count == 3 {
        digits as u16
    } else if count == 4 {
        (digits / 10) as u16
    } else if count == 5 {
        (digits / 100) as u16
    } else if count == 6 {
        (digits / 1000) as u16
    } else if count == 7 {
        (digits / 10_000) as u16
    } else if count == 8 {
        (digits / 100_000) as u16
    } else {
        (digits / 1_000_000) as u16
    }
}

/// Reads a date and time from its text.
pub fn parse_date_time(bytes: &[u8], utc: bool) -> (r: Option<DateTime>)
    ensures
        r == parse_date_time_spec(bytes@, utc),
{
    let len: usize = bytes.len();
    if utc && (len < 1 || bytes[len - 1] != 90) {
        return None;
    }
    let end: usize = if utc {
        len - 1
    } else {
        len
    };
    if !(end == 19 || (21 <= end && end <= 29)) {
        return None;
    }
    if bytes[4] != 45 || bytes[7] != 45 || bytes[10] != 84 || bytes[13] != 58 || bytes[16] != 58 {
        return None;
    }
    if end > 19 && bytes[19] != 46 {
        return None;
    }
    let count: usize = if end > 19 {
        end - 20
    } else {
        0
    };
    proof {
        lemma_number_at_bound(bytes@, 0, 4);
        lemma_number_at_bound(bytes@, 5, 2);
        lemma_number_at_bound(bytes@, 8, 2);
        lemma_number_at_bound(bytes@, 11, 2);
        lemma_number_at_bound(bytes@, 14, 2);
        lemma_number_at_bound(bytes@, 17, 2);
        lemma_number_at_bound(bytes@, 20, count as nat);
        reveal_with_fuel(pow10, 5);
    }
    let year = read_number(bytes, 0, 4);
    let month = read_number(bytes, 5, 2);
    let day = read_number(bytes, 8, 2);
    let hour = read_number(bytes, 11, 2);
    let minute = read_number(bytes, 14, 2);
    let second = read_number(bytes, 17, 2);
    let fraction = read_number(bytes, 20, count);
    match (year, month, day, hour, minute, second, fraction) {
        (Some(year), Some(month), Some(day), Some(hour), Some(minute), Some(second), Some(fraction)) => {
            let dt = DateTime {
                year: year as u16,
                month: month as u8,
                day: day as u8,
                hour: hour as u8,
                minute: minute as u8,
                second: second as u8,
                millisecond: fraction_to_millis(fraction, count),
            };
            if dt.is_valid() {
                Some(dt)
            } else {
                None
            }
        },
        _ => None,
    }
}

/// Reads an instant from its text, as milliseconds since the epoch.
pub fn parse_timestamp(text: &str, utc: bool) -> (r: Option<i64>)
    ensures
        r matches Some(millis) ==> parse_millis(text@, utc) == Some(millis as int) && MIN_MILLIS
            <= millis <= MAX_MILLIS,
        r is None ==> parse_millis(text@, utc) is None,
{
    match parse_date_time(bytes_of(text), utc) {
        Some(dt) => Some(dt.to_millis()),
        None => None,
    }
}

/// The last `width` digits of a number are `width` ASCII digits.
pub proof fn lemma_decimal_digits(n: int, width: nat)
    requires
        0 <= n,
    ensures
        decimal_digits(n, width).len() == width,
        forall|i: int|
            0 <= i < width ==> 48 <= #[trigger] decimal_digits(n, width)[i] as int <= 57,
    decreases width,
{
    if width > 0 {
        lemma_decimal_digits(n / 10, (width - 1) as nat);
    }
}

/// Bytes that hold the last `width` digits of a number below the matching
/// power of ten spell that number.
pub proof fn lemma_digits_spell(bytes: Seq<u8>, start: int, n: int, width: nat)
    requires
        0 <= start,
        start + width <= bytes.len(),
        0 <= n < pow10(width),
        forall|i: int|
            0 <= i < width ==> #[trigger] bytes[start + i] as int == decimal_digits(n, width)[i] as int,
    ensures
        number_at(bytes, start, width) == Some(n),
    decreases width,
{
    if width > 0 {
        let rest = (width - 1) as nat;
        lemma_decimal_digits(n / 10, rest);
        lemma_decimal_digits(n, width);
        assert forall|i: int| 0 <= i < rest implies #[trigger] bytes[start + i] as int
            == decimal_digits(n / 10, rest)[i] as int by {
            assert(decimal_digits(n, width)[i] == decimal_digits(n / 10, rest)[i]);
        }
        lemma_digits_spell(bytes, start, n / 10, rest);
        assert(decimal_digits(n, width)[width - 1] == digit_char(n % 10));
        assert(bytes[start + (width - 1)] as int == digit_char(n % 10) as int);
        assert(digit_char(n % 10) as int == n % 10 + 48);
    }
}

/// Reading the text of a valid date and time gives the date and time back.
pub proof fn law_parse_formatted(dt: DateTime, utc: bool)
    requires
        dt.valid(),
    ensures
        parse_date_time_spec(text_bytes(format_date_time(dt, utc)), utc) == Some(dt),
{
    let text = format_date_time(dt, utc);
    lemma_decimal_digits(dt.year as int, 4);
    lemma_decimal_digits(dt.month as int, 2);
    lemma_decimal_digits(dt.day as int, 2);
    lemma_decimal_digits(dt.hour as int, 2);
    lemma_decimal_digits(dt.minute as int, 2);
    lemma_decimal_digits(dt.second as int, 2);
    lemma_decimal_digits(dt.millisecond as int, 3);
    let date = decimal_digits(dt.year as int, 4) + seq!['-'] + decimal_digits(dt.month as int, 2)
        + seq!['-'] + decimal_digits(dt.day as int, 2);
    let time = seq!['T'] + decimal_digits(dt.hour as int, 2) + seq![':'] + decimal_digits(
        dt.minute as int,
        2,
    ) + seq![':'] + decimal_digits(dt.second as int, 2);
    let fraction = if dt.millisecond != 0 {
        seq!['.'] + decimal_digits(dt.millisecond as int, 3)
    } else {
        Seq::<char>::empty()
    };
    let zone = if utc {
        seq!['Z']
    } else {
        Seq::<char>::empty()
    };
    assert(text =~= date + time + fraction + zone);
    assert(date.len() == 10 && time.len() == 9);
    assert forall|i: int| 0 <= i < text.len() implies 0 <= #[trigger] text[i] as int <= 127 by {
        if i < 10 {
            assert(text[i] == date[i]);
        } else if i < 19 {
            assert(text[i] == time[i - 10]);
        } else if i < 19 + fraction.len() {
            assert(text[i] == fraction[i - 19]);
        } else {
            assert(text[i] == zone[i - 19 - fraction.len()]);
        }
    }
    assert(is_ascii_chars(text));
    is_ascii_chars_encode_utf8(text);
    let bytes = text_bytes(text);
    assert forall|i: int| 0 <= i < 10 implies bytes[i] as int == #[trigger] date[i] as int by {
        assert(text[i] == date[i]);
    }
    assert forall|i: int| 0 <= i < 9 implies bytes[10 + i] as int == #[trigger] time[i] as int by {
        assert(text[10 + i] == time[i]);
    }
    assert forall|i: int| 0 <= i < fraction.len() implies bytes[19 + i] as int
        == #[trigger] fraction[i] as int by {
        assert(text[19 + i] == fraction[i]);
    }
    if utc {
        assert(text[text.len() - 1] == 'Z');
        assert(bytes[bytes.len() - 1] == 90);
    }
    assert(pow10(4) == 10000 && pow10(2) == 100 && pow10(3) == 1000 && pow10(0) == 1) by {
        reveal_with_fuel(pow10, 5);
    }
    assert forall|i: int| 0 <= i < 4 implies #[trigger] bytes[0 + i] as int == decimal_digits(
        dt.year as int,
        4,
    )[i] as int by {
        assert(date[i] == decimal_digits(dt.year as int, 4)[i]);
    }
    lemma_digits_spell(bytes, 0, dt.year as int, 4);
    assert forall|i: int| 0 <= i < 2 implies #[trigger] bytes[5 + i] as int == decimal_digits(
        dt.month as int,
        2,
    )[i] as int by {
        assert(date[5 + i] == decimal_digits(dt.month as int, 2)[i]);
    }
    lemma_digits_spell(bytes, 5, dt.month as int, 2);
    assert forall|i: int| 0 <= i < 2 implies #[trigger] bytes[8 + i] as int == decimal_digits(
        dt.day as int,
        2,
    )[i] as int by {
        assert(date[8 + i] == decimal_digits(dt.day as int, 2)[i]);
    }
    lemma_digits_spell(bytes, 8, dt.day as int, 2);
    assert forall|i: int| 0 <= i < 2 implies #[trigger] bytes[11 + i] as int == decimal_digits(
        dt.hour as int,
        2,
    )[i] as int by {
        assert(time[1 + i] == decimal_digits(dt.hour as int, 2)[i]);
    }
    lemma_digits_spell(bytes, 11, dt.hour as int, 2);
    assert forall|i: int| 0 <= i < 2 implies #[trigger] bytes[14 + i] as int == decimal_digits(
        dt.minute as int,
        2,
    )[i] as int by {
        assert(time[4 + i] == decimal_digits(dt.minute as int, 2)[i]);
    }
    lemma_digits_spell(bytes, 14, dt.minute as int, 2);
    assert forall|i: int| 0 <= i < 2 implies #[trigger] bytes[17 + i] as int == decimal_digits(
        dt.second as int,
        2,
    )[i] as int by {
        assert(time[7 + i] == decimal_digits(dt.second as int, 2)[i]);
    }
    lemma_digits_spell(bytes, 17, dt.second as int, 2);
    assert(bytes[4] == 45 && bytes[7] == 45) by {
        assert(date[4] == '-' && date[7] == '-');
    }
    assert(bytes[10] == 84 && bytes[13] == 58 && bytes[16] == 58) by {
        assert(time[0] == 'T' && time[3] == ':' && time[6] == ':');
    }
    if dt.millisecond != 0 {
        assert(bytes[19] == 46) by {
            assert(fraction[0] == '.');
        }
        assert forall|i: int| 0 <= i < 3 implies #[trigger] bytes[20 + i] as int == decimal_digits(
            dt.millisecond as int,
            3,
        )[i] as int by {
            assert(fraction[1 + i] == decimal_digits(dt.millisecond as int, 3)[i]);
        }
        lemma_digits_spell(bytes, 20, dt.millisecond as int, 3);
    }
    let end = body_length(bytes, utc);
    assert(bytes.len() == text.len());
    assert(end == 19 + fraction.len());
    assert(date_time_shape(bytes, utc));
    let count = if end > 19 {
        (end - 20) as nat
    } else {
        0nat
    };
    assert(number_at(bytes, 20, count) == Some(dt.millisecond as int));
    assert(fraction_millis(dt.millisecond as int, count) == dt.millisecond);
    let read = DateTime {
        year: (dt.year as int) as u16,
        month: (dt.month as int) as u8,
        day: (dt.day as int) as u8,
        hour: (dt.hour as int) as u8,
        minute: (dt.minute as int) as u8,
        second: (dt.second as int) as u8,
        millisecond: fraction_millis(dt.millisecond as int, count) as u16,
    };
    assert(read == dt);
}

/// Writing an instant as text and reading the text gives the instant back.
pub proof fn law_format_then_parse(dt: DateTime, utc: bool)
    requires
        dt.valid(),
    ensures
        parse_millis(format_millis(dt.timestamp(), utc), utc) == Some(dt.timestamp()),
{
    lemma_timestamp_injective(dt, civil_of(dt.timestamp()));
    law_parse_formatted(dt, utc);
}

} // verus!
