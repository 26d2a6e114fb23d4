//! Calendar timestamps in UTC and their rendering as `YYYY.MMDD.HH:MM:SS`.
//!
//! The calendar is the proleptic Gregorian one, with the year zero and
//! negative years before it. The conversion of a clock reading and the
//! rendering are those of the `chrono` crate.

use chrono::{Datelike, Timelike};
use vstd::prelude::*;

verus! {

/// The first year that a timestamp can hold.
pub const MIN_YEAR: i32 = -262143;

/// The last year that a timestamp can hold.
pub const MAX_YEAR: i32 = 262142;

/// A timestamp as plain numbers: what a `Timestamp` stands for in contracts.
pub struct Civil {
    pub year: int,
    pub month: int,
    pub day: int,
    pub hour: int,
    pub minute: int,
    pub second: int,
    pub nanosecond: int,
}

/// Whether `year` has a 29th of February.
pub open spec fn is_leap_year(year: int) -> bool {
    year % 4 == 0 && (year % 100 != 0 || year % 400 == 0)
}

/// The number of days of a month. `month` counts from 1.
pub open spec fn days_in_month(year: int, month: int) -> int {
    if month == 2 {
        if is_leap_year(year) {
            29
        } else {
            28
        }
    } else if month == 4 || month == 6 || month == 9 || month == 11 {
        30
    } else {
        31
    }
}

impl Civil {
    /// Whether the numbers name a moment: a day that the calendar has, in a
    /// year within range, and a time of that day. A nanosecond count of one
    /// thousand million or more stands for a leap second, and is in order
    /// only in second 59.
    pub open spec fn valid(self) -> bool {
        &&& MIN_YEAR <= self.year <= MAX_YEAR
        &&& 1 <= self.month <= 12
        &&& 1 <= self.day <= days_in_month(self.year, self.month)
        &&& 0 <= self.hour < 24
        &&& 0 <= self.minute < 60
        &&& 0 <= self.second < 60
        &&& 0 <= self.nanosecond < 2_000_000_000
        &&& (self.nanosecond >= 1_000_000_000 ==> self.second == 59)
    }
}

/// A moment in UTC, to the nanosecond.
#[derive(Debug, Clone, Copy, PartialEq, Eq)]
pub struct Timestamp {
    year: i32,
    month: u32,
    day: u32,
    hour: u32,
    minute: u32,
    second: u32,
    nanosecond: u32,
}

impl View for Timestamp {
    type V = Civil;

    closed spec fn view(&self) -> Civil {
        Civil {
            year: self.year as int,
            month: self.month as int,
            day: self.day as int,
            hour: self.hour as int,
            minute: self.minute as int,
            second: self.second as int,
            nanosecond: self.nanosecond as int,
        }
    }
}

/// The decimal digit for `n`, which is between 0 and 9.
pub open spec fn digit(n: int) -> char {
    (n + 48) as u8 as char
}

/// The decimal digits of `n`, without leading zeros.
pub open spec fn decimal(n: nat) -> Seq<char>
    decreases n,
{
    if n < 10 {
        seq![digit(n as int)]
    } else {
        decimal(n / 10).push(digit((n % 10) as int))
    }
}

/// `s` with zeros in front of it until it is `width` long.
pub open spec fn zero_padded(s: Seq<char>, width: nat) -> Seq<char> {
    if s.len() >= width {
        s
    } else {
        Seq::new((width - s.len()) as nat, |i: int| '0') + s
    }
}

/// The year as it is rendered: four digits from 0 to 9999, else a sign and
/// the digits, at least four of them.
pub open spec fn year_text(year: int) -> Seq<char> {
    let digits = zero_padded(decimal(vstd::math::abs(year)), 4);
    if year < 0 {
        seq!['-'] + digits
    } else if year > 9999 {
        seq!['+'] + digits
    } else {
        digits
    }
}

/// A number below one hundred as two digits.
pub open spec fn two_digits(n: int) -> Seq<char> {
    seq![digit(n / 10), digit(n % 10)]
}

/// The timestamp rendered as `YYYY.MMDD.HH:MM:SS`. A leap second is
/// rendered as second 60.
pub open spec fn stamp_text(c: Civil) -> Seq<char> {
    year_text(c.year) + seq!['.'] + two_digits(c.month) + two_digits(c.day) + seq!['.']
        + two_digits(c.hour) + seq![':'] + two_digits(c.minute) + seq![':'] + two_digits(
        c.second + c.nanosecond / 1_000_000_000,
    )
}

/// The first moment of 1970, from which clocks count.
pub open spec fn epoch() -> Civil {
    Civil { year: 1970, month: 1, day: 1, hour: 0, minute: 0, second: 0, nanosecond: 0 }
}

/// The moment in UTC that lies `secs` seconds and `nanos` nanoseconds after
/// the first moment of 1970, as `chrono::DateTime::from_timestamp` computes
/// it; nothing when it has none for the two numbers.
pub uninterp spec fn utc_civil(secs: int, nanos: int) -> Option<Civil>;

/// An optional timestamp as plain numbers.
pub open spec fn civil_of(ts: Option<Timestamp>) -> Option<Civil> {
    match ts {
        Some(t) => Some(t@),
        None => None,
    }
}

/// The moment that a reading of the clock stands for. A reading is the
/// seconds and nanoseconds since the first moment of 1970. Where there is no
/// reading, or none that names a moment, it is that first moment itself.
pub open spec fn moment_of(reading: Option<(u64, u32)>) -> Civil {
    match reading {
        Some(r) => if r.0 <= i64::MAX {
            match utc_civil(r.0 as int, r.1 as int) {
                Some(c) => c,
                None => epoch(),
            }
        } else {
            epoch()
        },
        None => epoch(),
    }
}

/// Whether `c` is a decimal digit.
pub open spec fn is_digit(c: char) -> bool {
    '0' <= c && c <= '9'
}

/// Whether `c` can stand in a rendered timestamp: a digit, a dot, a colon or
/// a sign.
pub open spec fn is_stamp_char(c: char) -> bool {
    is_digit(c) || c == '.' || c == ':' || c == '+' || c == '-'
}

/// The decimal digits of a number are digits, and there are as many of them
/// as the size of the number asks for, up to six.
pub proof fn lemma_decimal(n: nat)
    ensures
        decimal(n).len() >= 1,
        forall|i: int| 0 <= i < decimal(n).len() ==> is_digit(#[trigger] decimal(n)[i]),
        n < 10 ==> decimal(n).len() == 1,
        10 <= n < 100 ==> decimal(n).len() == 2,
        100 <= n < 1000 ==> decimal(n).len() == 3,
        1000 <= n < 10000 ==> decimal(n).len() == 4,
        10000 <= n < 100000 ==> decimal(n).len() == 5,
        100000 <= n < 1000000 ==> decimal(n).len() == 6,
    decreases n,
{
    if n >= 10 {
        lemma_decimal(n / 10);
        let d = digit((n % 10) as int);
        assert(is_digit(d));
        assert forall|i: int| 0 <= i < decimal(n).len() implies is_digit(
            #[trigger] decimal(n)[i],
        ) by {
            if i < decimal(n / 10).len() {
                assert(decimal(n)[i] == decimal(n / 10)[i]);
            }
        }
    } else {
        assert(is_digit(digit(n as int)));
    }
}

/// A rendered timestamp holds digits, dots, colons and at most a sign; with
/// a year from 0 to 9999 it is eighteen characters long, with the dots and
/// colons of `YYYY.MMDD.HH:MM:SS` in their places.
pub proof fn lemma_stamp_text(c: Civil)
    requires
        c.valid(),
    ensures
        forall|i: int| 0 <= i < stamp_text(c).len() ==> is_stamp_char(#[trigger] stamp_text(c)[i]),
        0 <= c.year <= 9999 ==> {
            &&& stamp_text(c).len() == 18
            &&& stamp_text(c)[4] == '.'
            &&& stamp_text(c)[9] == '.'
            &&& stamp_text(c)[12] == ':'
            &&& stamp_text(c)[15] == ':'
            &&& forall|i: int|
                0 <= i < 18 && i != 4 && i != 9 && i != 12 && i != 15 ==> is_digit(
                    #[trigger] stamp_text(c)[i],
                )
        },
{
    let y = year_text(c.year);
    let magnitude = vstd::math::abs(c.year) as nat;
    lemma_decimal(magnitude);
    let digits = zero_padded(decimal(magnitude), 4);
    assert forall|i: int| 0 <= i < digits.len() implies is_digit(#[trigger] digits[i]) by {
        if decimal(magnitude).len() < 4 {
            let pad = 4 - decimal(magnitude).len();
            if i >= pad {
                assert(digits[i] == decimal(magnitude)[i - pad]);
            }
        }
    }
    assert forall|i: int| 0 <= i < y.len() implies is_stamp_char(#[trigger] y[i]) by {
        if c.year < 0 || c.year > 9999 {
            if i > 0 {
                assert(y[i] == digits[i - 1]);
            }
        }
    }
    let sec = c.second + c.nanosecond / 1_000_000_000;
    assert(0 <= sec <= 60);
    lemma_two_digits(c.month);
    lemma_two_digits(c.day);
    lemma_two_digits(c.hour);
    lemma_two_digits(c.minute);
    lemma_two_digits(sec);
    let rest = seq!['.'] + two_digits(c.month) + two_digits(c.day) + seq!['.'] + two_digits(c.hour)
        + seq![':'] + two_digits(c.minute) + seq![':'] + two_digits(sec);
    assert(rest.len() == 14);
    assert(stamp_text(c) =~= y + rest);
    assert forall|i: int| 0 <= i < rest.len() implies is_stamp_char(#[trigger] rest[i]) by {
    }
    assert forall|i: int| 0 <= i < stamp_text(c).len() implies is_stamp_char(
        #[trigger] stamp_text(c)[i],
    ) by {
        if i < y.len() {
            assert(stamp_text(c)[i] == y[i]);
        } else {
            assert(stamp_text(c)[i] == rest[i - y.len()]);
        }
    }
    if 0 <= c.year <= 9999 {
        assert(y.len() == 4);
        assert forall|i: int|
            0 <= i < 18 && i != 4 && i != 9 && i != 12 && i != 15 implies is_digit(
            #[trigger] stamp_text(c)[i],
        ) by {
            if i < 4 {
                assert(stamp_text(c)[i] == digits[i]);
            } else {
                assert(stamp_text(c)[i] == rest[i - 4]);
            }
        }
    }
}

/// A number below one hundred is rendered as two digits.
pub proof fn lemma_two_digits(n: int)
    requires
        0 <= n < 100,
    ensures
        two_digits(n).len() == 2,
        is_digit(two_digits(n)[0]),
        is_digit(two_digits(n)[1]),
{
}

impl Timestamp {
    /// A timestamp names a moment that the calendar has.
    #[verifier::type_invariant]
    closed spec fn well_formed(self) -> bool {
        self@.valid()
    }

    /// The timestamp with the given calendar date and time of day, if there
    /// is such a moment.
    pub fn from_parts(
        year: i32,
        month: u32,
        day: u32,
        hour: u32,
        minute: u32,
        second: u32,
        nanosecond: u32,
    ) -> (r: Option<Timestamp>)
        ensures
            r is Some <==> (Civil {
                year: year as int,
                month: month as int,
                day: day as int,
                hour: hour as int,
                minute: minute as int,
                second: second as int,
                nanosecond: nanosecond as int,
            }).valid(),
            r is Some ==> r->0@ == (Civil {
                year: year as int,
                month: month as int,
                day: day as int,
                hour: hour as int,
                minute: minute as int,
                second: second as int,
                nanosecond: nanosecond as int,
            }),
    {
        if year < MIN_YEAR || year > MAX_YEAR || month < 1 || month > 12 || day < 1 {
            return None;
        }
        if day > month_length(year, month) {
            return None;
        }
        if hour >= 24 || minute >= 60 || second >= 60 || nanosecond >= 2_000_000_000 {
            return None;
        }
        if nanosecond >= 1_000_000_000 && second != 59 {
            return None;
        }
        Some(Timestamp { year, month, day, hour, minute, second, nanosecond })
    }

    /// The first moment of 1970.
    pub fn unix_epoch() -> (ts: Timestamp)
        ensures
            ts@ == epoch(),
    {
        Timestamp { year: 1970, month: 1, day: 1, hour: 0, minute: 0, second: 0, nanosecond: 0 }
    }

    /// The moment that a reading of the clock stands for: the moment so many
    /// seconds and nanoseconds after the first moment of 1970, and that
    /// first moment itself where there is no reading or none that names a
    /// moment.
    pub fn from_reading(reading: Option<(u64, u32)>) -> (ts: Timestamp)
        ensures
            ts@ == moment_of(reading),
            ts@.valid(),
    {
        match reading {
            Some((secs, nanos)) => {
                if secs <= 0x7fff_ffff_ffff_ffff {
                    match utc_at(secs as i64, nanos) {
                        Some(ts) => ts,
                        None => Timestamp::unix_epoch(),
                    }
                } else {
                    Timestamp::unix_epoch()
                }
            },
            None => Timestamp::unix_epoch(),
        }
    }

    /// The current moment by the system clock. A clock that is set before
    /// 1970, or beyond the calendar, gives the first moment of 1970.
    pub fn now() -> (ts: Timestamp)
        ensures
            ts@.valid(),
    {
        Timestamp::from_reading(since_epoch())
    }

    /// The timestamp as text, in the form `YYYY.MMDD.HH:MM:SS`. A timestamp
    /// always names a moment that the calendar has.
    pub fn render(&self) -> (text: String)
        ensures
            text@ == stamp_text(self@),
            self@.valid(),
    {
        proof {
            use_type_invariant(self);
        }
        format_stamp(self)
    }

    /// The year; negative before the year zero.
    pub fn year(&self) -> (r: i32)
        ensures
            r == self@.year,
    {
        self.year
    }

    /// The month, from 1 to 12.
    pub fn month(&self) -> (r: u32)
        ensures
            r == self@.month,
    {
        self.month
    }

    /// The day of the month, from 1.
    pub fn day(&self) -> (r: u32)
        ensures
            r == self@.day,
    {
        self.day
    }

    /// The hour, from 0 to 23.
    pub fn hour(&self) -> (r: u32)
        ensures
            r == self@.hour,
    {
        self.hour
    }

    /// The minute, from 0 to 59.
    pub fn minute(&self) -> (r: u32)
        ensures
            r == self@.minute,
    {
        self.minute
    }

    /// The second, from 0 to 59.
    pub fn second(&self) -> (r: u32)
        ensures
            r == self@.second,
    {
        self.second
    }

    /// The nanoseconds within the second; one thousand million or more in a
    /// leap second.
    pub fn nanosecond(&self) -> (r: u32)
        ensures
            r == self@.nanosecond,
    {
        self.nanosecond
    }
}

/// The number of days of a month of a year within range.
fn month_length(year: i32, month: u32) -> (days: u32)
    requires
        MIN_YEAR <= year <= MAX_YEAR,
        1 <= month <= 12,
    ensures
        days == days_in_month(year as int, month as int),
{
    if month == 2 {
        // 262400 is a multiple of 400 that lifts every year in range above zero.
        let lifted: u32 = (year + 262400) as u32;
        let in_cycle: u32 = lifted % 400;
        assert(in_cycle as int == (year as int) % 400) by {
            assert(lifted as int == year as int + 656 * 400);
        }
        assert((year as int) % 4 == (in_cycle as int) % 4);
        assert((year as int) % 100 == (in_cycle as int) % 100);
        if in_cycle % 4 == 0 && (in_cycle % 100 != 0 || in_cycle == 0) {
            29
        } else {
            28
        }
    } else if month == 4 || month == 6 || month == 9 || month == 11 {
        30
    } else {
        31
    }
}

/// `std::time::SystemTime::elapsed` on the Unix epoch: the whole seconds and
/// the nanoseconds that the system clock counts since the first moment of
/// 1970, or nothing when the clock reads an earlier time. Nothing is claimed
/// of the numbers.
#[verifier::external_body]
fn since_epoch() -> (reading: Option<(u64, u32)>)
{
    match std::time::UNIX_EPOCH.elapsed() {
        Ok(elapsed) => Some((elapsed.as_secs(), elapsed.subsec_nanos())),
        Err(_) => None,
    }
}

/// `chrono::DateTime::<Utc>::from_timestamp`, taken apart into its calendar
/// fields: the moment `secs` seconds and `nanos` nanoseconds after the first
/// moment of 1970, which is `utc_civil` of the two numbers, or nothing when
/// the numbers are out of range. A moment that comes back is one that the
/// calendar has.
#[verifier::external_body]
fn utc_at(secs: i64, nanos: u32) -> (ts: Option<Timestamp>)
    ensures
        civil_of(ts) == utc_civil(secs as int, nanos as int),
        ts is Some ==> ts->0@.valid(),
{
    let moment = chrono::DateTime::from_timestamp(secs, nanos)?;
    Some(
        Timestamp {
            year: moment.year(),
            month: moment.month(),
            day: moment.day(),
            hour: moment.hour(),
            minute: moment.minute(),
            second: moment.second(),
            nanosecond: moment.nanosecond(),
        },
    )
}

/// `chrono::DateTime::<Utc>::format` with the pattern `%Y.%m%d.%H:%M:%S`, on
/// the moment that `ts` names: the year on four digits (signed, and longer,
/// outside 0 to 9999), then month, day, hour, minute and second on two
/// digits each, a leap second as 60.
#[verifier::external_body]
fn format_stamp(ts: &Timestamp) -> (text: String)
    requires
        ts@.valid(),
    ensures
        text@ == stamp_text(ts@),
{
    let date = chrono::NaiveDate::from_ymd_opt(ts.year, ts.month, ts.day).unwrap();
    let time = date.and_hms_nano_opt(ts.hour, ts.minute, ts.second, ts.nanosecond).unwrap();
    time.and_utc().format("%Y.%m%d.%H:%M:%S").to_string()
}

} // verus!
