//! Calendar instants on the proleptic Gregorian calendar and their
//! re-expression under a UTC offset.
use vstd::prelude::*;

verus! {

/// Seconds in one day.
pub const DAY_SECONDS: i32 = 86_400;

/// The earliest year an instant may lie in: the earliest for which a
/// timezone of the `chrono` crate can be asked for its offset.
pub const MIN_YEAR: i32 = -262_143;

/// The latest year an instant may lie in: the latest for which a timezone
/// of the `chrono` crate can be asked for its offset.
pub const MAX_YEAR: i32 = 262_142;

/// Whether `year` has a 29th of February.
pub open spec fn is_leap_year(year: int) -> bool {
    year % 4 == 0 && (year % 100 != 0 || year % 400 == 0)
}

/// How many leap days lie up to the end of `year`, counted from year 0.
pub open spec fn leap_days(year: int) -> int {
    year / 4 - year / 100 + year / 400
}

/// Number of days of `month` in `year`; 0 where `month` is no month.
pub open spec fn days_in_month(year: int, month: int) -> int {
    if month == 2 {
        if is_leap_year(year) {
            29
        } else {
            28
        }
    } else if month == 4 || month == 6 || month == 9 || month == 11 {
        30
    } else if 1 <= month <= 12 {
        31
    } else {
        0
    }
}

/// Six calendar fields as mathematical integers.
pub struct Civil {
    pub year: int,
    pub month: int,
    pub day: int,
    pub hour: int,
    pub minute: int,
    pub second: int,
}

impl Civil {
    /// The fields name a real date and time of day. Leap seconds are not
    /// modelled: second 60 is no second.
    pub open spec fn valid(self) -> bool {
        &&& 1 <= self.month <= 12
        &&& 1 <= self.day <= days_in_month(self.year, self.month)
        &&& 0 <= self.hour <= 23
        &&& 0 <= self.minute <= 59
        &&& 0 <= self.second <= 59
    }

    /// Seconds since midnight.
    pub open spec fn second_of_day(self) -> int {
        self.hour * 3600 + self.minute * 60 + self.second
    }

    /// The same time of day on the following calendar day.
    pub open spec fn next_day(self) -> Civil {
        if self.day < days_in_month(self.year, self.month) {
            Civil { day: self.day + 1, ..self }
        } else if self.month < 12 {
            Civil { month: self.month + 1, day: 1, ..self }
        } else {
            Civil { year: self.year + 1, month: 1, day: 1, ..self }
        }
    }

    /// The same time of day on the preceding calendar day.
    pub open spec fn prev_day(self) -> Civil {
        if self.day > 1 {
            Civil { day: self.day - 1, ..self }
        } else if self.month > 1 {
            Civil { month: self.month - 1, day: days_in_month(self.year, self.month - 1), ..self }
        } else {
            Civil { year: self.year - 1, month: 12, day: 31, ..self }
        }
    }

    /// The same date with the time of day set to `s` seconds after midnight.
    pub open spec fn at_second_of_day(self, s: int) -> Civil {
        Civil { hour: s / 3600, minute: (s / 60) % 60, second: s % 60, ..self }
    }

    /// The wall-clock fields `offset` seconds later (earlier, where it is
    /// negative), for an offset of less than a day either way.
    pub open spec fn shifted(self, offset: int) -> Civil {
        let t = self.second_of_day() + offset;
        if t < 0 {
            self.prev_day().at_second_of_day(t + 86_400)
        } else if t >= 86_400 {
            self.next_day().at_second_of_day(t - 86_400)
        } else {
            self.at_second_of_day(t)
        }
    }

    /// Days from 0000-03-01 to the first of `month`, with January and
    /// February counted as months 13 and 14 of the year before.
    pub open spec fn days_before_month(month: int) -> int {
        let m = if month <= 2 {
            month + 9
        } else {
            month - 3
        };
        (153 * m + 2) / 5
    }

    /// Count of days from 0000-03-01 to this date.
    pub open spec fn day_number(self) -> int {
        let y = if self.month <= 2 {
            self.year - 1
        } else {
            self.year
        };
        365 * y + leap_days(y) + Self::days_before_month(self.month) + self.day - 1
    }

    /// Seconds from 0000-03-01T00:00:00 to this instant.
    pub open spec fn second_number(self) -> int {
        self.day_number() * 86_400 + self.second_of_day()
    }
}

/// Executable form of [`is_leap_year`].
pub fn leap_year(year: i32) -> (r: bool)
    ensures
        r == is_leap_year(year as int),
{
    year % 4 == 0 && (year % 100 != 0 || year % 400 == 0)
}

/// Executable form of [`days_in_month`].
pub fn month_length(year: i32, month: u32) -> (r: u32)
    ensures
        r == days_in_month(year as int, month as int),
{
    if month == 2 {
        if leap_year(year) {
            29
        } else {
            28
        }
    } else if month == 4 || month == 6 || month == 9 || month == 11 {
        30
    } else if 1 <= month && month <= 12 {
        31
    } else {
        0
    }
}

/// A date and time of day known to exist on the UTC calendar.
#[derive(Clone, Copy, Debug, PartialEq, Eq)]
pub struct CalendarInstant {
    year: i32,
    month: u32,
    day: u32,
    hour: u32,
    minute: u32,
    second: u32,
}

/// A calendar instant re-expressed as the wall-clock fields of a target
/// timezone.
#[derive(Clone, Copy, Debug, PartialEq, Eq)]
pub struct ConvertedInstant {
    year: i32,
    month: u32,
    day: u32,
    hour: u32,
    minute: u32,
    second: u32,
}

impl View for CalendarInstant {
    type V = Civil;

    closed spec fn view(&self) -> Civil {
        Civil {
            year: self.year as int,
            month: self.month as int,
            day: self.day as int,
            hour: self.hour as int,
            minute: self.minute as int,
            second: self.second as int,
        }
    }
}

impl View for ConvertedInstant {
    type V = Civil;

    closed spec fn view(&self) -> Civil {
        Civil {
            year: self.year as int,
            month: self.month as int,
            day: self.day as int,
            hour: self.hour as int,
            minute: self.minute as int,
            second: self.second as int,
        }
    }
}

impl CalendarInstant {
    /// Every instant that `new` hands out is a real date and time in a
    /// supported year.
    pub open spec fn wf(&self) -> bool {
        &&& self@.valid()
        &&& MIN_YEAR <= self@.year <= MAX_YEAR
    }

    /// Builds the instant from six fields read as UTC, or refuses them
    /// where they name no real date and time.
    pub fn new(year: i32, month: u32, day: u32, hour: u32, minute: u32, second: u32) -> (r: Option<
        CalendarInstant,
    >)
        ensures
            r.is_some() <==> (Civil {
                year: year as int,
                month: month as int,
                day: day as int,
                hour: hour as int,
                minute: minute as int,
                second: second as int,
            }).valid() && MIN_YEAR <= year <= MAX_YEAR,
            r matches Some(c) ==> c.wf() && c@ == (Civil {
                year: year as int,
                month: month as int,
                day: day as int,
                hour: hour as int,
                minute: minute as int,
                second: second as int,
            }),
    {
        if year < MIN_YEAR || year > MAX_YEAR {
            return None;
        }
        if month < 1 || month > 12 || day < 1 || day > month_length(year, month) {
            return None;
        }
        if hour > 23 || minute > 59 || second > 59 {
            return None;
        }
        Some(CalendarInstant { year, month, day, hour, minute, second })
    }

    pub fn year(&self) -> (r: i32)
        ensures
            r == self@.year,
    {
        self.year
    }

    pub fn month(&self) -> (r: u32)
        ensures
            r == self@.month,
    {
        self.month
    }

    pub fn day(&self) -> (r: u32)
        ensures
            r == self@.day,
    {
        self.day
    }

    pub fn hour(&self) -> (r: u32)
        ensures
            r == self@.hour,
    {
        self.hour
    }

    pub fn minute(&self) -> (r: u32)
        ensures
            r == self@.minute,
    {
        self.minute
    }

    pub fn second(&self) -> (r: u32)
        ensures
            r == self@.second,
    {
        self.second
    }

    /// The wall-clock fields of this instant in a zone that is `offset`
    /// seconds ahead of UTC.
    pub fn shift(&self, offset: i32) -> (r: ConvertedInstant)
        requires
            self.wf(),
            -DAY_SECONDS < offset < DAY_SECONDS,
        ensures
            r@ == self@.shifted(offset as int),
            r@.valid(),
    {
        let t: i32 = (self.hour * 3600 + self.minute * 60 + self.second) as i32 + offset;
        let mut year: i32 = self.year;
        let mut month: u32 = self.month;
        let mut day: u32 = self.day;
        let s: u32;
        if t < 0 {
            s = (t + DAY_SECONDS) as u32;
            if day > 1 {
                day = day - 1;
            } else if month > 1 {
                month = month - 1;
                day = month_length(year, month);
            } else {
                year = year - 1;
                month = 12;
                day = 31;
            }
        } else if t >= DAY_SECONDS {
            s = (t - DAY_SECONDS) as u32;
            if day < month_length(year, month) {
                day = day + 1;
            } else if month < 12 {
                month = month + 1;
                day = 1;
            } else {
                year = year + 1;
                month = 1;
                day = 1;
            }
        } else {
            s = t as u32;
        }
        ConvertedInstant {
            year,
            month,
            day,
            hour: s / 3600,
            minute: (s / 60) % 60,
            second: s % 60,
        }
    }
}

impl ConvertedInstant {
    pub fn year(&self) -> (r: i32)
        ensures
            r == self@.year,
    {
        self.year
    }

    pub fn month(&self) -> (r: u32)
        ensures
            r == self@.month,
    {
        self.month
    }

    pub fn day(&self) -> (r: u32)
        ensures
            r == self@.day,
    {
        self.day
    }

    pub fn hour(&self) -> (r: u32)
        ensures
            r == self@.hour,
    {
        self.hour
    }

    pub fn minute(&self) -> (r: u32)
        ensures
            r == self@.minute,
    {
        self.minute
    }

    pub fn second(&self) -> (r: u32)
        ensures
            r == self@.second,
    {
        self.second
    }
}

/// A year adds one leap day to the count exactly if it is a leap year.
proof fn lemma_leap_days_step(year: int)
    ensures
        leap_days(year) - leap_days(year - 1) == if is_leap_year(year) {
            1int
        } else {
            0int
        },
{
    let a = year / 4 - (year - 1) / 4;
    let b = year / 100 - (year - 1) / 100;
    let c = year / 400 - (year - 1) / 400;
    assert(a == if year % 4 == 0 { 1int } else { 0int });
    assert(b == if year % 100 == 0 { 1int } else { 0int });
    assert(c == if year % 400 == 0 { 1int } else { 0int });
    assert(year % 400 == 0 ==> year % 100 == 0);
    assert(year % 100 == 0 ==> year % 4 == 0);
}

/// The first of the month after `month` lies as many days after the first
/// of `month` as `month` has days.
proof fn lemma_month_step(year: int, month: int)
    requires
        1 <= month <= 12,
    ensures
        (if month < 12 {
            Civil { year, month: month + 1, day: 1, hour: 0, minute: 0, second: 0 }
        } else {
            Civil { year: year + 1, month: 1, day: 1, hour: 0, minute: 0, second: 0 }
        }).day_number() == (Civil { year, month, day: 1, hour: 0, minute: 0, second: 0 }).day_number()
            + days_in_month(year, month),
{
    if month == 2 {
        lemma_leap_days_step(year);
    } else if month == 1 {
    } else if month == 12 {
    } else if month <= 6 {
    } else {
    }
}

/// Every day after a real date is a real date, one further along the count
/// of days.
pub proof fn lemma_next_day(c: Civil)
    requires
        c.valid(),
    ensures
        c.next_day().valid(),
        c.next_day().day_number() == c.day_number() + 1,
        c.next_day().second_of_day() == c.second_of_day(),
{
    if c.day < days_in_month(c.year, c.month) {
    } else {
        lemma_month_step(c.year, c.month);
    }
}

/// Every day before a real date is a real date, one back along the count of
/// days.
pub proof fn lemma_prev_day(c: Civil)
    requires
        c.valid(),
    ensures
        c.prev_day().valid(),
        c.prev_day().day_number() == c.day_number() - 1,
        c.prev_day().second_of_day() == c.second_of_day(),
{
    if c.day > 1 {
    } else if c.month > 1 {
        lemma_month_step(c.year, c.month - 1);
    } else {
        lemma_month_step(c.year - 1, 12);
    }
}

/// Setting the time of day to a second of the day gives that second back.
pub proof fn lemma_at_second_of_day(c: Civil, s: int)
    requires
        c.valid(),
        0 <= s < 86_400,
    ensures
        c.at_second_of_day(s).valid(),
        c.at_second_of_day(s).second_of_day() == s,
        c.at_second_of_day(s).day_number() == c.day_number(),
{
}

/// Shifting a real instant by an offset of less than a day gives a real date
/// and time that lies exactly `offset` seconds from it.
pub proof fn lemma_shift_is_exact(c: Civil, offset: int)
    requires
        c.valid(),
        -86_400 < offset < 86_400,
    ensures
        c.shifted(offset).valid(),
        c.shifted(offset).second_number() == c.second_number() + offset,
{
    let t = c.second_of_day() + offset;
    if t < 0 {
        lemma_prev_day(c);
        lemma_at_second_of_day(c.prev_day(), t + 86_400);
    } else if t >= 86_400 {
        lemma_next_day(c);
        lemma_at_second_of_day(c.next_day(), t - 86_400);
    } else {
        lemma_at_second_of_day(c, t);
    }
}

/// With a target zone at offset zero the wall-clock fields stay as they
/// are.
pub proof fn lemma_zero_offset_is_identity(c: Civil)
    requires
        c.valid(),
    ensures
        c.shifted(0) == c,
{
}

} // verus!
