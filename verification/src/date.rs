//! Calendar dates without a time zone.

use vstd::prelude::*;
use crate::text::{
    char_is_digit, char_of_digit, chars_of, digit_char, digit_value, is_digit,
    lemma_digit_reads_back, value_of_digit,
};

verus! {

/// Whether `year` is a leap year of the Gregorian calendar.
pub open spec fn is_leap_year(year: int) -> bool {
    year % 4 == 0 && (year % 100 != 0 || year % 400 == 0)
}

/// The number of days of `month` in `year`; 0 where `month` is no month.
pub open spec fn days_in_month(year: int, month: int) -> int {
    if month == 2 {
        if is_leap_year(year) {
            29
        } else {
            28
        }
    } else if month == 4 || month == 6 || month == 9 || month == 11 {
        30
    } else if 1 <= month <= 12 {
        31
    } else {
        0
    }
}

/// Whether year, month and day name a day of the calendar, in the years 0 to 9999.
pub open spec fn is_calendar_date(year: int, month: int, day: int) -> bool {
    0 <= year <= 9999 && 1 <= month <= 12 && 1 <= day <= days_in_month(year, month)
}

/// A day of the Gregorian calendar.
#[derive(Clone, Copy, Debug, PartialEq, Eq, Structural)]
pub struct Date {
    year: u16,
    month: u8,
    day: u8,
}

impl Date {
    /// The year, from 0 to 9999.
    pub closed spec fn spec_year(self) -> int {
        self.year as int
    }

    /// The month, from 1 to 12.
    pub closed spec fn spec_month(self) -> int {
        self.month as int
    }

    /// The day of the month, from 1.
    pub closed spec fn spec_day(self) -> int {
        self.day as int
    }

    /// The date of the given year, month and day.
    pub closed spec fn of_parts(year: int, month: int, day: int) -> Date {
        Date { year: year as u16, month: month as u8, day: day as u8 }
    }

    /// Whether this value names a day of the calendar. Every `Date` that
    /// executable code holds does.
    #[verifier::type_invariant]
    pub open spec fn is_valid(self) -> bool {
        is_calendar_date(self.spec_year(), self.spec_month(), self.spec_day())
    }

    /// Whether `self` falls before `other`.
    pub open spec fn before(self, other: Date) -> bool {
        self.spec_year() < other.spec_year() || (self.spec_year() == other.spec_year() && (
            self.spec_month() < other.spec_month() || (self.spec_month() == other.spec_month()
                && self.spec_day() < other.spec_day())))
    }

    /// Whether `self` falls on `other` or before it.
    pub open spec fn not_after(self, other: Date) -> bool {
        !other.before(self)
    }

    /// The date of the given year, month and day, if the calendar has such a day.
    pub fn new(year: u16, month: u8, day: u8) -> (r: Option<Date>)
        ensures
            r is Some <==> is_calendar_date(year as int, month as int, day as int),
            r matches Some(d) ==> d == Date::of_parts(year as int, month as int, day as int)
                && d.spec_year() == year && d.spec_month() == month && d.spec_day() == day
                && d.is_valid(),
    {
        if year > 9999 || month < 1 || month > 12 || day < 1 {
            return None;
        }
        let leap = year % 4 == 0 && (year % 100 != 0 || year % 400 == 0);
        let limit: u8 = if month == 2 {
            if leap {
                29
            } else {
                28
            }
        } else if month == 4 || month == 6 || month == 9 || month == 11 {
            30
        } else {
            31
        };
        if day > limit {
            None
        } else {
            Some(Date { year, month, day })
        }
    }

    /// The year.
    pub fn year(&self) -> (r: u16)
        ensures
            r == self.spec_year(),
    {
        self.year
    }

    /// The month, from 1 to 12.
    pub fn month(&self) -> (r: u8)
        ensures
            r == self.spec_month(),
    {
        self.month
    }

    /// The day of the month.
    pub fn day(&self) -> (r: u8)
        ensures
            r == self.spec_day(),
    {
        self.day
    }

    /// Compares two dates: true where `self` is `other` or earlier.
    pub fn is_not_after(&self, other: &Date) -> (r: bool)
        ensures
            r == self.not_after(*other),
    {
        if self.year != other.year {
            self.year < other.year
        } else if self.month != other.month {
            self.month < other.month
        } else {
            self.day <= other.day
        }
    }

}

/// A date made of the parts of a day of the calendar has these parts.
pub proof fn lemma_of_parts(year: int, month: int, day: int)
    requires
        is_calendar_date(year, month, day),
    ensures
        Date::of_parts(year, month, day).spec_year() == year,
        Date::of_parts(year, month, day).spec_month() == month,
        Date::of_parts(year, month, day).spec_day() == day,
        Date::of_parts(year, month, day).is_valid(),
{
}

/// Two dates with the same year, month and day are the same date.
pub proof fn lemma_date_determined(a: Date, b: Date)
    requires
        a.spec_year() == b.spec_year(),
        a.spec_month() == b.spec_month(),
        a.spec_day() == b.spec_day(),
    ensures
        a == b,
{
}

/// The text of a date: four digits of the year, two of the month and two of
/// the day, with a hyphen between them.
pub open spec fn date_text(date: Date) -> Seq<char> {
    let y = date.spec_year();
    let m = date.spec_month();
    let d = date.spec_day();
    seq![
        digit_char(y / 1000),
        digit_char(y / 100 % 10),
        digit_char(y / 10 % 10),
        digit_char(y % 10),
        '-',
        digit_char(m / 10),
        digit_char(m % 10),
        '-',
        digit_char(d / 10),
        digit_char(d % 10),
    ]
}

/// Whether `s` has the shape of a date: ten characters, digits but for a
/// hyphen after the year and one after the month.
pub open spec fn has_date_shape(s: Seq<char>) -> bool {
    &&& s.len() == 10
    &&& is_digit(s[0]) && is_digit(s[1]) && is_digit(s[2]) && is_digit(s[3])
    &&& s[4] == '-'
    &&& is_digit(s[5]) && is_digit(s[6])
    &&& s[7] == '-'
    &&& is_digit(s[8]) && is_digit(s[9])
}

/// The year that a text of the shape of a date names.
pub open spec fn text_year(s: Seq<char>) -> int {
    digit_value(s[0]) * 1000 + digit_value(s[1]) * 100 + digit_value(s[2]) * 10 + digit_value(s[3])
}

/// The month that a text of the shape of a date names.
pub open spec fn text_month(s: Seq<char>) -> int {
    digit_value(s[5]) * 10 + digit_value(s[6])
}

/// The day of the month that a text of the shape of a date names.
pub open spec fn text_day(s: Seq<char>) -> int {
    digit_value(s[8]) * 10 + digit_value(s[9])
}

/// Whether `s` is the text of a day of the calendar.
pub open spec fn is_date_text(s: Seq<char>) -> bool {
    has_date_shape(s) && is_calendar_date(text_year(s), text_month(s), text_day(s))
}

/// The date that the text `s` names, if it is written as `YYYY-MM-DD` and
/// the calendar has the day.
pub open spec fn date_of_text(s: Seq<char>) -> Option<Date> {
    if is_date_text(s) {
        Some(Date::of_parts(text_year(s), text_month(s), text_day(s)))
    } else {
        None
    }
}

/// Reading a date's text gives the date back.
pub proof fn lemma_date_text_reads_back(date: Date)
    requires
        date.is_valid(),
    ensures
        date_of_text(date_text(date)) == Some(date),
{
    lemma_date_text_parts(date);
}

/// A date's text has the shape of a date and names the date's year, month
/// and day.
pub proof fn lemma_date_text_parts(date: Date)
    requires
        date.is_valid(),
    ensures
        is_date_text(date_text(date)),
        text_year(date_text(date)) == date.spec_year(),
        text_month(date_text(date)) == date.spec_month(),
        text_day(date_text(date)) == date.spec_day(),
{
    let y = date.spec_year();
    let m = date.spec_month();
    let d = date.spec_day();
    lemma_four_digits(y);
    lemma_digit_reads_back(y / 1000);
    lemma_digit_reads_back(y / 100 % 10);
    lemma_digit_reads_back(y / 10 % 10);
    lemma_digit_reads_back(y % 10);
    lemma_digit_reads_back(m / 10);
    lemma_digit_reads_back(m % 10);
    lemma_digit_reads_back(d / 10);
    lemma_digit_reads_back(d % 10);
}

/// A number below ten thousand is the sum of its four digits, each times its
/// power of ten.
proof fn lemma_four_digits(y: int)
    requires
        0 <= y <= 9999,
    ensures
        0 <= y / 1000 <= 9,
        0 <= y / 100 % 10 <= 9,
        0 <= y / 10 % 10 <= 9,
        0 <= y % 10 <= 9,
        y == (y / 1000) * 1000 + (y / 100 % 10) * 100 + (y / 10 % 10) * 10 + y % 10,
{
}

/// A number below a hundred is ten times its first digit and its second.
proof fn lemma_two_digits(v: int)
    requires
        0 <= v <= 99,
    ensures
        0 <= v / 10 <= 9,
        0 <= v % 10 <= 9,
        v == (v / 10) * 10 + v % 10,
{
}

/// The number that two digits spell, or `None` where one of the two
/// characters is no digit.
fn read_two_digits(first: char, second: char) -> (r: Option<u8>)
    ensures
        r is Some <==> is_digit(first) && is_digit(second),
        r matches Some(v) ==> v == digit_value(first) * 10 + digit_value(second) && v <= 99,
{
    if char_is_digit(first) && char_is_digit(second) {
        Some(value_of_digit(first) * 10 + value_of_digit(second))
    } else {
        None
    }
}

/// Reads a date written as `YYYY-MM-DD`. Any other text, and any text that
/// names no day of the calendar, gives `None`.
pub fn parse_date_chars(chars: &Vec<char>) -> (r: Option<Date>)
    ensures
        r == date_of_text(chars@),
{
    if chars.len() != 10 || chars[4] != '-' || chars[7] != '-' {
        return None;
    }
    let century = read_two_digits(chars[0], chars[1]);
    let decade = read_two_digits(chars[2], chars[3]);
    let month = read_two_digits(chars[5], chars[6]);
    let day = read_two_digits(chars[8], chars[9]);
    if century.is_none() || decade.is_none() || month.is_none() || day.is_none() {
        return None;
    }
    let year: u16 = century.unwrap() as u16 * 100 + decade.unwrap() as u16;
    Date::new(year, month.unwrap(), day.unwrap())
}

/// Reads a date written as `YYYY-MM-DD`.
pub fn parse_date(text: &str) -> (r: Option<Date>)
    ensures
        r == date_of_text(text@),
{
    let chars = chars_of(text);
    parse_date_chars(&chars)
}

impl Date {
    /// Appends this date, written as `YYYY-MM-DD`, to `out`.
    pub fn push_text(&self, out: &mut String)
        ensures
            final(out)@ == old(out)@ + date_text(*self),
    {
        proof {
            use_type_invariant(self);
        }
        let y = self.year;
        let m = self.month;
        let d = self.day;
        out.push(char_of_digit((y / 1000) as u8));
        out.push(char_of_digit((y / 100 % 10) as u8));
        out.push(char_of_digit((y / 10 % 10) as u8));
        out.push(char_of_digit((y % 10) as u8));
        out.push('-');
        out.push(char_of_digit(m / 10));
        out.push(char_of_digit(m % 10));
        out.push('-');
        out.push(char_of_digit(d / 10));
        out.push(char_of_digit(d % 10));
    }

    /// This date, written as `YYYY-MM-DD`.
    pub fn to_text(&self) -> (s: String)
        ensures
            s@ == date_text(*self),
    {
        let mut s = String::new();
        self.push_text(&mut s);
        s
    }
}

} // verus!
