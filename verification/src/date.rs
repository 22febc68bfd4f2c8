//! Calendar days.
//!
//! Reports bucket and filter sales by day. A [`Date`] is such a day; the
//! time of day of a timestamp is dropped when the timestamp is read.

use crate::text::{digit_byte, digit_str};
use vstd::prelude::*;
use vstd::string::*;

verus! {

/// Whether `year` is a leap year of the proleptic Gregorian calendar.
pub open spec fn is_leap_year(year: int) -> bool {
    year % 4 == 0 && (year % 100 != 0 || year % 400 == 0)
}

/// Number of days in `year`.
pub open spec fn days_in_year(year: int) -> int {
    if is_leap_year(year) {
        366
    } else {
        365
    }
}

/// Number of days in month `month` (1 to 12) of `year`.
pub open spec fn days_in_month(year: int, month: int) -> int {
    if month == 2 {
        if is_leap_year(year) {
            29
        } else {
            28
        }
    } else if month == 4 || month == 6 || month == 9 || month == 11 {
        30
    } else {
        31
    }
}

/// Number of days in the years from 0 up to but not including `year`.
pub open spec fn days_before_year(year: int) -> int
    decreases year,
{
    if year <= 0 {
        0
    } else {
        days_before_year(year - 1) + days_in_year(year - 1)
    }
}

/// Number of days of `year` that lie in the months before `month`.
pub open spec fn days_before_month(year: int, month: int) -> int
    decreases month,
{
    if month <= 1 {
        0
    } else {
        days_before_month(year, month - 1) + days_in_month(year, month - 1)
    }
}

/// Days of a common year that lie before month `month`.
pub open spec fn common_days_before_month(month: int) -> int {
    if month <= 1 {
        0
    } else if month == 2 {
        31
    } else if month == 3 {
        59
    } else if month == 4 {
        90
    } else if month == 5 {
        120
    } else if month == 6 {
        151
    } else if month == 7 {
        181
    } else if month == 8 {
        212
    } else if month == 9 {
        243
    } else if month == 10 {
        273
    } else if month == 11 {
        304
    } else {
        334
    }
}

/// The days before a year, counted without walking through the years:
/// 365 for each, and one more for each leap year among them.
pub proof fn lemma_days_before_year(year: int)
    requires
        0 <= year,
    ensures
        days_before_year(year) == 365 * year + (year + 3) / 4 - (year + 99) / 100 + (year + 399)
            / 400,
    decreases year,
{
    if year > 0 {
        lemma_days_before_year(year - 1);
    }
}

/// The days before a month, read from the table of a common year, with
/// one more after February of a leap year.
pub proof fn lemma_days_before_month(year: int, month: int)
    requires
        1 <= month <= 12,
    ensures
        days_before_month(year, month) == common_days_before_month(month) + if month > 2
            && is_leap_year(year) {
            1int
        } else {
            0int
        },
        days_before_month(year, month) + days_in_month(year, month) <= days_in_year(year),
{
    reveal_with_fuel(days_before_month, 13);
}

/// Later years start later, by at least the length of every year in
/// between.
pub proof fn lemma_years_grow(earlier: int, later: int)
    requires
        0 <= earlier < later,
    ensures
        days_before_year(earlier) + days_in_year(earlier) <= days_before_year(later),
    decreases later,
{
    if earlier + 1 < later {
        lemma_years_grow(earlier, later - 1);
    }
}

/// Later months of a year start later, by at least the length of every
/// month in between.
pub proof fn lemma_months_grow(year: int, earlier: int, later: int)
    requires
        1 <= earlier < later <= 12,
    ensures
        days_before_month(year, earlier) + days_in_month(year, earlier) <= days_before_month(
            year,
            later,
        ),
{
    lemma_days_before_month(year, earlier);
    lemma_days_before_month(year, later);
}

/// Whether `byte` is an ASCII digit.
pub open spec fn is_digit(byte: u8) -> bool {
    48 <= byte <= 57
}

/// The number written by the `width` digits of `text` that start at
/// `start`.
pub open spec fn number_at(text: Seq<u8>, start: int, width: int) -> int
    decreases width,
{
    if width <= 0 {
        0
    } else {
        number_at(text, start, width - 1) * 10 + (text[start + width - 1] - 48)
    }
}

/// Whether the `width` bytes of `text` that start at `start` are digits.
pub open spec fn digits_at(text: Seq<u8>, start: int, width: int) -> bool {
    forall|i: int| start <= i < start + width ==> is_digit(#[trigger] text[i])
}

/// Whether `text` begins with a day written as `YYYY-MM-DD`. What
/// follows the tenth byte, such as a time of day, is not looked at.
pub open spec fn begins_with_date(text: Seq<u8>) -> bool {
    &&& text.len() >= 10
    &&& digits_at(text, 0, 4)
    &&& text[4] == 45
    &&& digits_at(text, 5, 2)
    &&& text[7] == 45
    &&& digits_at(text, 8, 2)
    &&& Date::is_calendar_day(number_at(text, 0, 4), number_at(text, 5, 2), number_at(text, 8, 2))
}

/// The day with which `text` begins, if it begins with one.
pub open spec fn date_in(text: Seq<u8>) -> Option<Date> {
    if begins_with_date(text) {
        Some(Date::of(number_at(text, 0, 4), number_at(text, 5, 2), number_at(text, 8, 2)))
    } else {
        None
    }
}

/// The day with which the text `text` begins, if it begins with one:
/// the day that its UTF-8 bytes begin with.
#[verifier::opaque]
pub open spec fn day_of_text(text: Seq<char>) -> Option<Date> {
    date_in(vstd::utf8::encode_utf8(text))
}

/// A day that is read from a text exists.
pub proof fn lemma_day_of_text(text: Seq<char>)
    ensures
        day_of_text(text) matches Some(day) ==> day.valid(),
{
    reveal(day_of_text);
    let bytes = vstd::utf8::encode_utf8(text);
    if begins_with_date(bytes) {
        Date::lemma_of(number_at(bytes, 0, 4), number_at(bytes, 5, 2), number_at(bytes, 8, 2));
    }
}

/// A day of the proleptic Gregorian calendar, between 0000-01-01 and
/// 9999-12-31. Every value is a day that exists.
#[derive(Clone, Copy, Debug, PartialEq, Eq, Structural)]
pub struct Date {
    year: u16,
    month: u8,
    day: u8,
}

impl Date {
    /// Whether the three numbers name a day that exists.
    pub open spec fn is_calendar_day(year: int, month: int, day: int) -> bool {
        &&& 0 <= year <= 9999
        &&& 1 <= month <= 12
        &&& 1 <= day <= days_in_month(year, month)
    }

    /// Whether `self` is a day that exists. This holds of every `Date`
    /// that a program can hold.
    #[verifier::type_invariant]
    pub closed spec fn valid(self) -> bool {
        Self::is_calendar_day(self.year as int, self.month as int, self.day as int)
    }

    /// The day `year`-`month`-`day`.
    pub closed spec fn of(year: int, month: int, day: int) -> Date
        recommends
            Self::is_calendar_day(year, month, day),
    {
        Date { year: year as u16, month: month as u8, day: day as u8 }
    }

    pub closed spec fn spec_year(&self) -> u16 {
        self.year
    }

    pub closed spec fn spec_month(&self) -> u8 {
        self.month
    }

    pub closed spec fn spec_day(&self) -> u8 {
        self.day
    }

    /// Number of days between 0000-01-01 and `self`.
    pub open spec fn day_number(self) -> int {
        days_before_year(self.year() as int) + days_before_month(
            self.year() as int,
            self.month() as int,
        ) + self.day() - 1
    }

    /// Whether `self` is the same day as `other` or an earlier one.
    pub open spec fn not_after(self, other: Date) -> bool {
        ||| self.year() < other.year()
        ||| self.year() == other.year() && self.month() < other.month()
        ||| self.year() == other.year() && self.month() == other.month() && self.day()
            <= other.day()
    }

    /// `self` written as `YYYY-MM-DD`.
    pub open spec fn text(self) -> Seq<u8> {
        seq![
            digit_byte(self.year() as int / 1000),
            digit_byte(self.year() as int / 100 % 10),
            digit_byte(self.year() as int / 10 % 10),
            digit_byte(self.year() as int % 10),
            45u8,
            digit_byte(self.month() as int / 10),
            digit_byte(self.month() as int % 10),
            45u8,
            digit_byte(self.day() as int / 10),
            digit_byte(self.day() as int % 10),
        ]
    }

    /// `self` as the number `YYYYMMDD`. Earlier days have smaller
    /// numbers.
    pub open spec fn packed(self) -> int {
        self.year() * 10000 + self.month() * 100 + self.day()
    }

    /// The day that `packed` writes as `number`.
    pub open spec fn unpacked(number: int) -> Date {
        Self::of(number / 10000, number / 100 % 100, number % 100)
    }

    /// A day is known by its year, month and day.
    pub proof fn lemma_parts(self)
        requires
            self.valid(),
        ensures
            Self::is_calendar_day(self.year() as int, self.month() as int, self.day() as int),
            self == Self::of(self.year() as int, self.month() as int, self.day() as int),
    {
    }

    /// The parts of the day that `of` makes.
    pub proof fn lemma_of(year: int, month: int, day: int)
        requires
            Self::is_calendar_day(year, month, day),
        ensures
            Self::of(year, month, day).valid(),
            Self::of(year, month, day).year() == year,
            Self::of(year, month, day).month() == month,
            Self::of(year, month, day).day() == day,
    {
    }

    /// The three ways of comparing days agree: by year, month and
    /// day, by day number, and by the number `YYYYMMDD`. Different days
    /// have different numbers.
    pub proof fn lemma_order(self, other: Date)
        requires
            self.valid(),
            other.valid(),
        ensures
            self.not_after(other) <==> self.day_number() <= other.day_number(),
            self.not_after(other) <==> self.packed() <= other.packed(),
            self.day_number() == other.day_number() <==> self == other,
            self.packed() == other.packed() <==> self == other,
    {
        let (y1, m1, d1) = (self.year() as int, self.month() as int, self.day() as int);
        let (y2, m2, d2) = (other.year() as int, other.month() as int, other.day() as int);
        lemma_days_before_month(y1, m1);
        lemma_days_before_month(y2, m2);
        if y1 < y2 {
            lemma_years_grow(y1, y2);
        } else if y2 < y1 {
            lemma_years_grow(y2, y1);
        } else if m1 < m2 {
            lemma_months_grow(y1, m1, m2);
        } else if m2 < m1 {
            lemma_months_grow(y1, m2, m1);
        }
    }

    /// Reading what `text` writes gives the day back.
    pub proof fn lemma_text_round_trip(self)
        requires
            self.valid(),
        ensures
            self.text().len() == 10,
            date_in(self.text()) == Some(self),
    {
        reveal_with_fuel(number_at, 5);
        let text = self.text();
        assert(number_at(text, 0, 4) == self.year());
        assert(number_at(text, 5, 2) == self.month());
        assert(number_at(text, 8, 2) == self.day());
    }

    /// The day `year`-`month`-`day`, or `None` when no such day exists.
    pub fn new(year: u16, month: u8, day: u8) -> (result: Option<Date>)
        ensures
            result == if Self::is_calendar_day(year as int, month as int, day as int) {
                Some(Self::of(year as int, month as int, day as int))
            } else {
                None
            },
    {
        if year > 9999 || month < 1 || month > 12 || day < 1 {
            return None;
        }
        if day > Self::month_length(year, month) {
            return None;
        }
        Some(Date { year, month, day })
    }

    /// Number of days in month `month` of `year`.
    fn month_length(year: u16, month: u8) -> (length: u8)
        ensures
            length == days_in_month(year as int, month as int),
    {
        let leap = year % 4 == 0 && (year % 100 != 0 || year % 400 == 0);
        if month == 2 {
            if leap {
                29
            } else {
                28
            }
        } else if month == 4 || month == 6 || month == 9 || month == 11 {
            30
        } else {
            31
        }
    }

    /// The year, from 0 to 9999.
    #[verifier::when_used_as_spec(spec_year)]
    pub fn year(&self) -> (y: u16)
        ensures
            y == self.spec_year(),
    {
        self.year
    }

    /// The month, from 1 to 12.
    #[verifier::when_used_as_spec(spec_month)]
    pub fn month(&self) -> (m: u8)
        ensures
            m == self.spec_month(),
    {
        self.month
    }

    /// The day of the month, from 1.
    #[verifier::when_used_as_spec(spec_day)]
    pub fn day(&self) -> (d: u8)
        ensures
            d == self.spec_day(),
    {
        self.day
    }

    /// Whether `self` is the same day as `other` or an earlier one.
    pub fn is_not_after(&self, other: &Date) -> (result: bool)
        ensures
            result == self.not_after(*other),
    {
        self.year < other.year || (self.year == other.year && (self.month < other.month || (
        self.month == other.month && self.day <= other.day)))
    }

    /// Number of days between 0000-01-01 and `self`.
    pub fn to_day_number(&self) -> (number: i64)
        ensures
            number == self.day_number(),
            0 <= number < 3_652_425,
    {
        proof {
            use_type_invariant(self);
            lemma_days_before_year(self.year as int);
            lemma_days_before_month(self.year as int, self.month as int);
        }
        let year = self.year as i64;
        let before_year = 365 * year + (year + 3) / 4 - (year + 99) / 100 + (year + 399) / 400;
        let leap = self.year % 4 == 0 && (self.year % 100 != 0 || self.year % 400 == 0);
        let common: i64 = if self.month == 1 {
            0
        } else if self.month == 2 {
            31
        } else if self.month == 3 {
            59
        } else if self.month == 4 {
            90
        } else if self.month == 5 {
            120
        } else if self.month == 6 {
            151
        } else if self.month == 7 {
            181
        } else if self.month == 8 {
            212
        } else if self.month == 9 {
            243
        } else if self.month == 10 {
            273
        } else if self.month == 11 {
            304
        } else {
            334
        };
        let before_month = if self.month > 2 && leap {
            common + 1
        } else {
            common
        };
        before_year + before_month + self.day as i64 - 1
    }

    /// `self` as the number `YYYYMMDD`.
    pub fn to_packed(&self) -> (number: i64)
        ensures
            number == self.packed(),
            Self::unpacked(number as int) == *self,
            101 <= number <= 99_991_231,
    {
        proof {
            use_type_invariant(self);
        }
        self.year as i64 * 10000 + self.month as i64 * 100 + self.day as i64
    }

    /// The day that `to_packed` writes as `number`, or `None` when
    /// `number` writes no day.
    pub fn from_packed(number: i64) -> (result: Option<Date>)
        ensures
            result == if 0 <= number <= 99_999_999 && Self::is_calendar_day(
                number as int / 10000,
                number as int / 100 % 100,
                number as int % 100,
            ) {
                Some(Self::unpacked(number as int))
            } else {
                None
            },
    {
        if number < 0 || number > 99_999_999 {
            return None;
        }
        Self::new((number / 10000) as u16, (number / 100 % 100) as u8, (number % 100) as u8)
    }

    /// Reads a day written as `YYYY-MM-DD` at the start of `text`.
    /// Whatever follows the day, such as a time, is ignored. Returns
    /// `None` when `text` does not begin with a day that exists.
    pub fn parse(text: &str) -> (result: Option<Date>)
        ensures
            result == day_of_text(text@),
    {
        reveal(day_of_text);
        let bytes = text.as_bytes();
        if bytes.len() < 10 {
            return None;
        }
        if bytes[4] != 45 || bytes[7] != 45 {
            return None;
        }
        let year = match Self::read_number(bytes, 0, 4) {
            Some(n) => n,
            None => {
                return None;
            },
        };
        let month = match Self::read_number(bytes, 5, 2) {
            Some(n) => n,
            None => {
                return None;
            },
        };
        let day = match Self::read_number(bytes, 8, 2) {
            Some(n) => n,
            None => {
                return None;
            },
        };
        Self::new(year, month as u8, day as u8)
    }

    /// The number written by the `width` digits of `bytes` from `start`
    /// on, or `None` when one of them is no digit.
    fn read_number(bytes: &[u8], start: usize, width: usize) -> (result: Option<u16>)
        requires
            width <= 4,
            start + width <= bytes@.len(),
        ensures
            result is Some <==> digits_at(bytes@, start as int, width as int),
            result matches Some(n) ==> n == number_at(bytes@, start as int, width as int) && n
                <= 9999 && (width <= 2 ==> n <= 99),
    {
        let length = bytes.len();
        let mut value: u16 = 0;
        let mut i: usize = 0;
        while i < width
            invariant
                0 <= i <= width <= 4,
                start + width <= length,
                length == bytes@.len(),
                digits_at(bytes@, start as int, i as int),
                value == number_at(bytes@, start as int, i as int),
                i == 0 ==> value == 0,
                i == 1 ==> value <= 9,
                i == 2 ==> value <= 99,
                i == 3 ==> value <= 999,
                i == 4 ==> value <= 9999,
            decreases width - i,
        {
            let byte = bytes[start + i];
            if byte < 48 || byte > 57 {
                return None;
            }
            value = value * 10 + (byte - 48) as u16;
            i += 1;
        }
        Some(value)
    }

    /// `self` written as `YYYY-MM-DD`.
    pub fn to_text(&self) -> (text: String)
        ensures
            text@ == self.text().map_values(|byte: u8| byte as char),
    {
        proof {
            use_type_invariant(self);
        }
        let mut text = String::new();
        text.append(digit_str((self.year / 1000) as u8));
        text.append(digit_str((self.year / 100 % 10) as u8));
        text.append(digit_str((self.year / 10 % 10) as u8));
        text.append(digit_str((self.year % 10) as u8));
        text.append(dash_str());
        text.append(digit_str(self.month / 10));
        text.append(digit_str(self.month % 10));
        text.append(dash_str());
        text.append(digit_str(self.day / 10));
        text.append(digit_str(self.day % 10));
        assert(text@ == self.text().map_values(|byte: u8| byte as char));
        text
    }
}

/// The text of the sign that separates year, month and day.
fn dash_str() -> (text: &'static str)
    ensures
        text@ == seq![45u8 as char],
{
    proof {
        reveal_strlit("-");
    }
    assert("-"@ =~= seq![45u8 as char]);
    "-"
}

} // verus!
