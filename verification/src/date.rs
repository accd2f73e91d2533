//! Calendar dates: validity of a (year, month, day) triple in the proleptic
//! Gregorian calendar, parsing of birthday text, and the compact 8-digit
//! `YYYYMMDD` stamp used for event start dates.

use vstd::prelude::*;

verus! {

/// A calendar date with no time or timezone attached.
///
/// Only dates whose year fits the 8-digit `YYYYMMDD` stamp (0 through 9999)
/// are represented; [`Date::wf`] is the invariant every constructed value has.
#[derive(Clone, Copy, Debug, PartialEq, Eq, Structural)]
pub struct Date {
    pub year: u16,
    pub month: u8,
    pub day: u8,
}

pub open spec fn is_leap_year(y: int) -> bool {
    (y % 4 == 0 && y % 100 != 0) || y % 400 == 0
}

pub open spec fn days_in_month(y: int, m: int) -> int {
    if m == 2 {
        if is_leap_year(y) {
            29
        } else {
            28
        }
    } else if m == 4 || m == 6 || m == 9 || m == 11 {
        30
    } else {
        31
    }
}

/// A (year, month, day) triple that names a real date of the proleptic
/// Gregorian calendar, with the year in the 4-digit range.
pub open spec fn valid_ymd(y: int, m: int, d: int) -> bool {
    &&& 0 <= y <= 9999
    &&& 1 <= m <= 12
    &&& 1 <= d <= days_in_month(y, m)
}

impl Date {
    pub open spec fn wf(self) -> bool {
        valid_ymd(self.year as int, self.month as int, self.day as int)
    }
}

/// What [`date_from_parts`] returns: the triple packed into a [`Date`] when it
/// names a real 4-digit-year date, and nothing otherwise.
pub open spec fn date_of_parts(y: int, m: int, d: int) -> Option<Date> {
    if valid_ymd(y, m, d) {
        Some(Date { year: y as u16, month: m as u8, day: d as u8 })
    } else {
        None
    }
}

fn month_length(y: u16, m: u8) -> (r: u8)
    requires
        1 <= m <= 12,
    ensures
        r as int == days_in_month(y as int, m as int),
{
    if m == 2 {
        if (y % 4 == 0 && y % 100 != 0) || y % 400 == 0 {
            29
        } else {
            28
        }
    } else if m == 4 || m == 6 || m == 9 || m == 11 {
        30
    } else {
        31
    }
}

/// Packs a parsed (year, month, day) triple into a [`Date`], rejecting any
/// triple that is not a real date with a 4-digit year.
pub fn date_from_parts(y: i32, m: u32, d: u32) -> (r: Option<Date>)
    ensures
        r == date_of_parts(y as int, m as int, d as int),
        r matches Some(date) ==> date.wf(),
{
    if 0 <= y && y <= 9999 && 1 <= m && m <= 12 && 1 <= d {
        let dm: u8 = month_length(y as u16, m as u8);
        if d <= dm as u32 {
            Some(Date { year: y as u16, month: m as u8, day: d as u8 })
        } else {
            None
        }
    } else {
        None
    }
}

pub open spec fn is_digit(c: char) -> bool {
    '0' <= c && c <= '9'
}

pub open spec fn digit_val(c: char) -> int {
    c as int - '0' as int
}

pub open spec fn digit_char(d: int) -> char {
    if d == 0 {
        '0'
    } else if d == 1 {
        '1'
    } else if d == 2 {
        '2'
    } else if d == 3 {
        '3'
    } else if d == 4 {
        '4'
    } else if d == 5 {
        '5'
    } else if d == 6 {
        '6'
    } else if d == 7 {
        '7'
    } else if d == 8 {
        '8'
    } else {
        '9'
    }
}

/// The strict `YYYY-MM-DD` reading of a piece of text: the digits of its
/// year, month and day fields, with no claim that they name a real date.
pub open spec fn iso_ymd(s: Seq<char>) -> Option<(int, int, int)> {
    if s.len() == 10 && is_digit(s[0]) && is_digit(s[1]) && is_digit(s[2]) && is_digit(s[3])
        && s[4] == '-' && is_digit(s[5]) && is_digit(s[6]) && s[7] == '-' && is_digit(s[8])
        && is_digit(s[9]) {
        Some(
            (
                digit_val(s[0]) * 1000 + digit_val(s[1]) * 100 + digit_val(s[2]) * 10 + digit_val(
                    s[3],
                ),
                digit_val(s[5]) * 10 + digit_val(s[6]),
                digit_val(s[8]) * 10 + digit_val(s[9]),
            ),
        )
    } else {
        None
    }
}

/// What the `chrono` date parser yields for a given piece of text; the result
/// depends on the text alone.
pub uninterp spec fn chrono_date_of(s: Seq<char>) -> Option<(int, int, int)>;

/// Relies on `chrono::NaiveDate`'s `FromStr` impl: it parses the `%Y-%m-%d`
/// format, which accepts every strict `YYYY-MM-DD` spelling of a real date,
/// and a successful parse always yields a valid proleptic Gregorian calendar
/// date (that is what `NaiveDate` represents).
#[verifier::external_body]
pub(crate) fn parse_ymd(s: &str) -> (r: Option<(i32, u32, u32)>)
    ensures
        (r is Some) == (chrono_date_of(s@) is Some),
        r matches Some(t) ==> {
            &&& chrono_date_of(s@) == Some((t.0 as int, t.1 as int, t.2 as int))
            &&& 1 <= t.1 <= 12
            &&& 1 <= t.2 as int <= days_in_month(t.0 as int, t.1 as int)
        },
        iso_ymd(s@) matches Some(t) ==> (valid_ymd(t.0, t.1, t.2) ==> r == Some(
            (t.0 as i32, t.1 as u32, t.2 as u32),
        )),
{
    match s.parse::<chrono::NaiveDate>() {
        Ok(d) => Some(
            (chrono::Datelike::year(&d), chrono::Datelike::month(&d), chrono::Datelike::day(&d)),
        ),
        Err(_) => None,
    }
}

/// The 8-digit `YYYYMMDD` spelling of a date.
pub open spec fn stamp_spec(date: Date) -> Seq<char> {
    seq![
        digit_char(date.year as int / 1000),
        digit_char((date.year as int / 100) % 10),
        digit_char((date.year as int / 10) % 10),
        digit_char(date.year as int % 10),
        digit_char(date.month as int / 10),
        digit_char(date.month as int % 10),
        digit_char(date.day as int / 10),
        digit_char(date.day as int % 10),
    ]
}

fn digit_str(n: u8) -> (r: &'static str)
    requires
        n < 10,
    ensures
        r@ == seq![digit_char(n as int)],
{
    let r: &'static str = match n {
        0 => "0",
        1 => "1",
        2 => "2",
        3 => "3",
        4 => "4",
        5 => "5",
        6 => "6",
        7 => "7",
        8 => "8",
        _ => "9",
    };
    proof {
        reveal_strlit("0");
        reveal_strlit("1");
        reveal_strlit("2");
        reveal_strlit("3");
        reveal_strlit("4");
        reveal_strlit("5");
        reveal_strlit("6");
        reveal_strlit("7");
        reveal_strlit("8");
        reveal_strlit("9");
        assert(r@ =~= seq![digit_char(n as int)]);
    }
    r
}

impl Date {
    /// Formats the date as its compact 8-digit `YYYYMMDD` stamp.
    pub fn stamp(&self) -> (r: String)
        requires
            self.wf(),
        ensures
            r@ == stamp_spec(*self),
    {
        let mut out = String::new();
        out.append(digit_str((self.year / 1000) as u8));
        out.append(digit_str(((self.year / 100) % 10) as u8));
        out.append(digit_str(((self.year / 10) % 10) as u8));
        out.append(digit_str((self.year % 10) as u8));
        out.append(digit_str(self.month / 10));
        out.append(digit_str(self.month % 10));
        out.append(digit_str(self.day / 10));
        out.append(digit_str(self.day % 10));
        proof {
            assert(out@ =~= stamp_spec(*self));
        }
        out
    }
}

} // verus!
