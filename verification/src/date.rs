//! Calendar dates for front matter, written `YYYY-MM-DD`.
//!
//! A date is held as plain year, month and day numbers and validated against
//! the proleptic Gregorian calendar, leap years included.

use vstd::prelude::*;

use crate::line_range::find_char_from;
use crate::text;

verus! {

/// A calendar date. Valid dates satisfy [`Date::is_valid`].
#[derive(Debug, Clone, Copy, PartialEq, Eq, Structural)]
pub struct Date {
    pub year: u32,
    pub month: u8,
    pub day: u8,
}

pub open spec fn is_leap_year(y: int) -> bool {
    y % 4 == 0 && (y % 100 != 0 || y % 400 == 0)
}

pub open spec fn days_in_month(y: int, m: int) -> int {
    if m == 2 {
        if is_leap_year(y) {
            29
        } else {
            28
        }
    } else if m == 4 || m == 6 || m == 9 || m == 11 {
        30
    } else {
        31
    }
}

/// The value of one dash-separated field: present, non-empty, all digits.
pub open spec fn field_val(s: Seq<char>) -> Option<int> {
    if s.len() > 0 && text::all_digits(s) {
        Some(text::decimal_val(s))
    } else {
        None
    }
}

/// What date, if any, the text `YYYY-MM-DD` denotes: three dash-separated
/// decimal fields, the year at most 9999, month and day in calendar range.
pub open spec fn spec_parse_date(s: Seq<char>) -> Option<Date> {
    match find_char_from(s, '-', 0) {
        Some(d1) => match find_char_from(s, '-', d1 + 1) {
            Some(d2) => {
                let ys = s.subrange(0, d1);
                let ms = s.subrange(d1 + 1, d2);
                let ds = s.subrange(d2 + 1, s.len() as int);
                match (field_val(ys), field_val(ms), field_val(ds)) {
                    (Some(y), Some(m), Some(d)) => {
                        if y <= 9999 && 1 <= m <= 12 && 1 <= d <= days_in_month(y, m) {
                            Some(Date { year: y as u32, month: m as u8, day: d as u8 })
                        } else {
                            None
                        }
                    },
                    _ => None,
                }
            },
            None => None,
        },
        None => None,
    }
}

impl Date {
    pub open spec fn is_valid(&self) -> bool {
        &&& self.year <= 9999
        &&& 1 <= self.month <= 12
        &&& 1 <= self.day <= days_in_month(self.year as int, self.month as int)
    }

    /// Parse a `YYYY-MM-DD` text, returning a date exactly when the text
    /// denotes a valid one.
    pub fn parse(s: &str) -> (r: Option<Date>)
        ensures
            r == spec_parse_date(s@),
            r is Some ==> r->0.is_valid(),
    {
        let v = text::chars_of(s);
        let n = v.len();
        let d1 = match crate::line_range::find_char(v.as_slice(), '-', 0) {
            Some(i) => i,
            None => {
                return None;
            },
        };
        let d2 = match crate::line_range::find_char(v.as_slice(), '-', d1 + 1) {
            Some(i) => i,
            None => {
                return None;
            },
        };
        let ys = vstd::slice::slice_subrange(v.as_slice(), 0, d1);
        let ms = vstd::slice::slice_subrange(v.as_slice(), d1 + 1, d2);
        let ds = vstd::slice::slice_subrange(v.as_slice(), d2 + 1, n);
        let y = match text::parse_usize(ys) {
            Some(y) => y,
            None => {
                proof {
                    lemma_field_val_none(ys@);
                }
                return None;
            },
        };
        let m = match text::parse_usize(ms) {
            Some(m) => m,
            None => {
                proof {
                    lemma_field_val_none(ms@);
                }
                return None;
            },
        };
        let d = match text::parse_usize(ds) {
            Some(d) => d,
            None => {
                proof {
                    lemma_field_val_none(ds@);
                }
                return None;
            },
        };
        if y <= 9999 && 1 <= m && m <= 12 && 1 <= d {
            let dim = Self::month_days(y as u32, m as u8);
            if d <= dim as usize {
                return Some(Date { year: y as u32, month: m as u8, day: d as u8 });
            }
        }
        None
    }

    /// How many days the given month of the given year has.
    pub fn month_days(year: u32, month: u8) -> (r: u8)
        requires
            1 <= month <= 12,
        ensures
            r == days_in_month(year as int, month as int),
    {
        if month == 2 {
            if year % 4 == 0 && (year % 100 != 0 || year % 400 == 0) {
                29
            } else {
                28
            }
        } else if month == 4 || month == 6 || month == 9 || month == 11 {
            30
        } else {
            31
        }
    }

    /// The digits of this date in the shape `YYYY-MM-DD`, zero padded.
    pub open spec fn spec_format(&self) -> Seq<char> {
        let y = self.year as int;
        let m = self.month as int;
        let d = self.day as int;
        seq![
            spec_digit_char(y / 1000 % 10),
            spec_digit_char(y / 100 % 10),
            spec_digit_char(y / 10 % 10),
            spec_digit_char(y % 10),
            '-',
            spec_digit_char(m / 10 % 10),
            spec_digit_char(m % 10),
            '-',
            spec_digit_char(d / 10 % 10),
            spec_digit_char(d % 10),
        ]
    }

    /// Format as `YYYY-MM-DD`, zero padded.
    pub fn format(&self) -> (r: String)
        requires
            self.is_valid(),
        ensures
            r@ == self.spec_format(),
    {
        let mut out: Vec<char> = Vec::new();
        let y = self.year;
        out.push(digit_char((y / 1000 % 10) as u8));
        out.push(digit_char((y / 100 % 10) as u8));
        out.push(digit_char((y / 10 % 10) as u8));
        out.push(digit_char((y % 10) as u8));
        out.push('-');
        let m = self.month;
        out.push(digit_char(m / 10 % 10));
        out.push(digit_char(m % 10));
        out.push('-');
        let d = self.day;
        out.push(digit_char(d / 10 % 10));
        out.push(digit_char(d % 10));
        assert(out@ =~= self.spec_format());
        text::string_of(&out)
    }
}

/// Every digit character is a digit and reads back as its value.
proof fn lemma_digit_char(x: int)
    requires
        0 <= x <= 9,
    ensures
        text::is_digit_char(spec_digit_char(x)),
        text::digit_val(spec_digit_char(x)) == x,
        spec_digit_char(x) != '-',
{
}

/// Formatting a valid date and parsing the text again gives the same date.
pub proof fn lemma_date_round_trip(d: Date)
    requires
        d.is_valid(),
    ensures
        spec_parse_date(d.spec_format()) == Some(d),
{
    let f = d.spec_format();
    let y = d.year as int;
    let m = d.month as int;
    let dd = d.day as int;
    lemma_digit_char(y / 1000 % 10);
    lemma_digit_char(y / 100 % 10);
    lemma_digit_char(y / 10 % 10);
    lemma_digit_char(y % 10);
    lemma_digit_char(m / 10 % 10);
    lemma_digit_char(m % 10);
    lemma_digit_char(dd / 10 % 10);
    lemma_digit_char(dd % 10);
    // the dashes stand at positions four and seven, digits elsewhere
    assert(find_char_from(f, '-', 4) == Some(4int));
    assert(find_char_from(f, '-', 3) == Some(4int));
    assert(find_char_from(f, '-', 2) == Some(4int));
    assert(find_char_from(f, '-', 1) == Some(4int));
    assert(find_char_from(f, '-', 0) == Some(4int));
    assert(find_char_from(f, '-', 7) == Some(7int));
    assert(find_char_from(f, '-', 6) == Some(7int));
    assert(find_char_from(f, '-', 5) == Some(7int));
    let ys = f.subrange(0, 4);
    let ms = f.subrange(5, 7);
    let ds = f.subrange(8, 10);
    // the year field reads back as the year
    assert(text::all_digits(ys));
    assert(text::decimal_val(ys) == y) by {
        assert(ys.drop_last() =~= f.subrange(0, 3));
        assert(f.subrange(0, 3).drop_last() =~= f.subrange(0, 2));
        assert(f.subrange(0, 2).drop_last() =~= f.subrange(0, 1));
        assert(f.subrange(0, 1).drop_last() =~= f.subrange(0, 0));
        assert(ys.last() == f[3] && f.subrange(0, 3).last() == f[2] && f.subrange(0, 2).last()
            == f[1] && f.subrange(0, 1).last() == f[0]);
        assert(f.subrange(0, 0).len() == 0 && text::decimal_val(f.subrange(0, 0)) == 0);
        assert(text::decimal_val(f.subrange(0, 1)) == y / 1000 % 10);
        assert(text::decimal_val(f.subrange(0, 2)) == y / 1000 % 10 * 10 + y / 100 % 10);
        assert(text::decimal_val(f.subrange(0, 3)) == (y / 1000 % 10 * 10 + y / 100 % 10) * 10 + y
            / 10 % 10);
        assert(text::decimal_val(ys) == ((y / 1000 % 10 * 10 + y / 100 % 10) * 10 + y / 10 % 10)
            * 10 + y % 10);
        assert(((y / 1000 % 10 * 10 + y / 100 % 10) * 10 + y / 10 % 10) * 10 + y % 10 == y) by {
            assert(y / 1000 % 10 == y / 1000);
            assert(y == y / 1000 * 1000 + y / 100 % 10 * 100 + y / 10 % 10 * 10 + y % 10) by (
            nonlinear_arith)
                requires
                    0 <= y <= 9999,
            ;
        }
    }
    // the month field reads back as the month
    assert(text::all_digits(ms));
    assert(text::decimal_val(ms) == m) by {
        assert(ms.drop_last() =~= f.subrange(5, 6));
        assert(f.subrange(5, 6).drop_last() =~= f.subrange(5, 5));
        assert(ms.last() == f[6] && f.subrange(5, 6).last() == f[5]);
        assert(f.subrange(5, 5).len() == 0 && text::decimal_val(f.subrange(5, 5)) == 0);
        assert(text::decimal_val(f.subrange(5, 6)) == m / 10 % 10);
        assert(text::decimal_val(ms) == m / 10 % 10 * 10 + m % 10);
        assert(m / 10 % 10 * 10 + m % 10 == m) by (nonlinear_arith)
            requires
                1 <= m <= 12,
        ;
    }
    // the day field reads back as the day
    assert(text::all_digits(ds));
    assert(text::decimal_val(ds) == dd) by {
        assert(ds.drop_last() =~= f.subrange(8, 9));
        assert(f.subrange(8, 9).drop_last() =~= f.subrange(8, 8));
        assert(ds.last() == f[9] && f.subrange(8, 9).last() == f[8]);
        assert(f.subrange(8, 8).len() == 0 && text::decimal_val(f.subrange(8, 8)) == 0);
        assert(text::decimal_val(f.subrange(8, 9)) == dd / 10 % 10);
        assert(text::decimal_val(ds) == dd / 10 % 10 * 10 + dd % 10);
        assert(dd / 10 % 10 * 10 + dd % 10 == dd) by (nonlinear_arith)
            requires
                1 <= dd <= 31,
        ;
    }
    assert(dd <= days_in_month(y, m));
}

/// A field that `parse_usize` refuses has no value.
proof fn lemma_field_val_none(s: Seq<char>)
    requires
        s.len() == 0 || !text::all_digits(s) || text::decimal_val(s) > usize::MAX,
    ensures
        s.len() == 0 || !text::all_digits(s) || field_val(s) == Some(text::decimal_val(s)),
        field_val(s) is Some ==> field_val(s)->0 > 9999 || field_val(s)->0
            == text::decimal_val(s),
{
}

pub open spec fn spec_digit_char(d: int) -> char {
    if d == 0 {
        '0'
    } else if d == 1 {
        '1'
    } else if d == 2 {
        '2'
    } else if d == 3 {
        '3'
    } else if d == 4 {
        '4'
    } else if d == 5 {
        '5'
    } else if d == 6 {
        '6'
    } else if d == 7 {
        '7'
    } else if d == 8 {
        '8'
    } else {
        '9'
    }
}

pub fn digit_char(d: u8) -> (c: char)
    requires
        d < 10,
    ensures
        c == spec_digit_char(d as int),
{
    if d == 0 {
        '0'
    } else if d == 1 {
        '1'
    } else if d == 2 {
        '2'
    } else if d == 3 {
        '3'
    } else if d == 4 {
        '4'
    } else if d == 5 {
        '5'
    } else if d == 6 {
        '6'
    } else if d == 7 {
        '7'
    } else if d == 8 {
        '8'
    } else {
        '9'
    }
}

} // verus!
