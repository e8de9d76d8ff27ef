//! Calendar dates as plain values: the requested day is parsed from its
//! `YYYY-MM-DD` form, validated against the proleptic Gregorian calendar,
//! and printed back canonically for comparison with record dates.

use vstd::prelude::*;

verus! {

/// A calendar date.
#[derive(Clone, Copy, Debug, PartialEq, Eq, Structural)]
pub struct Date {
    pub year: u32,
    pub month: u32,
    pub day: u32,
}

/// Whether `y` is a leap year of the proleptic Gregorian calendar.
pub open spec fn is_leap_year(y: int) -> bool {
    (y % 4 == 0 && y % 100 != 0) || y % 400 == 0
}

/// The number of days of month `m` of year `y`.
pub open spec fn days_in_month(y: int, m: int) -> int {
    if m == 2 {
        if is_leap_year(y) {
            29
        } else {
            28
        }
    } else if m == 4 || m == 6 || m == 9 || m == 11 {
        30
    } else {
        31
    }
}

/// Whether the date is a real calendar day that fits the four-digit year
/// form.
pub open spec fn date_valid(d: Date) -> bool {
    d.year <= 9999 && 1 <= d.month <= 12 && 1 <= d.day <= days_in_month(
        d.year as int,
        d.month as int,
    )
}

/// The decimal digit character for `d`.
pub open spec fn dec_digit(d: int) -> char {
    if d == 0 {
        '0'
    } else if d == 1 {
        '1'
    } else if d == 2 {
        '2'
    } else if d == 3 {
        '3'
    } else if d == 4 {
        '4'
    } else if d == 5 {
        '5'
    } else if d == 6 {
        '6'
    } else if d == 7 {
        '7'
    } else if d == 8 {
        '8'
    } else {
        '9'
    }
}

/// The canonical `YYYY-MM-DD` form of a date.
pub open spec fn iso_date_chars(d: Date) -> Seq<char> {
    seq![
        dec_digit(d.year as int / 1000),
        dec_digit((d.year as int / 100) % 10),
        dec_digit((d.year as int / 10) % 10),
        dec_digit(d.year as int % 10),
        '-',
        dec_digit(d.month as int / 10),
        dec_digit(d.month as int % 10),
        '-',
        dec_digit(d.day as int / 10),
        dec_digit(d.day as int % 10),
    ]
}

/// Whether `c` is a decimal digit.
pub open spec fn is_digit(c: char) -> bool {
    48 <= c as int <= 57
}

/// The value of a decimal digit character.
pub open spec fn digit_val(c: char) -> int {
    c as int - 48
}

/// Whether `s` is a well-formed `YYYY-MM-DD` string naming a real
/// calendar day.
pub open spec fn valid_iso_string(s: Seq<char>) -> bool {
    &&& s.len() == 10
    &&& is_digit(s[0])
    &&& is_digit(s[1])
    &&& is_digit(s[2])
    &&& is_digit(s[3])
    &&& s[4] == '-'
    &&& is_digit(s[5])
    &&& is_digit(s[6])
    &&& s[7] == '-'
    &&& is_digit(s[8])
    &&& is_digit(s[9])
    &&& 1 <= month_of(s) <= 12
    &&& 1 <= day_of(s) <= days_in_month(year_of(s), month_of(s))
}

/// The year named by a well-formed date string.
pub open spec fn year_of(s: Seq<char>) -> int {
    digit_val(s[0]) * 1000 + digit_val(s[1]) * 100 + digit_val(s[2]) * 10 + digit_val(s[3])
}

/// The month named by a well-formed date string.
pub open spec fn month_of(s: Seq<char>) -> int {
    digit_val(s[5]) * 10 + digit_val(s[6])
}

/// The day of month named by a well-formed date string.
pub open spec fn day_of(s: Seq<char>) -> int {
    digit_val(s[8]) * 10 + digit_val(s[9])
}

impl Date {
    /// Whether this date is a real calendar day that fits the four-digit
    /// year form.
    pub fn is_valid(&self) -> (r: bool)
        ensures
            r == date_valid(*self),
    {
        if self.year > 9999 || self.month < 1 || self.month > 12 {
            return false;
        }
        let leap = (self.year % 4 == 0 && self.year % 100 != 0) || self.year % 400 == 0;
        let month_days: u32 = if self.month == 2 {
            if leap {
                29
            } else {
                28
            }
        } else if self.month == 4 || self.month == 6 || self.month == 9 || self.month == 11 {
            30
        } else {
            31
        };
        1 <= self.day && self.day <= month_days
    }

    /// The canonical `YYYY-MM-DD` form of this date.
    pub fn to_iso_string(&self) -> (r: String)
        requires
            date_valid(*self),
        ensures
            r@ == iso_date_chars(*self),
    {
        let mut out = String::new();
        let y = self.year;
        append_digit(&mut out, y / 1000);
        append_digit(&mut out, (y / 100) % 10);
        append_digit(&mut out, (y / 10) % 10);
        append_digit(&mut out, y % 10);
        append_dash(&mut out);
        append_digit(&mut out, self.month / 10);
        append_digit(&mut out, self.month % 10);
        append_dash(&mut out);
        append_digit(&mut out, self.day / 10);
        append_digit(&mut out, self.day % 10);
        proof {
            assert(out@ =~= iso_date_chars(*self));
        }
        out
    }
}

/// Appends the decimal digit character for `v`.
fn append_digit(out: &mut String, v: u32)
    requires
        v <= 9,
    ensures
        final(out)@ == old(out)@ + seq![dec_digit(v as int)],
{
    let digits = "0123456789";
    proof {
        reveal_strlit("0123456789");
    }
    let i = v as usize;
    let piece = digits.substring_char(i, i + 1);
    out.append(piece);
    proof {
        assert(piece@ =~= seq![dec_digit(v as int)]);
    }
}

/// Appends the date separator.
fn append_dash(out: &mut String)
    ensures
        final(out)@ == old(out)@ + seq!['-'],
{
    out.append("-");
    proof {
        reveal_strlit("-");
        assert(old(out)@ + "-"@ =~= old(out)@ + seq!['-']);
    }
}

/// Printing a valid date and parsing it back yields the same date: the
/// canonical form names exactly the year, month and day it was printed
/// from.
pub proof fn lemma_date_round_trip(d: Date)
    requires
        date_valid(d),
    ensures
        valid_iso_string(iso_date_chars(d)),
        year_of(iso_date_chars(d)) == d.year,
        month_of(iso_date_chars(d)) == d.month,
        day_of(iso_date_chars(d)) == d.day,
{
    let s = iso_date_chars(d);
    let y = d.year as int;
    assert(y == (y / 10) * 10 + y % 10);
    assert(y / 10 == (y / 100) * 10 + (y / 10) % 10);
    assert(y / 100 == (y / 1000) * 10 + (y / 100) % 10);
    assert(y / 1000 <= 9);
    assert(digit_val(dec_digit(y / 1000)) == y / 1000);
    assert(digit_val(dec_digit((y / 100) % 10)) == (y / 100) % 10);
    assert(digit_val(dec_digit((y / 10) % 10)) == (y / 10) % 10);
    assert(digit_val(dec_digit(y % 10)) == y % 10);
    assert(year_of(s) == d.year);
    let m = d.month as int;
    assert(m == (m / 10) * 10 + m % 10);
    assert(digit_val(dec_digit(m / 10)) == m / 10);
    assert(digit_val(dec_digit(m % 10)) == m % 10);
    assert(month_of(s) == d.month);
    let dd = d.day as int;
    assert(dd == (dd / 10) * 10 + dd % 10);
    assert(digit_val(dec_digit(dd / 10)) == dd / 10);
    assert(digit_val(dec_digit(dd % 10)) == dd % 10);
    assert(day_of(s) == d.day);
}

/// The digit value of `c`, when it is one.
fn digit_of(c: char) -> (r: Option<u32>)
    ensures
        r is Some <==> is_digit(c),
        r matches Some(v) ==> v == digit_val(c) && v <= 9,
{
    let v = c as u32;
    if 48 <= v && v <= 57 {
        Some(v - 48)
    } else {
        None
    }
}

/// Parses a `YYYY-MM-DD` string into a date, validating that it names a
/// real calendar day; returns `None` exactly on malformed or impossible
/// dates.
pub fn parse_date(s: &str) -> (r: Option<Date>)
    ensures
        r is Some <==> valid_iso_string(s@),
        r matches Some(d) ==> d.year == year_of(s@) && d.month == month_of(s@) && d.day == day_of(
            s@,
        ) && date_valid(d),
{
    if s.unicode_len() != 10 {
        return None;
    }
    let c4 = s.get_char(4);
    let c7 = s.get_char(7);
    if c4 != '-' || c7 != '-' {
        return None;
    }
    let d0 = match digit_of(s.get_char(0)) {
        Some(v) => v,
        None => { return None; },
    };
    let d1 = match digit_of(s.get_char(1)) {
        Some(v) => v,
        None => { return None; },
    };
    let d2 = match digit_of(s.get_char(2)) {
        Some(v) => v,
        None => { return None; },
    };
    let d3 = match digit_of(s.get_char(3)) {
        Some(v) => v,
        None => { return None; },
    };
    let m0 = match digit_of(s.get_char(5)) {
        Some(v) => v,
        None => { return None; },
    };
    let m1 = match digit_of(s.get_char(6)) {
        Some(v) => v,
        None => { return None; },
    };
    let e0 = match digit_of(s.get_char(8)) {
        Some(v) => v,
        None => { return None; },
    };
    let e1 = match digit_of(s.get_char(9)) {
        Some(v) => v,
        None => { return None; },
    };
    let year = d0 * 1000 + d1 * 100 + d2 * 10 + d3;
    let month = m0 * 10 + m1;
    let day = e0 * 10 + e1;
    if month < 1 || month > 12 {
        return None;
    }
    let leap = (year % 4 == 0 && year % 100 != 0) || year % 400 == 0;
    let month_days: u32 = if month == 2 {
        if leap {
            29
        } else {
            28
        }
    } else if month == 4 || month == 6 || month == 9 || month == 11 {
        30
    } else {
        31
    };
    if day < 1 || day > month_days {
        return None;
    }
    let date = Date { year, month, day };
    proof {
        assert(valid_iso_string(s@));
        assert(date_valid(date));
    }
    Some(date)
}

} // verus!
