use vstd::prelude::*;
use crate::amount::{digit_char, is_digit, digit_val};

verus! {

/// A civil calendar date, year 0 through 9999.
#[derive(Clone, Copy, PartialEq, Eq, Structural, Debug)]
pub struct Date {
    pub year: u32,
    pub month: u32,
    pub day: u32,
}

pub open spec fn is_leap_year(y: int) -> bool {
    y % 4 == 0 && (y % 100 != 0 || y % 400 == 0)
}

pub open spec fn days_in_month(y: int, m: int) -> int {
    if m == 2 {
        if is_leap_year(y) {
            29
        } else {
            28
        }
    } else if m == 4 || m == 6 || m == 9 || m == 11 {
        30
    } else {
        31
    }
}

impl Date {
    /// The proleptic-Gregorian validity that a `%Y-%m-%d` parse enforces.
    pub open spec fn valid(self) -> bool {
        &&& self.year <= 9999
        &&& 1 <= self.month <= 12
        &&& 1 <= self.day <= days_in_month(self.year as int, self.month as int)
    }

    /// Order dates by (year, month, day).
    pub open spec fn spec_le(self, other: Date) -> bool {
        if self.year != other.year {
            self.year < other.year
        } else if self.month != other.month {
            self.month < other.month
        } else {
            self.day <= other.day
        }
    }

    pub fn le(self, other: Date) -> (r: bool)
        ensures
            r == self.spec_le(other),
    {
        if self.year != other.year {
            self.year < other.year
        } else if self.month != other.month {
            self.month < other.month
        } else {
            self.day <= other.day
        }
    }

    /// Build a date, checking civil validity as the calendar library of the
    /// ledger's textual formats does.
    pub fn checked_new(year: u32, month: u32, day: u32) -> (r: Option<Date>)
        ensures
            match r {
                Some(d) => d == (Date { year, month, day }) && d.valid(),
                None => !(Date { year, month, day }).valid(),
            },
    {
        if year > 9999 || month < 1 || month > 12 || day < 1 {
            return None;
        }
        let dim: u32 = if month == 2 {
            let leap = year % 4 == 0 && (year % 100 != 0 || year % 400 == 0);
            if leap {
                29
            } else {
                28
            }
        } else if month == 4 || month == 6 || month == 9 || month == 11 {
            30
        } else {
            31
        };
        if day > dim {
            None
        } else {
            Some(Date { year, month, day })
        }
    }
}

/// The `%Y-%m-%d` rendering, zero-padded to widths 4, 2 and 2.
pub open spec fn date_str(d: Date) -> Seq<char> {
    seq![
        digit_char(d.year as int / 1000 % 10),
        digit_char(d.year as int / 100 % 10),
        digit_char(d.year as int / 10 % 10),
        digit_char(d.year as int % 10),
        '-',
        digit_char(d.month as int / 10 % 10),
        digit_char(d.month as int % 10),
        '-',
        digit_char(d.day as int / 10 % 10),
        digit_char(d.day as int % 10),
    ]
}

impl Date {
    pub fn format(self) -> (r: String)
        requires
            self.valid(),
        ensures
            r@ == date_str(self),
    {
        let mut s = String::new();
        crate::amount::push_digit(&mut s, (self.year / 1000 % 10) as i128);
        crate::amount::push_digit(&mut s, (self.year / 100 % 10) as i128);
        crate::amount::push_digit(&mut s, (self.year / 10 % 10) as i128);
        crate::amount::push_digit(&mut s, (self.year % 10) as i128);
        proof {
            reveal_strlit("-");
        }
        s.append("-");
        crate::amount::push_digit(&mut s, (self.month / 10 % 10) as i128);
        crate::amount::push_digit(&mut s, (self.month % 10) as i128);
        s.append("-");
        crate::amount::push_digit(&mut s, (self.day / 10 % 10) as i128);
        crate::amount::push_digit(&mut s, (self.day % 10) as i128);
        proof {
            assert(s@ =~= date_str(self));
        }
        s
    }
}

/// Numeric value of four digit characters.
pub open spec fn four_digit_val(s: Seq<char>, i: int) -> int {
    digit_val(s[i]) * 1000 + digit_val(s[i + 1]) * 100 + digit_val(s[i + 2]) * 10 + digit_val(
        s[i + 3],
    )
}

pub open spec fn two_digit_val(s: Seq<char>, i: int) -> int {
    digit_val(s[i]) * 10 + digit_val(s[i + 1])
}

} // verus!
