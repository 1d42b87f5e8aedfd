//! Message shapes and calendar arithmetic.
//!
//! A [`Date`] is a plain (year, month, day) triple with a lexicographic total
//! order and a "next day" step against a fixed days-per-month table (February
//! is always 29: the calendar is deliberately leap-year-ignorant). No validity
//! check is made on construction; callers must supply calendar-plausible
//! values, and the behaviour on implausible ones is whatever the definitions
//! below say, documented here rather than corrected.

use vstd::prelude::*;

verus! {

use core::cmp::Ordering;
use vstd::std_specs::cmp::PartialOrdSpec;

/// One calendar date. Fields are unchecked: `month` is expected in `1..=12`
/// and `day` no larger than the table entry for its month, but nothing
/// enforces this on construction.
#[derive(Clone, Copy, Debug, PartialEq, Eq, Structural)]
pub struct Date {
    pub year: u16,
    pub month: u8,
    pub day: u8,
}

/// An inclusive date range, consumed exactly once per connection.
#[derive(Clone, Copy, Debug, PartialEq, Eq, Structural)]
pub struct Request {
    pub start: Date,
    pub end: Date,
}

/// One observation: `code` is an opaque identifier (a scanned barcode value),
/// `count` the number of scans recorded for that code on `date`.
#[derive(Clone, Debug, PartialEq)]
pub struct Row {
    pub date: Date,
    pub code: String,
    pub count: u32,
}

/// The ordered rows answering one request.
#[derive(Clone, Debug, PartialEq)]
pub struct Response(pub Vec<Row>);

/// The mathematical value of a [`Row`]: its code as a character sequence.
pub struct RowModel {
    pub date: Date,
    pub code: Seq<char>,
    pub count: u32,
}

impl View for Row {
    type V = RowModel;

    open spec fn view(&self) -> RowModel {
        RowModel { date: self.date, code: self.code@, count: self.count }
    }
}

impl View for Response {
    type V = Seq<RowModel>;

    open spec fn view(&self) -> Seq<RowModel> {
        self.0@.map_values(|r: Row| r@)
    }
}

/// Strict lexicographic order on (year, month, day).
pub open spec fn date_lt(a: Date, b: Date) -> bool {
    ||| a.year < b.year
    ||| (a.year == b.year && a.month < b.month)
    ||| (a.year == b.year && a.month == b.month && a.day < b.day)
}

pub open spec fn date_le(a: Date, b: Date) -> bool {
    date_lt(a, b) || a == b
}

/// The fixed days-per-month table `{31,29,31,30,31,30,31,31,30,31,30,31}`.
/// February is hard-coded to 29, so no year is ever treated as a leap year
/// differently from any other; this is intentional simplicity.
pub open spec fn spec_days_in_month(m: u8) -> u8 {
    if m == 2 {
        29
    } else if m == 4 || m == 6 || m == 9 || m == 11 {
        30
    } else {
        31
    }
}

/// The successor of `d` under the fixed table: bump the day while it is below
/// the table entry, else day 1 of the next month, else January 1st of the
/// next year.
pub open spec fn spec_next(d: Date) -> Date {
    if d.day < spec_days_in_month(d.month) {
        Date { year: d.year, month: d.month, day: (d.day + 1) as u8 }
    } else if d.month < 12 {
        Date { year: d.year, month: (d.month + 1) as u8, day: 1 }
    } else {
        Date { year: (d.year + 1) as u16, month: 1, day: 1 }
    }
}

/// A calendar-plausible date: month in range and day within the fixed
/// table's entry for that month. Nothing rejects an implausible date on
/// construction or decoding; operations that walk the calendar demand
/// plausibility instead, as their behaviour elsewhere is unspecified.
pub open spec fn date_plausible(d: Date) -> bool {
    1 <= d.month <= 12 && 1 <= d.day <= spec_days_in_month(d.month)
}

/// The ASCII digit for `n` (expected in `0..=9`).
pub open spec fn spec_digit(n: int) -> char {
    ((0x30 + n) as u8) as char
}

/// `x` in decimal, zero-padded to two places; a value beyond two places
/// keeps all its digits, as a minimum-width format would print it.
pub open spec fn two_digit_chars(x: u8) -> Seq<char> {
    let tail = seq![spec_digit(x as int / 10 % 10), spec_digit(x as int % 10)];
    if x > 99 {
        seq![spec_digit(x as int / 100)] + tail
    } else {
        tail
    }
}

/// The year in decimal, zero-padded to four places; a five-digit year keeps
/// all its digits.
pub open spec fn year_chars(y: u16) -> Seq<char> {
    let tail = seq![
        spec_digit(y as int / 1000 % 10),
        spec_digit(y as int / 100 % 10),
        spec_digit(y as int / 10 % 10),
        spec_digit(y as int % 10),
    ];
    if y > 9999 {
        seq![spec_digit(y as int / 10000)] + tail
    } else {
        tail
    }
}

/// The canonical text form `YYYY-MM-DD`, zero-padded. This is also the
/// on-disk directory-naming convention for one day's counter files.
pub open spec fn date_chars(d: Date) -> Seq<char> {
    year_chars(d.year) + seq!['-'] + two_digit_chars(d.month) + seq!['-'] + two_digit_chars(d.day)
}

fn days_in_month(m: u8) -> (r: u8)
    requires
        1 <= m <= 12,
    ensures
        r == spec_days_in_month(m),
{
    if m == 2 {
        29
    } else if m == 4 || m == 6 || m == 9 || m == 11 {
        30
    } else {
        31
    }
}

impl Date {
    /// Whether the date is calendar-plausible under the fixed table.
    pub fn plausible(&self) -> (r: bool)
        ensures
            r == date_plausible(*self),
    {
        1 <= self.month && self.month <= 12 && 1 <= self.day && self.day <= days_in_month(
            self.month,
        )
    }

    /// Super-simple increment for days; never distinguishes leap years
    /// (February always has 29 days). The caller must supply a month in
    /// `1..=12`; a day above the table entry advances to the next month or
    /// year exactly as a day equal to it does.
    pub fn next(self) -> (r: Date)
        requires
            1 <= self.month <= 12,
            !(self.year == 0xffff && self.month == 12 && self.day >= 31),
        ensures
            r == spec_next(self),
    {
        if self.day < days_in_month(self.month) {
            return Date { year: self.year, month: self.month, day: self.day + 1 };
        }
        if self.month < 12 {
            return Date { year: self.year, month: self.month + 1, day: 1 };
        }
        Date { year: self.year + 1, month: 1, day: 1 }
    }

    /// The canonical text form `YYYY-MM-DD`, zero-padded.
    pub fn to_string(&self) -> (s: String)
        ensures
            s@ == date_chars(*self),
    {
        let mut b: Vec<u8> = Vec::new();
        if self.year > 9999 {
            b.push(0x30 + (self.year / 10000) as u8);
        }
        b.push(0x30 + (self.year / 1000 % 10) as u8);
        b.push(0x30 + (self.year / 100 % 10) as u8);
        b.push(0x30 + (self.year / 10 % 10) as u8);
        b.push(0x30 + (self.year % 10) as u8);
        b.push(0x2d);
        if self.month > 99 {
            b.push(0x30 + self.month / 100);
        }
        b.push(0x30 + self.month / 10 % 10);
        b.push(0x30 + self.month % 10);
        b.push(0x2d);
        if self.day > 99 {
            b.push(0x30 + self.day / 100);
        }
        b.push(0x30 + self.day / 10 % 10);
        b.push(0x30 + self.day % 10);
        let s = crate::text::ascii_to_string(b);
        proof {
            assert(s@ =~= date_chars(*self));
        }
        s
    }
}

impl PartialOrd for Date {
    fn partial_cmp(&self, other: &Self) -> Option<Ordering> {
        if self.year > other.year {
            return Some(Ordering::Greater);
        } else if self.year < other.year {
            return Some(Ordering::Less);
        }
        if self.month > other.month {
            return Some(Ordering::Greater);
        } else if self.month < other.month {
            return Some(Ordering::Less);
        }
        if self.day > other.day {
            return Some(Ordering::Greater);
        } else if self.day < other.day {
            return Some(Ordering::Less);
        }
        Some(Ordering::Equal)
    }
}

impl vstd::std_specs::cmp::PartialOrdSpecImpl for Date {
    open spec fn obeys_partial_cmp_spec() -> bool {
        true
    }

    open spec fn partial_cmp_spec(&self, other: &Self) -> Option<Ordering> {
        if date_lt(*self, *other) {
            Some(Ordering::Less)
        } else if date_lt(*other, *self) {
            Some(Ordering::Greater)
        } else {
            Some(Ordering::Equal)
        }
    }
}

/// The comparison is a total order consistent with comparing the
/// (year, month, day) tuples: for any two dates exactly one of
/// less / equal / greater holds, and strict order is transitive.
pub proof fn lemma_date_total_order(a: Date, b: Date, c: Date)
    ensures
        date_lt(a, b) ==> !(a == b) && !date_lt(b, a),
        a == b ==> !date_lt(a, b) && !date_lt(b, a),
        !date_lt(a, b) && !date_lt(b, a) ==> a == b,
        date_lt(a, b) && date_lt(b, c) ==> date_lt(a, c),
        a.partial_cmp_spec(&b) == Some(Ordering::Less) <==> date_lt(a, b),
        a.partial_cmp_spec(&b) == Some(Ordering::Greater) <==> date_lt(b, a),
        a.partial_cmp_spec(&b) == Some(Ordering::Equal) <==> a == b,
{
}

} // verus!
