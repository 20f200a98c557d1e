//! Calendar dates (proleptic Gregorian) and their ISO `YYYY-MM-DD` parser.

use vstd::prelude::*;
use crate::error::OxisError;
use crate::text::{
    all_digits, chars_of, decimal_digits, digits_value, lemma_decimal_digits_value,
    lemma_leading_zero_value, lemma_split_on_three, parse_digits, spec_decimal_upto, split_chars,
    split_on,
};

verus! {

/// Gregorian leap-year rule.
pub open spec fn is_leap_year(y: int) -> bool {
    y % 4 == 0 && (y % 100 != 0 || y % 400 == 0)
}

/// Number of days in month `m` (1-based) of year `y`.
pub open spec fn days_in_month(y: int, m: int) -> int {
    if m == 2 {
        if is_leap_year(y) {
            29
        } else {
            28
        }
    } else if m == 4 || m == 6 || m == 9 || m == 11 {
        30
    } else {
        31
    }
}

/// Whether `(y, m, d)` names a real calendar day.
pub open spec fn is_valid_date(y: int, m: int, d: int) -> bool {
    1 <= m <= 12 && 1 <= d <= days_in_month(y, m)
}

/// Chronological order on `(year, month, day)` triples: `a` is not after `b`.
pub open spec fn date_le(a: (int, int, int), b: (int, int, int)) -> bool {
    ||| a.0 < b.0
    ||| a.0 == b.0 && a.1 < b.1
    ||| a.0 == b.0 && a.1 == b.1 && a.2 <= b.2
}

/// A calendar date. Only [`Date::new`] builds one, so every `Date` is a real day.
#[derive(Clone, Copy, Debug, PartialEq, Eq, Hash, PartialOrd, Ord)]
pub struct Date {
    year: i32,
    month: u8,
    day: u8,
}

impl View for Date {
    type V = (int, int, int);

    closed spec fn view(&self) -> (int, int, int) {
        (self.year as int, self.month as int, self.day as int)
    }
}

impl Date {
    #[verifier::type_invariant]
    closed spec fn valid(self) -> bool {
        is_valid_date(self.year as int, self.month as int, self.day as int)
    }

    /// Construct a date, rejecting days that do not exist in the calendar.
    #[verifier::rlimit(30)]
    pub fn new(year: i32, month: u8, day: u8) -> (r: Result<Date, OxisError>)
        ensures
            r is Ok <==> is_valid_date(year as int, month as int, day as int),
            r matches Ok(d) ==> d@ == (year as int, month as int, day as int),
            r matches Err(e) ==> e is InvalidInput && e.message_view() == (if 1 <= month <= 12 {
                "invalid date: day out of range for the month"@
            } else {
                "invalid date: month must be in 1..=12"@
            }),
    {
        if month < 1 || month > 12 {
            return Err(OxisError::invalid_input("invalid date: month must be in 1..=12"));
        }
        let leap = year % 4 == 0 && (year % 100 != 0 || year % 400 == 0);
        let dim: u8 = if month == 2 {
            if leap {
                29
            } else {
                28
            }
        } else if month == 4 || month == 6 || month == 9 || month == 11 {
            30
        } else {
            31
        };
        assert(dim == days_in_month(year as int, month as int));
        if day < 1 || day > dim {
            return Err(OxisError::invalid_input("invalid date: day out of range for the month"));
        }
        Ok(Date { year, month, day })
    }

    /// The year.
    pub fn year(&self) -> (y: i32)
        ensures
            y == self@.0,
    {
        self.year
    }

    /// The month, `1..=12`.
    pub fn month(&self) -> (m: u8)
        ensures
            m == self@.1,
    {
        self.month
    }

    /// The day of the month, starting at 1.
    pub fn day(&self) -> (d: u8)
        ensures
            d == self@.2,
    {
        self.day
    }

    /// Whether `self` falls on or before `other`.
    pub fn is_on_or_before(&self, other: &Date) -> (b: bool)
        ensures
            b == date_le(self@, other@),
    {
        self.year < other.year || (self.year == other.year && (self.month < other.month || (
        self.month == other.month && self.day <= other.day)))
    }
}

/// `str::parse::<u8>`: an optional `+`, then one or more decimal digits, at most 255.
pub open spec fn spec_parse_u8(s: Seq<char>) -> Option<u8> {
    let body = if s.len() > 0 && s[0] == '+' {
        s.drop_first()
    } else {
        s
    };
    match spec_decimal_upto(body, 255) {
        Some(v) => Some(v as u8),
        None => None,
    }
}

/// `str::parse::<i32>`: an optional sign, then one or more decimal digits, in range.
pub open spec fn spec_parse_i32(s: Seq<char>) -> Option<i32> {
    if s.len() > 0 && s[0] == '-' {
        match spec_decimal_upto(s.drop_first(), 0x8000_0000) {
            Some(v) => Some((-v) as i32),
            None => None,
        }
    } else {
        let body = if s.len() > 0 && s[0] == '+' {
            s.drop_first()
        } else {
            s
        };
        match spec_decimal_upto(body, 0x7FFF_FFFF) {
            Some(v) => Some(v as i32),
            None => None,
        }
    }
}

/// Parse decimal text as a `u8`, as `str::parse::<u8>` does.
pub fn parse_u8(s: &Vec<char>) -> (r: Option<u8>)
    ensures
        r == spec_parse_u8(s@),
{
    let from: usize = if s.len() > 0 && s[0] == '+' {
        1
    } else {
        0
    };
    proof {
        if from == 1 {
            assert(s@.drop_first() == s@.subrange(1, s@.len() as int));
        } else {
            assert(s@ == s@.subrange(0, s@.len() as int));
        }
    }
    match parse_digits(s, from, 255) {
        Some(v) => Some(v as u8),
        None => None,
    }
}

/// Parse decimal text as an `i32`, as `str::parse::<i32>` does.
pub fn parse_i32(s: &Vec<char>) -> (r: Option<i32>)
    ensures
        r == spec_parse_i32(s@),
{
    if s.len() > 0 && s[0] == '-' {
        proof {
            assert(s@.drop_first() == s@.subrange(1, s@.len() as int));
        }
        match parse_digits(s, 1, 0x8000_0000) {
            Some(v) => {
                let neg: i64 = -(v as i64);
                Some(neg as i32)
            },
            None => None,
        }
    } else {
        let from: usize = if s.len() > 0 && s[0] == '+' {
            1
        } else {
            0
        };
        proof {
            if from == 1 {
                assert(s@.drop_first() == s@.subrange(1, s@.len() as int));
            } else {
                assert(s@ == s@.subrange(0, s@.len() as int));
            }
        }
        match parse_digits(s, from, 0x7FFF_FFFF) {
            Some(v) => Some(v as i32),
            None => None,
        }
    }
}

/// Why an ISO date string was rejected.
#[derive(Debug)]
pub enum DateParseError {
    /// Not three `-`-separated fields.
    Shape,
    /// The year field is not an `i32`.
    Year,
    /// The month field is not a `u8`.
    Month,
    /// The day field is not a `u8`.
    Day,
    /// The fields parse but name no calendar day.
    Calendar(OxisError),
}

/// Which field of an ISO date string is at fault.
pub enum DateFault {
    /// Not three `-`-separated fields.
    Shape,
    /// The year field.
    Year,
    /// The month field.
    Month,
    /// The day field.
    Day,
    /// The fields name no calendar day.
    Calendar,
}

/// What parsing an ISO `YYYY-MM-DD` string yields: the `(year, month, day)`
/// it names, or the first field at fault.
pub open spec fn spec_parse_date(s: Seq<char>) -> Result<(int, int, int), DateFault> {
    let parts = split_on(s, '-');
    if parts.len() != 3 {
        Err(DateFault::Shape)
    } else {
        match spec_parse_i32(parts[0]) {
            None => Err(DateFault::Year),
            Some(y) => match spec_parse_u8(parts[1]) {
                None => Err(DateFault::Month),
                Some(m) => match spec_parse_u8(parts[2]) {
                    None => Err(DateFault::Day),
                    Some(d) => if is_valid_date(y as int, m as int, d as int) {
                        Ok((y as int, m as int, d as int))
                    } else {
                        Err(DateFault::Calendar)
                    },
                },
            },
        }
    }
}

/// The field a date-parse error blames.
pub open spec fn fault_of(e: DateParseError) -> DateFault {
    match e {
        DateParseError::Shape => DateFault::Shape,
        DateParseError::Year => DateFault::Year,
        DateParseError::Month => DateFault::Month,
        DateParseError::Day => DateFault::Day,
        DateParseError::Calendar(_) => DateFault::Calendar,
    }
}

/// Whether a date-parse outcome is what [`spec_parse_date`] says of `s`.
pub open spec fn parses_as(r: Result<Date, DateParseError>, s: Seq<char>) -> bool {
    match spec_parse_date(s) {
        Ok(t) => r is Ok && r->Ok_0@ == t,
        Err(f) => r is Err && fault_of(r->Err_0) == f,
    }
}

/// Parse an ISO `YYYY-MM-DD` string into a [`Date`].
pub fn parse_date(s: &str) -> (r: Result<Date, DateParseError>)
    ensures
        parses_as(r, s@),
{
    let cs = chars_of(s);
    let parts = split_chars(&cs, '-');
    if parts.len() != 3 {
        return Err(DateParseError::Shape);
    }
    let y = match parse_i32(&parts[0]) {
        Some(v) => v,
        None => return Err(DateParseError::Year),
    };
    let m = match parse_u8(&parts[1]) {
        Some(v) => v,
        None => return Err(DateParseError::Month),
    };
    let d = match parse_u8(&parts[2]) {
        Some(v) => v,
        None => return Err(DateParseError::Day),
    };
    match Date::new(y, m, d) {
        Ok(date) => Ok(date),
        Err(e) => Err(DateParseError::Calendar(e)),
    }
}

/// The Gregorian month lengths. January, March, May, July, August, October and
/// December have 31 days; April, June, September and November have 30;
/// February has 29 in a leap year (divisible by 4, and by 400 if by 100) and 28
/// otherwise. No month has a day 0 or a day 32, and the valid days of a month
/// run without gaps from 1.
pub proof fn lemma_gregorian_month_lengths(y: int, m: int, d: int)
    requires
        1 <= m <= 12,
    ensures
        is_valid_date(y, m, 1),
        is_valid_date(y, m, 28),
        is_valid_date(y, m, 29) <==> (m != 2 || (y % 4 == 0 && (y % 100 != 0 || y % 400 == 0))),
        is_valid_date(y, m, 30) <==> m != 2,
        is_valid_date(y, m, 31) <==> (m == 1 || m == 3 || m == 5 || m == 7 || m == 8 || m == 10
            || m == 12),
        !is_valid_date(y, m, 0),
        !is_valid_date(y, m, 32),
        is_valid_date(y, m, d) ==> forall|e: int| 1 <= e <= d ==> is_valid_date(y, m, e),
{
}

/// A month outside `1..=12` has no valid day.
pub proof fn lemma_months_run_one_to_twelve(y: int, m: int, d: int)
    requires
        m < 1 || m > 12,
    ensures
        !is_valid_date(y, m, d),
{
}

/// A year has 366 days when it is a leap year and 365 otherwise: the month
/// lengths add up.
pub proof fn lemma_year_length(y: int)
    ensures
        days_in_month(y, 1) + days_in_month(y, 2) + days_in_month(y, 3) + days_in_month(y, 4)
            + days_in_month(y, 5) + days_in_month(y, 6) + days_in_month(y, 7) + days_in_month(y, 8)
            + days_in_month(y, 9) + days_in_month(y, 10) + days_in_month(y, 11) + days_in_month(
            y,
            12,
        ) == if y % 4 == 0 && (y % 100 != 0 || y % 400 == 0) {
            366int
        } else {
            365int
        },
{
}

/// A month or day field written with at least two digits (`01` .. `31`).
pub open spec fn two_digit_field(n: nat) -> Seq<char> {
    if n < 10 {
        seq!['0'] + decimal_digits(n)
    } else {
        decimal_digits(n)
    }
}

proof fn lemma_field_reads_back(ds: Seq<char>, n: nat)
    requires
        ds.len() >= 1,
        all_digits(ds),
        digits_value(ds) == n,
        n <= 255,
    ensures
        spec_parse_u8(ds) == Some(n as u8),
        forall|i: int| 0 <= i < ds.len() ==> #[trigger] ds[i] != '-',
{
    assert('0' <= ds[0] <= '9');
    assert forall|i: int| 0 <= i < ds.len() implies #[trigger] ds[i] != '-' by {
        assert('0' <= ds[i] <= '9');
    }
}

proof fn lemma_two_digit_field(n: nat)
    requires
        n <= 255,
    ensures
        spec_parse_u8(two_digit_field(n)) == Some(n as u8),
        forall|i: int|
            0 <= i < two_digit_field(n).len() ==> #[trigger] two_digit_field(n)[i] != '-',
{
    lemma_decimal_digits_value(n);
    let ds = decimal_digits(n);
    if n < 10 {
        let z = seq!['0'] + ds;
        lemma_leading_zero_value(ds);
        assert forall|i: int| 0 <= i < z.len() implies '0' <= #[trigger] z[i] <= '9' by {
            if i > 0 {
                assert(z[i] == ds[i - 1]);
            }
        }
        lemma_field_reads_back(z, n);
    } else {
        lemma_field_reads_back(ds, n);
    }
}

/// An ISO date written out reads back as that date: for every real calendar
/// day from year 0 on, `YYYY-MM-DD` with the year in decimal and the month and
/// day in two digits parses to that day, and so does the form without the
/// leading zeros.
pub proof fn lemma_parse_date_round_trip(y: int, m: int, d: int)
    requires
        0 <= y <= i32::MAX,
        is_valid_date(y, m, d),
    ensures
        spec_parse_date(
            decimal_digits(y as nat) + seq!['-'] + two_digit_field(m as nat) + seq!['-']
                + two_digit_field(d as nat),
        ) == Ok::<(int, int, int), DateFault>((y, m, d)),
        spec_parse_date(
            decimal_digits(y as nat) + seq!['-'] + decimal_digits(m as nat) + seq!['-']
                + decimal_digits(d as nat),
        ) == Ok::<(int, int, int), DateFault>((y, m, d)),
{
    let yd = decimal_digits(y as nat);
    lemma_decimal_digits_value(y as nat);
    assert('0' <= yd[0] <= '9');
    assert forall|i: int| 0 <= i < yd.len() implies #[trigger] yd[i] != '-' by {
        assert('0' <= yd[i] <= '9');
    }
    assert(spec_parse_i32(yd) == Some(y as i32));
    lemma_two_digit_field(m as nat);
    lemma_two_digit_field(d as nat);
    lemma_split_on_three(yd, two_digit_field(m as nat), two_digit_field(d as nat), '-');
    let md = decimal_digits(m as nat);
    let dd = decimal_digits(d as nat);
    lemma_decimal_digits_value(m as nat);
    lemma_decimal_digits_value(d as nat);
    lemma_field_reads_back(md, m as nat);
    lemma_field_reads_back(dd, d as nat);
    lemma_split_on_three(yd, md, dd, '-');
}

} // verus!
