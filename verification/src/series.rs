//! Typed time-series interchange records: date-indexed series and date ranges.

use vstd::prelude::*;
use vstd::string::*;
use crate::date::{date_le, Date};
use crate::error::OxisError;
use crate::text::{decimal, decimal_digits};

verus! {

/// A date-indexed series of values of type `T` (closing prices, returns, ...).
/// `index` and `values` are parallel; [`TimeSeries::new`] enforces equal length.
#[derive(Debug, Clone, PartialEq)]
pub struct TimeSeries<T> {
    /// The dates, one per value, in ascending order by convention.
    pub index: Vec<Date>,
    /// The values, aligned to `index`.
    pub values: Vec<T>,
}

/// The message reported when a series' dates and values do not align.
pub open spec fn length_mismatch_message(n_index: nat, n_values: nat) -> Seq<char> {
    "time series index/values length mismatch: "@ + decimal_digits(n_index) + " vs "@
        + decimal_digits(n_values)
}

impl<T> TimeSeries<T> {
    /// Construct a series, validating that `index` and `values` align.
    pub fn new(index: Vec<Date>, values: Vec<T>) -> (r: Result<Self, OxisError>)
        ensures
            r is Ok <==> index@.len() == values@.len(),
            r matches Ok(ts) ==> ts.index@ == index@ && ts.values@ == values@,
            r matches Err(e) ==> e is InvalidInput && e.message_view() == length_mismatch_message(
                index@.len(),
                values@.len(),
            ),
    {
        if index.len() != values.len() {
            let mut msg = String::from_str("time series index/values length mismatch: ");
            let a = decimal(index.len());
            msg.append(a.as_str());
            msg.append(" vs ");
            let b = decimal(values.len());
            msg.append(b.as_str());
            return Err(OxisError::invalid_input(msg.as_str()));
        }
        Ok(TimeSeries { index, values })
    }

    /// Number of observations.
    pub fn len(&self) -> (n: usize)
        ensures
            n == self.values@.len(),
    {
        self.values.len()
    }

    /// Whether the series has no observations.
    pub fn is_empty(&self) -> (b: bool)
        ensures
            b == (self.values@.len() == 0),
    {
        self.values.len() == 0
    }
}

/// An inclusive date range `[start, end]`, used by data-source queries.
#[derive(Debug, Clone, Copy, PartialEq, Eq)]
pub struct DateRange {
    /// First date (inclusive).
    pub start: Date,
    /// Last date (inclusive).
    pub end: Date,
}

impl DateRange {
    /// Construct a range, requiring `start <= end`.
    pub fn new(start: Date, end: Date) -> (r: Result<Self, OxisError>)
        ensures
            r is Ok <==> date_le(start@, end@),
            r matches Ok(range) ==> range.start == start && range.end == end,
            r matches Err(e) ==> e is InvalidInput && e.message_view()
                == "date range start after end"@,
    {
        if !start.is_on_or_before(&end) {
            return Err(OxisError::invalid_input("date range start after end"));
        }
        Ok(DateRange { start, end })
    }
}

} // verus!
