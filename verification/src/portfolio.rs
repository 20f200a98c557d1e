//! The text layout of portfolio inputs: holding specs, dated cash flows, and
//! matrix rows. Only the numeric fields' decimal values are left to the caller.

use vstd::prelude::*;
use vstd::string::*;
use crate::date::{parse_date, parses_as, Date, DateParseError};
use crate::text::{last_index_of, rsplit_once_str, spec_trim, split_on, split_str, strs_view, trim_str};

verus! {

/// The fields of a holding spec `SYMBOL:QUANTITY:UNIT_COST:PRICE`: the four
/// `:`-separated pieces, or nothing when there are not exactly four.
pub fn holding_fields(spec: &str) -> (r: Option<Vec<String>>)
    ensures
        r is Some <==> split_on(spec@, ':').len() == 4,
        r matches Some(v) ==> strs_view(v@) == split_on(spec@, ':'),
{
    let parts = split_str(spec, ':');
    if parts.len() != 4 {
        return None;
    }
    Some(parts)
}

/// Why a dated cash flow `YYYY-MM-DD:AMOUNT` was rejected.
#[derive(Debug)]
pub enum CashflowError {
    /// No `:` separates the date from the amount.
    Shape,
    /// The date part is not a valid ISO date.
    Date(DateParseError),
}

/// Split a dated cash flow `YYYY-MM-DD:AMOUNT` at its last `:` and parse the
/// date; the amount text is returned as written.
pub fn cashflow_parts(spec: &str) -> (r: Result<(Date, String), CashflowError>)
    ensures
        match last_index_of(spec@, ':') {
            None => r matches Err(CashflowError::Shape),
            Some(i) => {
                let date_part = spec@.subrange(0, i);
                let amount_part = spec@.subrange(i + 1, spec@.len() as int);
                match r {
                    Ok((d, amount)) => parses_as(Ok(d), date_part) && amount@ == amount_part,
                    Err(CashflowError::Date(e)) => parses_as(Err(e), date_part),
                    Err(CashflowError::Shape) => false,
                }
            },
        },
{
    let (date_str, amount_str) = match rsplit_once_str(spec, ':') {
        Some(p) => p,
        None => return Err(CashflowError::Shape),
    };
    match parse_date(date_str.as_str()) {
        Ok(d) => Ok((d, amount_str)),
        Err(e) => Err(CashflowError::Date(e)),
    }
}

/// The entries of one comma-separated matrix row, each trimmed of whitespace.
pub open spec fn row_view(row: Seq<char>) -> Seq<Seq<char>> {
    split_on(row, ',').map_values(|f: Seq<char>| spec_trim(f))
}

/// The trimmed comma-separated entries of a matrix row.
pub fn row_fields(row: &str) -> (r: Vec<String>)
    ensures
        strs_view(r@) == row_view(row@),
{
    let parts = split_str(row, ',');
    let mut out: Vec<String> = Vec::new();
    let mut k: usize = 0;
    while k < parts.len()
        invariant
            k <= parts@.len(),
            strs_view(parts@) == split_on(row@, ','),
            out@.len() == k,
            forall|j: int| 0 <= j < k ==> #[trigger] out@[j]@ == spec_trim(parts@[j]@),
        decreases parts@.len() - k,
    {
        let t = trim_str(parts[k].as_str());
        out.push(t);
        k = k + 1;
    }
    proof {
        assert(strs_view(out@) =~= row_view(row@)) by {
            assert forall|j: int| 0 <= j < out@.len() implies #[trigger] strs_view(out@)[j]
                == row_view(row@)[j] by {
                assert(split_on(row@, ',')[j] == strs_view(parts@)[j]);
            }
        }
    }
    out
}

} // verus!
