//! The placeholder market-data provider.

use vstd::prelude::*;
use crate::error::OxisError;
use crate::series::DateRange;

verus! {

/// A placeholder market-data provider proving the service boundary compiles.
/// Every request reports that the market-data ring is not implemented yet.
#[derive(Debug, Default, Clone, Copy)]
pub struct StubSource;

/// What the placeholder provider answers every request with.
pub open spec fn stub_message() -> Seq<char> {
    "oxis::data is not implemented yet (market-data ring is long-term)"@
}

impl StubSource {
    /// The provider's identifier.
    pub fn name(&self) -> (s: &'static str)
        ensures
            s@ == "stub"@,
    {
        "stub"
    }

    /// The bars of type `B` for `symbol` over `range`: always an error.
    pub fn ohlcv<B>(&self, symbol: &str, range: DateRange) -> (r: Result<Vec<B>, OxisError>)
        ensures
            r is Err,
            r matches Err(e) ==> e is DataSource && e.message_view() == stub_message(),
    {
        Err(
            OxisError::data_source(
                "oxis::data is not implemented yet (market-data ring is long-term)",
            ),
        )
    }
}

} // verus!
