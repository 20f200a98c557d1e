//! Column headers of rendered result records.

use vstd::prelude::*;

verus! {

/// A column header for a result record.
#[derive(Debug, Clone, Copy, PartialEq, Eq)]
pub struct Column {
    /// The field name shown in headers / human labels / JSON keys.
    pub name: &'static str,
}

impl Column {
    /// Construct a column from its name.
    pub fn new(name: &'static str) -> (c: Self)
        ensures
            c.name == name,
    {
        Column { name }
    }
}

} // verus!
