//! The library error type.

use vstd::prelude::*;
use vstd::string::*;

verus! {

/// The error every fallible OXIS operation reports.
#[derive(Debug)]
pub enum OxisError {
    /// An input outside the operation's domain; the message says which.
    InvalidInput(String),
    /// A market-data provider could not serve the request.
    DataSource(String),
    /// A numerical procedure failed: no convergence, a singular system, an
    /// invalid bracket.
    Numerical(String),
}

impl OxisError {
    /// An [`OxisError::InvalidInput`] carrying `msg`.
    pub fn invalid_input(msg: &str) -> (e: Self)
        ensures
            e is InvalidInput,
            e.message_view() == msg@,
    {
        OxisError::InvalidInput(String::from_str(msg))
    }

    /// An [`OxisError::DataSource`] carrying `msg`.
    pub fn data_source(msg: &str) -> (e: Self)
        ensures
            e is DataSource,
            e.message_view() == msg@,
    {
        OxisError::DataSource(String::from_str(msg))
    }

    /// An [`OxisError::Numerical`] carrying `msg`.
    pub fn numerical(msg: &str) -> (e: Self)
        ensures
            e is Numerical,
            e.message_view() == msg@,
    {
        OxisError::Numerical(String::from_str(msg))
    }

    /// The message carried by the error, as characters.
    pub open spec fn message_view(&self) -> Seq<char> {
        match self {
            OxisError::InvalidInput(m) => m@,
            OxisError::DataSource(m) => m@,
            OxisError::Numerical(m) => m@,
        }
    }

    /// The prefix naming the error's kind in its full text.
    pub open spec fn kind_prefix(&self) -> Seq<char> {
        match self {
            OxisError::InvalidInput(_) => "invalid input: "@,
            OxisError::DataSource(_) => "data source error: "@,
            OxisError::Numerical(_) => "numerical error: "@,
        }
    }

    /// The full text the error is reported with: its kind, then its message.
    pub fn to_text(&self) -> (t: String)
        ensures
            t@ == self.kind_prefix() + self.message_view(),
    {
        match self {
            OxisError::InvalidInput(m) => String::from_str("invalid input: ").concat(m.as_str()),
            OxisError::DataSource(m) => String::from_str("data source error: ").concat(m.as_str()),
            OxisError::Numerical(m) => String::from_str("numerical error: ").concat(m.as_str()),
        }
    }

    /// The human-readable message, without the kind prefix.
    pub fn message(&self) -> (m: &str)
        ensures
            m@ == self.message_view(),
    {
        match self {
            OxisError::InvalidInput(m) => m.as_str(),
            OxisError::DataSource(m) => m.as_str(),
            OxisError::Numerical(m) => m.as_str(),
        }
    }
}

} // verus!
