//! Errors of the analyzer: configuration failures described by a message,
//! and I/O failures of the underlying line source.

use vstd::prelude::*;

verus! {

#[verifier::external_type_specification]
#[verifier::external_body]
pub struct ExIoError(std::io::Error);

/// A hard error that aborts the scan of one file.
pub enum AnalyzerError {
    Generic(String),
    IO(std::io::Error),
}

impl From<std::io::Error> for AnalyzerError {
    fn from(error: std::io::Error) -> (r: Self) {
        AnalyzerError::IO(error)
    }
}

impl vstd::std_specs::convert::FromSpecImpl<std::io::Error> for AnalyzerError {
    open spec fn obeys_from_spec() -> bool {
        true
    }

    open spec fn from_spec(v: std::io::Error) -> Self {
        AnalyzerError::IO(v)
    }
}

impl<'a> From<&'a str> for AnalyzerError {
    fn from(error: &'a str) -> (r: Self) {
        AnalyzerError::Generic(String::from_str(error))
    }
}

impl<'a> vstd::std_specs::convert::FromSpecImpl<&'a str> for AnalyzerError {
    open spec fn obeys_from_spec() -> bool {
        false
    }

    open spec fn from_spec(v: &'a str) -> Self {
        arbitrary()
    }
}

impl AnalyzerError {
    /// The message of a described failure, if this is one.
    pub fn generic_message(&self) -> (r: Option<&String>)
        ensures
            match r {
                Some(m) => self matches AnalyzerError::Generic(g) && m@ == g@,
                None => self matches AnalyzerError::IO(_),
            },
    {
        match self {
            AnalyzerError::Generic(m) => Some(m),
            AnalyzerError::IO(_) => None,
        }
    }
}

} // verus!
