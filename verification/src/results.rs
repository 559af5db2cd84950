//! The result taxonomy of a whole-file scan, and the reduction that turns
//! the findings accumulated over all records into one final verdict.

use vstd::prelude::*;

use crate::error::AnalyzerError;

verus! {

pub type AnalyzerResult<T> = Result<T, AnalyzerError>;

/// Final classification of a file's health.
#[derive(Debug, Clone, Copy, PartialEq, Eq, Structural)]
pub enum AnalyzeResult {
    FileNotFound,
    BadRegex,
    BadEncoding,
    NonEscapedQualifiers,
    DelimiterCount { too_many: bool, qualifier: bool },
    Both,
    NewLineNoQualifier,
    Good,
}

/// Outcome of a preliminary look at a file before the scan proper.
#[derive(Debug, Clone, Copy, PartialEq, Eq, Structural)]
pub enum PeekResult {
    FileNotFound,
    Failed,
    BadEncoding,
    Success,
}

/// The verdict that the findings of one whole scan reduce to: both kinds of
/// finding present beats either alone; unescaped qualifiers beat delimiter
/// mismatches; an embedded newline seen while no qualifier was configured is
/// reported only when nothing else was found; otherwise the file is good.
pub open spec fn spec_classify(
    non_escaped_found: bool,
    delimiter_mismatch_found: bool,
    too_many: bool,
    qualifier_related: bool,
    newline_without_qualifier: bool,
) -> AnalyzeResult {
    if non_escaped_found && delimiter_mismatch_found {
        AnalyzeResult::Both
    } else if non_escaped_found {
        AnalyzeResult::NonEscapedQualifiers
    } else if delimiter_mismatch_found {
        AnalyzeResult::DelimiterCount { too_many, qualifier: qualifier_related }
    } else if newline_without_qualifier {
        AnalyzeResult::NewLineNoQualifier
    } else {
        AnalyzeResult::Good
    }
}

/// Reduces the findings accumulated over all records to the final verdict.
pub fn classify(
    non_escaped_found: bool,
    delimiter_mismatch_found: bool,
    too_many: bool,
    qualifier_related: bool,
    newline_without_qualifier: bool,
) -> (r: AnalyzeResult)
    ensures
        r == spec_classify(
            non_escaped_found,
            delimiter_mismatch_found,
            too_many,
            qualifier_related,
            newline_without_qualifier,
        ),
{
    if non_escaped_found && delimiter_mismatch_found {
        AnalyzeResult::Both
    } else if non_escaped_found {
        AnalyzeResult::NonEscapedQualifiers
    } else if delimiter_mismatch_found {
        AnalyzeResult::DelimiterCount { too_many, qualifier: qualifier_related }
    } else if newline_without_qualifier {
        AnalyzeResult::NewLineNoQualifier
    } else {
        AnalyzeResult::Good
    }
}

} // verus!
