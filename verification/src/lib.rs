//! Checks delimited text files for malformed records: reassembles logical
//! records that span several physical lines and flags fields whose quoting
//! (qualifier) characters are not properly escaped.

pub mod chars;
pub mod error;
pub mod extract;
pub mod options;
pub mod pattern;
pub mod reader;
pub mod results;

pub use chars::count_char;
pub use error::AnalyzerError;
pub use extract::extract_qualified_values;
pub use options::{check_all_qualified, qualifier_in_record, TextFileOptions};
pub use reader::RecordsReader;
pub use results::{classify, AnalyzeResult, AnalyzerResult, PeekResult};
