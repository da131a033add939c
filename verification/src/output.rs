//! Output format selection.
//!
//! Rendering itself (tables, JSON, XML, CSV) is the business of external
//! collaborators; the library only knows which format was chosen.

use vstd::prelude::*;
use vstd::string::*;

use crate::error::Error;
use crate::text::{chars_eq, lower_seq, str_chars, to_lower};

verus! {

broadcast use vstd::string::group_string_axioms;

/// Output format selection.
#[derive(Debug, Clone, Copy, PartialEq, Eq, Structural)]
pub enum OutputFormat {
    /// Human-readable table.
    Table,
    /// JSON format.
    Json,
    /// XML format.
    Xml,
    /// CSV format.
    Csv,
}

impl Default for OutputFormat {
    fn default() -> (r: Self)
        ensures
            r == OutputFormat::Table,
    {
        OutputFormat::Table
    }
}

impl OutputFormat {
    /// Parse a format name, case-insensitively: "table" (also "human" or
    /// "human-readable"), "json", "xml" or "csv".
    pub fn from_str(s: &str) -> (r: Result<OutputFormat, Error>)
        ensures
            (lower_seq(s@) == "table"@ || lower_seq(s@) == "human"@ || lower_seq(s@)
                == "human-readable"@) ==> r == Ok::<OutputFormat, Error>(OutputFormat::Table),
            lower_seq(s@) == "json"@ ==> r == Ok::<OutputFormat, Error>(OutputFormat::Json),
            lower_seq(s@) == "xml"@ ==> r == Ok::<OutputFormat, Error>(OutputFormat::Xml),
            lower_seq(s@) == "csv"@ ==> r == Ok::<OutputFormat, Error>(OutputFormat::Csv),
            r is Ok <==> (lower_seq(s@) == "table"@ || lower_seq(s@) == "human"@ || lower_seq(s@)
                == "human-readable"@ || lower_seq(s@) == "json"@ || lower_seq(s@) == "xml"@
                || lower_seq(s@) == "csv"@),
            r is Err ==> (r matches Err(Error::InvalidArgument(m)) && m@
                == "Invalid output format: "@ + s@),
    {
        proof {
            reveal_strlit("table");
            reveal_strlit("human");
            reveal_strlit("human-readable");
            reveal_strlit("json");
            reveal_strlit("xml");
            reveal_strlit("csv");
            assert("table"@.len() == 5 && "table"@[0] == 't');
            assert("human"@.len() == 5 && "human"@[0] == 'h');
            assert("human-readable"@.len() == 14);
            assert("json"@.len() == 4);
            assert("xml"@.len() == 3 && "xml"@[0] == 'x');
            assert("csv"@.len() == 3 && "csv"@[0] == 'c');
        }
        let lc = to_lower(&str_chars(s));
        if chars_eq(&lc, &str_chars("table")) || chars_eq(&lc, &str_chars("human")) || chars_eq(
            &lc,
            &str_chars("human-readable"),
        ) {
            Ok(OutputFormat::Table)
        } else if chars_eq(&lc, &str_chars("json")) {
            Ok(OutputFormat::Json)
        } else if chars_eq(&lc, &str_chars("xml")) {
            Ok(OutputFormat::Xml)
        } else if chars_eq(&lc, &str_chars("csv")) {
            Ok(OutputFormat::Csv)
        } else {
            Err(Error::InvalidArgument(String::from_str("Invalid output format: ").concat(s)))
        }
    }
}

} // verus!
