//! The spreadsheet recalculation oracle's identity and conversion naming.
//!
//! The oracle is an external program that recalculates a spreadsheet
//! artifact and writes it out as delimited text.  The library holds its
//! identity — the command it is reached by and the version string its
//! probe reported — and derives the name of the text file a conversion
//! produces.  Probing for the oracle and running it are subprocess work
//! that lives outside the library.

use vstd::prelude::*;

verus! {

/// The recalculation oracle: the command it is reached by and the version
/// string its probe reported.
pub struct SpreadsheetEngine {
    pub path: String,
    pub version: String,
}

impl SpreadsheetEngine {
    /// An oracle reached by `path` whose probe reported `version`.
    pub fn new(path: String, version: String) -> (e: Self)
        ensures
            e.path@ == path@,
            e.version@ == version@,
    {
        SpreadsheetEngine { path, version }
    }

    /// The version string the oracle's probe reported.
    pub fn version(&self) -> (r: &str)
        ensures
            r@ == self.version@,
    {
        self.version.as_str()
    }

    /// The engine name.
    pub fn name() -> (r: &'static str)
        ensures
            r@ == "Gnumeric (ssconvert)"@,
    {
        "Gnumeric (ssconvert)"
    }

    /// The command the oracle is reached by.
    pub fn path(&self) -> (r: &str)
        ensures
            r@ == self.path@,
    {
        self.path.as_str()
    }
}

/// The name of the delimited text file a conversion of `<stem>.xlsx`
/// produces: the stem with the text extension.
pub fn csv_file_name(stem: &str) -> (r: String)
    ensures
        r@ == stem@ + ".csv"@,
{
    let mut name = String::new();
    name.append(stem);
    name.append(".csv");
    name
}

} // verus!
