//! How converted text is put out.

use super::format::Formatted;
use vstd::prelude::*;
use vstd::string::*;

verus! {

/// Puts text out as it is, without colour.
#[derive(Debug, Default)]
pub struct PlainTextPrinter {}

impl PlainTextPrinter {
    /// What is written for `text`: the text and a line break.
    pub fn print(&self, text: &Formatted) -> (out: String)
        ensures
            out@ == text.text@ + "\n"@,
    {
        let mut out = text.text.clone();
        out.append("\n");
        out
    }
}

} // verus!
