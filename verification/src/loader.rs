//! Loading: from the text of a document to its value, to its display form
//! before any comparison, and to the comparison of two documents.

use crate::diff::{diff_json_values, diff_of};
use crate::json::{error_text, parse_text, parsed, pretty, pretty_text};
use crate::lines::DiffResult;
use serde_json::Value;
use vstd::prelude::*;

verus! {

/// Why a document could not be loaded.
#[derive(Debug)]
pub enum LoadError {
    /// The text is not well-formed JSON. Holds the parser's message.
    Parse(String),
    /// The value could not be written back as text. Holds the printer's
    /// message.
    Print(String),
}

impl LoadError {
    /// The message of the error.
    pub fn message(&self) -> (r: String)
        ensures
            r@ == match *self {
                LoadError::Parse(m) => m@,
                LoadError::Print(m) => m@,
            },
    {
        match self {
            LoadError::Parse(m) => m.clone(),
            LoadError::Print(m) => m.clone(),
        }
    }
}

/// The display form of a document before any comparison: its value, pretty
/// printed. `None` where the text is not well-formed or the value cannot be
/// printed.
pub open spec fn display_text(text: Seq<char>) -> Option<Seq<char>> {
    match parsed(text) {
        Some(v) => pretty_text(v),
        None => None,
    }
}

/// The comparison of two documents given as text. `None` where either is not
/// well-formed.
pub open spec fn text_diff(left: Seq<char>, right: Seq<char>) -> Option<
    (Seq<(Seq<char>, crate::lines::LineStyle)>, Seq<(Seq<char>, crate::lines::LineStyle)>),
> {
    match (parsed(left), parsed(right)) {
        (Some(l), Some(r)) => Some(diff_of(l, r)),
        _ => None,
    }
}

/// Parses a text as JSON. Fails with `LoadError::Parse` exactly where the
/// text is not well-formed.
pub fn parse_json(text: &str) -> (r: Result<Value, LoadError>)
    ensures
        match r {
            Ok(v) => parsed(text@) == Some(v),
            Err(e) => parsed(text@) is None && e is Parse,
        },
{
    match parse_text(text) {
        Ok(v) => Ok(v),
        Err(e) => Err(LoadError::Parse(error_text(&e))),
    }
}

/// Writes a value as indented, multi-line text.
pub fn pretty_print(value: &Value) -> (r: Result<String, LoadError>)
    ensures
        match r {
            Ok(s) => pretty_text(*value) == Some(s@),
            Err(e) => pretty_text(*value) is None && e is Print,
        },
{
    match pretty(value) {
        Ok(s) => Ok(s),
        Err(e) => Err(LoadError::Print(error_text(&e))),
    }
}

/// Parses a text and writes the value back pretty printed, for display.
pub fn read_json(text: &str) -> (r: Result<String, LoadError>)
    ensures
        match r {
            Ok(s) => display_text(text@) == Some(s@),
            Err(e) => display_text(text@) is None && (e is Parse <==> parsed(text@) is None),
        },
{
    match parse_json(text) {
        Ok(v) => pretty_print(&v),
        Err(e) => Err(e),
    }
}

/// Parses the texts of the two documents and compares their values. Fails
/// with `LoadError::Parse` exactly where one of the texts is not well-formed.
pub fn compare_json_files(left_text: &str, right_text: &str) -> (r: Result<DiffResult, LoadError>)
    ensures
        match r {
            Ok(d) => text_diff(left_text@, right_text@) == Some(d@) && d.aligned(),
            Err(e) => text_diff(left_text@, right_text@) is None && e is Parse,
        },
{
    match parse_json(left_text) {
        Ok(left) => match parse_json(right_text) {
            Ok(right) => Ok(diff_json_values(&left, &right)),
            Err(e) => Err(e),
        },
        Err(e) => Err(e),
    }
}

} // verus!
