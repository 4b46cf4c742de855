//! The errors of the front end, and what a report of one says.

use crate::token::{failure_error, scan_error_text, ParserFailure, ScanError};
use crate::unify::{type_error_text, TypeError};
use vstd::prelude::*;
use vstd::string::*;

verus! {

/// An error of the front end.
#[derive(Debug)]
pub enum Error {
    Parse(ScanError),
    Type(TypeError),
}

impl From<TypeError> for Error {
    fn from(error: TypeError) -> (made: Error) {
        Error::Type(error)
    }
}

impl vstd::std_specs::convert::FromSpecImpl<TypeError> for Error {
    open spec fn obeys_from_spec() -> bool {
        true
    }

    open spec fn from_spec(error: TypeError) -> Error {
        Error::Type(error)
    }
}

impl From<ParserFailure> for Error {
    fn from(failure: ParserFailure) -> (made: Error) {
        Error::Parse(ScanError::from(failure))
    }
}

impl vstd::std_specs::convert::FromSpecImpl<ParserFailure> for Error {
    open spec fn obeys_from_spec() -> bool {
        true
    }

    open spec fn from_spec(failure: ParserFailure) -> Error {
        Error::Parse(failure_error(failure))
    }
}

/// The first `n` of `names`, with a comma between each two.
pub open spec fn listed(names: Seq<String>, n: nat) -> Seq<char>
    decreases n,
{
    if n == 0 || n > names.len() {
        Seq::empty()
    } else if n == 1 {
        names[0]@
    } else {
        listed(names, (n - 1) as nat) + ","@ + names[n - 1]@
    }
}

/// What a report of an error says, and where in the source it points.
#[derive(Debug)]
pub struct Diagnosis {
    /// The message, where the error has one of its own.
    pub message: Option<String>,
    /// The offset that the report points at, where the error names one.
    pub label: Option<usize>,
}

/// The names of `names`, with a comma between each two.
pub fn list_names(names: &Vec<String>) -> (text: String)
    ensures
        text@ == listed(names@, names@.len()),
{
    let mut text: String = String::new();
    let mut n: usize = 0;
    while n < names.len()
        invariant
            n <= names@.len(),
            text@ == listed(names@, n as nat),
        decreases names@.len() - n,
    {
        if n > 0 {
            text.append(",");
        }
        text.append(names[n].as_str());
        n += 1;
        proof {
            if n == 1 {
                assert(text@ =~= names@[0]@);
            }
        }
    }
    text
}

/// The message of `error`: whether it is an error of parsing or of typing,
/// and what it is called.
pub open spec fn error_text(error: Error) -> Seq<char> {
    match error {
        Error::Parse(inner) => "Parse error: "@ + scan_error_text(inner),
        Error::Type(inner) => "Type error: "@ + type_error_text(inner@),
    }
}

impl Error {
    /// The message of the error.
    pub fn describe(&self) -> (text: String)
        ensures
            text@ == error_text(*self),
    {
        match self {
            Error::Parse(inner) => {
                let mut text: String = String::from_str("Parse error: ");
                text.append(inner.describe().as_str());
                text
            },
            Error::Type(inner) => {
                let mut text: String = String::from_str("Type error: ");
                text.append(inner.describe().as_str());
                text
            },
        }
    }

    /// What a report of the error says. Where no pattern matches, it names
    /// the offset; where the parser met a token that it did not expect, it
    /// lists what the parser expected.
    pub fn diagnosis(&self) -> (report: Diagnosis)
        ensures
            match *self {
                Error::Parse(ScanError::BadSymbol(at)) => {
                    &&& report.label == Some(at)
                    &&& report.message matches Some(text)
                    &&& text@ == "Invalid symbol."@
                },
                Error::Parse(ScanError::UnrecognizedToken(_, expected)) => {
                    &&& report.label.is_none()
                    &&& report.message matches Some(text)
                    &&& text@ == "Unrecognized token. Expecting: "@ + listed(
                        expected@,
                        expected@.len(),
                    )
                },
                _ => report.label.is_none() && report.message.is_none(),
            },
    {
        match self {
            Error::Parse(ScanError::BadSymbol(at)) => Diagnosis {
                message: Some(String::from_str("Invalid symbol.")),
                label: Some(*at),
            },
            Error::Parse(ScanError::UnrecognizedToken(_, expected)) => {
                let mut text: String = String::from_str("Unrecognized token. Expecting: ");
                let names: String = list_names(expected);
                text.append(names.as_str());
                Diagnosis { message: Some(text), label: None }
            },
            _ => Diagnosis { message: None, label: None },
        }
    }
}

} // verus!
