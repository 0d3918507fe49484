//! The errors that loading, patching and running a scenario can end in.

use vstd::prelude::*;
use vstd::string::StringExecFns;

verus! {

/// Why a scenario was refused or a run was given up.
#[derive(Debug, PartialEq, Eq)]
pub enum Error {
    /// The scenario text is not TOML; the payload is the parser's message.
    TOMLParseError(String),
    /// A parameter of the scenario is missing or out of range.
    ParameterError(&'static str),
    /// The command line or a file named on it could not be used.
    CliError(String),
    /// A patch names no parameter or carries no value.
    PatchParameterError(String),
    /// Anything else.
    UnknownError(&'static str),
}

/// An `Error` with its texts as sequences of characters.
pub enum ErrorView {
    TOMLParseError(Seq<char>),
    ParameterError(Seq<char>),
    CliError(Seq<char>),
    PatchParameterError(Seq<char>),
    UnknownError(Seq<char>),
}

impl View for Error {
    type V = ErrorView;

    open spec fn view(&self) -> ErrorView {
        match self {
            Error::TOMLParseError(m) => ErrorView::TOMLParseError(m@),
            Error::ParameterError(m) => ErrorView::ParameterError(m@),
            Error::CliError(m) => ErrorView::CliError(m@),
            Error::PatchParameterError(m) => ErrorView::PatchParameterError(m@),
            Error::UnknownError(m) => ErrorView::UnknownError(m@),
        }
    }
}

/// The error kept for a value that is no number.
pub open spec fn not_a_number() -> ErrorView {
    ErrorView::ParameterError("Parameter cannot parse as number"@)
}

/// The error kept for a patch that names no known parameter.
pub open spec fn unknown_parameter() -> ErrorView {
    ErrorView::PatchParameterError("parameter not correct"@)
}

/// How `e` reads to a person.
pub open spec fn message_text(e: ErrorView) -> Seq<char> {
    match e {
        ErrorView::TOMLParseError(m) => "The config should be TOML: "@ + m,
        ErrorView::ParameterError(m) => "Unexpected parameter: "@ + m,
        ErrorView::CliError(m) => "Command line args or options are not correct: "@ + m,
        ErrorView::PatchParameterError(m) => "Patch Parameter `"@ + m + "` is not valid"@,
        ErrorView::UnknownError(m) => "Unexpected: "@ + m,
    }
}

impl From<&'static str> for Error {
    /// An error of no other kind, with the text `s`.
    fn from(s: &'static str) -> (e: Error) {
        Error::UnknownError(s)
    }
}

impl vstd::std_specs::convert::FromSpecImpl<&'static str> for Error {
    open spec fn obeys_from_spec() -> bool {
        true
    }

    open spec fn from_spec(s: &'static str) -> Error {
        Error::UnknownError(s)
    }
}

impl Error {
    /// The error for a value that is no number.
    pub fn not_a_number() -> (e: Error)
        ensures
            e@ == not_a_number(),
    {
        Error::ParameterError("Parameter cannot parse as number")
    }

    /// The error for a patch that names no known parameter.
    pub fn unknown_parameter() -> (e: Error)
        ensures
            e@ == unknown_parameter(),
    {
        Error::PatchParameterError(String::from_str("parameter not correct"))
    }

    /// A patch error with the text `text`.
    pub fn patch(text: &str) -> (e: Error)
        ensures
            e@ == ErrorView::PatchParameterError(text@),
    {
        Error::PatchParameterError(String::from_str(text))
    }

    /// The error as a line of text.
    pub fn message(&self) -> (r: String)
        ensures
            r@ == message_text(self@),
    {
        match self {
            Error::TOMLParseError(m) => {
                let mut r: String = String::from_str("The config should be TOML: ");
                r.append(m.as_str());
                r
            },
            Error::ParameterError(m) => {
                let mut r: String = String::from_str("Unexpected parameter: ");
                r.append(m);
                r
            },
            Error::CliError(m) => {
                let mut r: String = String::from_str(
                    "Command line args or options are not correct: ",
                );
                r.append(m.as_str());
                r
            },
            Error::PatchParameterError(m) => {
                let mut r: String = String::from_str("Patch Parameter `");
                r.append(m.as_str());
                r.append("` is not valid");
                r
            },
            Error::UnknownError(m) => {
                let mut r: String = String::from_str("Unexpected: ");
                r.append(m);
                r
            },
        }
    }
}

} // verus!
