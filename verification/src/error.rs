//! The errors of this library.

use vstd::prelude::*;

verus! {

/// `std::io::Error`, carried through unopened.
#[verifier::external_type_specification]
#[verifier::external_body]
pub struct ExIoError(std::io::Error);

/// `std::string::FromUtf8Error`, carried through unopened.
#[verifier::external_type_specification]
#[verifier::external_body]
pub struct ExFromUtf8Error(std::string::FromUtf8Error);

/// `std::num::ParseFloatError`, carried through unopened.
#[verifier::external_type_specification]
#[verifier::external_body]
pub struct ExParseFloatError(std::num::ParseFloatError);

/// `std::num::ParseIntError`, carried through unopened.
#[verifier::external_type_specification]
#[verifier::external_body]
pub struct ExParseIntError(std::num::ParseIntError);

/// What a parse error says: a message and the place in the text, both
/// counted from 1.
pub ghost struct ParseErrorView {
    pub msg: Seq<char>,
    pub line: nat,
    pub col: nat,
}

/// Where and why the text could not be read.
#[derive(Debug)]
pub struct ParseError {
    msg: String,
    line: usize,
    col: usize,
}

impl View for ParseError {
    type V = ParseErrorView;

    closed spec fn view(&self) -> ParseErrorView {
        ParseErrorView { msg: self.msg@, line: self.line as nat, col: self.col as nat }
    }
}

impl ParseError {
    /// The message.
    pub fn message(&self) -> (m: &String)
        ensures
            m@ == self@.msg,
    {
        &self.msg
    }

    /// The line of the fault, counted from 1.
    pub fn line(&self) -> (n: usize)
        ensures
            n == self@.line,
    {
        self.line
    }

    /// The column of the fault, counted from 1.
    pub fn col(&self) -> (n: usize)
        ensures
            n == self@.col,
    {
        self.col
    }
}

/// Everything that can go wrong in this library.
#[derive(Debug)]
pub enum SexpError {
    /// The text is not a symbolic expression.
    Parse(ParseError),
    /// Any other fault, with its message.
    Other(String),
    /// A fault while reading or writing.
    Io(std::io::Error),
    /// Bytes that are not UTF-8.
    FromUtf8(std::string::FromUtf8Error),
    /// A token that is not a floating-point number.
    Float(std::num::ParseFloatError),
    /// A token that is not an integer.
    Int(std::num::ParseIntError),
}

impl From<std::io::Error> for SexpError {
    fn from(e: std::io::Error) -> (r: SexpError) {
        SexpError::Io(e)
    }
}

impl vstd::std_specs::convert::FromSpecImpl<std::io::Error> for SexpError {
    open spec fn obeys_from_spec() -> bool {
        true
    }

    open spec fn from_spec(e: std::io::Error) -> SexpError {
        SexpError::Io(e)
    }
}

impl From<String> for SexpError {
    fn from(e: String) -> (r: SexpError) {
        SexpError::Other(e)
    }
}

impl vstd::std_specs::convert::FromSpecImpl<String> for SexpError {
    open spec fn obeys_from_spec() -> bool {
        true
    }

    open spec fn from_spec(e: String) -> SexpError {
        SexpError::Other(e)
    }
}

impl<'a> From<&'a str> for SexpError {
    fn from(e: &'a str) -> (r: SexpError)
        ensures
            r matches SexpError::Other(m) && m@ == e@,
    {
        SexpError::Other(String::from_str(e))
    }
}

impl<'a> vstd::std_specs::convert::FromSpecImpl<&'a str> for SexpError {
    open spec fn obeys_from_spec() -> bool {
        false
    }

    open spec fn from_spec(e: &'a str) -> SexpError {
        vstd::pervasive::arbitrary()
    }
}

impl From<std::string::FromUtf8Error> for SexpError {
    fn from(e: std::string::FromUtf8Error) -> (r: SexpError) {
        SexpError::FromUtf8(e)
    }
}

impl vstd::std_specs::convert::FromSpecImpl<std::string::FromUtf8Error> for SexpError {
    open spec fn obeys_from_spec() -> bool {
        true
    }

    open spec fn from_spec(e: std::string::FromUtf8Error) -> SexpError {
        SexpError::FromUtf8(e)
    }
}

impl From<std::num::ParseFloatError> for SexpError {
    fn from(e: std::num::ParseFloatError) -> (r: SexpError) {
        SexpError::Float(e)
    }
}

impl vstd::std_specs::convert::FromSpecImpl<std::num::ParseFloatError> for SexpError {
    open spec fn obeys_from_spec() -> bool {
        true
    }

    open spec fn from_spec(e: std::num::ParseFloatError) -> SexpError {
        SexpError::Float(e)
    }
}

impl From<std::num::ParseIntError> for SexpError {
    fn from(e: std::num::ParseIntError) -> (r: SexpError) {
        SexpError::Int(e)
    }
}

impl vstd::std_specs::convert::FromSpecImpl<std::num::ParseIntError> for SexpError {
    open spec fn obeys_from_spec() -> bool {
        true
    }

    open spec fn from_spec(e: std::num::ParseIntError) -> SexpError {
        SexpError::Int(e)
    }
}

/// The failure of a parser at the given line and column, with a message.
pub fn parse_error<T>(line: usize, col: usize, msg: String) -> (r: Result<T, SexpError>)
    ensures
        r matches Err(SexpError::Parse(pe)) && pe@ == (ParseErrorView {
            msg: msg@,
            line: line as nat,
            col: col as nat,
        }),
{
    let pe = ParseError { msg: msg, line: line, col: col };
    Err(SexpError::Parse(pe))
}

} // verus!
