use vstd::prelude::*;

verus! {

/// Why a grid reference could not be parsed or built.
#[derive(Debug, PartialEq, Eq)]
pub enum Error {
    /// Malformed text: a bad square letter, a wrong digit count or content,
    /// an empty string, or an unsupported super-square.
    ParseError(String),
    /// A digit count with no precision. No function of the library returns
    /// it: every digit count that passes the length check has a precision.
    InvalidPrecision(String),
    /// A coordinate outside the domain of one super-square.
    OutOfBounds,
}

/// What an [`Error`] says, as mathematical values.
pub enum Fault {
    Parse(Seq<char>),
    Precision(Seq<char>),
    OutOfBounds,
}

impl View for Error {
    type V = Fault;

    open spec fn view(&self) -> Fault {
        match self {
            Error::ParseError(m) => Fault::Parse(m@),
            Error::InvalidPrecision(m) => Fault::Precision(m@),
            Error::OutOfBounds => Fault::OutOfBounds,
        }
    }
}

} // verus!

verus! {

/// A result with its error replaced by what the error says.
pub open spec fn outcome<T>(r: Result<T, Error>) -> Result<T, Fault> {
    match r {
        Ok(v) => Ok(v),
        Err(e) => Err(e@),
    }
}

} // verus!
