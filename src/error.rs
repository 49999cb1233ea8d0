use vstd::prelude::*;

verus! {

/// Why a record could not be produced.
#[derive(Clone, Copy, Debug, PartialEq, Eq, Structural)]
pub enum ParseError {
    /// The delimiter argument is not exactly one byte long.
    InvalidDelimiter,
    /// A quote byte stands inside a field that does not start with a quote.
    MalformedRecord,
}

impl ParseError {
    /// The user-visible text of the error.
    pub fn message(&self) -> (r: &'static str)
        ensures
            r@ == error_message(*self),
    {
        match self {
            ParseError::InvalidDelimiter => "delimiter must be a single character",
            ParseError::MalformedRecord =>
                "invalid csv record: A CSV column has a quote but the entire column value is not quoted",
        }
    }
}

pub open spec fn error_message(e: ParseError) -> Seq<char> {
    match e {
        ParseError::InvalidDelimiter => "delimiter must be a single character"@,
        ParseError::MalformedRecord =>
            "invalid csv record: A CSV column has a quote but the entire column value is not quoted"@,
    }
}

} // verus!
