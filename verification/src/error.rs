//! The closed error taxonomy shared by the parsers and the discovery engine.
//!
//! Setup-tier failures abort a search; stream-tier failures describe one bad
//! datagram and never terminate the response sequence. Each error renders to
//! a fixed descriptive string through its `message` method.

use crate::text::dec_chars;
use vstd::prelude::*;
use vstd::string::StringExecFns;

verus! {

/// Error returned when parsing a URN fails. The URN grammar reports no
/// sub-classification: every violation yields this one value.
#[derive(Debug, Clone, Copy, PartialEq, Eq, Structural)]
pub struct ParseURNError;

/// Error returned when parsing a search target fails.
#[derive(Debug, Clone, Copy, PartialEq, Eq, Structural)]
pub enum ParseSearchTargetError {
    /// The target began like a URN, and the URN failed to parse.
    URN(ParseURNError),
    /// The target matched no recognized search-target shape.
    ST,
}

/// The error taxonomy.
#[derive(Debug, Clone, PartialEq, Eq)]
pub enum Error {
    /// Receiving a datagram failed; carries the reported failure text.
    IO(String),
    /// A datagram was not valid UTF-8.
    Utf8,
    /// A required header was missing from a response.
    MissingHeader(String),
    /// A header was present but its value could not be interpreted.
    InvalidHeader(String),
    /// The `ST` header of a response failed to parse as a search target.
    ParseSearchTargetError(ParseSearchTargetError),
    /// The response was not a well-formed HTTP status message; carries the
    /// reason.
    InvalidHTTP(String),
    /// The response carried a non-200 HTTP status code.
    HTTPError(u32),
}

/// Mathematical view of an [`Error`]: its strings as character sequences.
pub enum ErrorV {
    IO(Seq<char>),
    Utf8,
    MissingHeader(Seq<char>),
    InvalidHeader(Seq<char>),
    ParseSearchTargetError(ParseSearchTargetError),
    InvalidHTTP(Seq<char>),
    HTTPError(u32),
}

impl View for Error {
    type V = ErrorV;

    open spec fn view(&self) -> ErrorV {
        match self {
            Error::IO(m) => ErrorV::IO(m@),
            Error::Utf8 => ErrorV::Utf8,
            Error::MissingHeader(h) => ErrorV::MissingHeader(h@),
            Error::InvalidHeader(h) => ErrorV::InvalidHeader(h@),
            Error::ParseSearchTargetError(e) => ErrorV::ParseSearchTargetError(*e),
            Error::InvalidHTTP(r) => ErrorV::InvalidHTTP(r@),
            Error::HTTPError(c) => ErrorV::HTTPError(*c),
        }
    }
}

/// The descriptive string of a URN parse error.
pub open spec fn spec_urn_error_message() -> Seq<char> {
    "failed to parse URN"@
}

/// The descriptive string of a search-target parse error.
pub open spec fn spec_st_error_message(e: ParseSearchTargetError) -> Seq<char> {
    match e {
        ParseSearchTargetError::URN(_) => "invalid urn supplied"@,
        ParseSearchTargetError::ST => "invalid search target format"@,
    }
}

/// The descriptive string of each error variant.
pub open spec fn spec_error_message(e: ErrorV) -> Seq<char> {
    match e {
        ErrorV::IO(m) => "io error: "@ + m,
        ErrorV::Utf8 => "utf8 decoding error"@,
        ErrorV::MissingHeader(h) => "missing header: "@ + h,
        ErrorV::InvalidHeader(h) => "invalid header: "@ + h,
        ErrorV::ParseSearchTargetError(e) => spec_st_error_message(e),
        ErrorV::InvalidHTTP(r) => "failed to parse http response: "@ + r,
        ErrorV::HTTPError(c) => "control point responded with non-zero exit code: "@ + dec_chars(
            c as nat,
        ),
    }
}

impl ParseURNError {
    /// Human-readable description of the error.
    pub fn message(&self) -> (r: String)
        ensures
            r@ == spec_urn_error_message(),
    {
        String::from_str("failed to parse URN")
    }
}

impl ParseSearchTargetError {
    /// Human-readable description of the error.
    pub fn message(&self) -> (r: String)
        ensures
            r@ == spec_st_error_message(*self),
    {
        match self {
            ParseSearchTargetError::URN(_) => String::from_str("invalid urn supplied"),
            ParseSearchTargetError::ST => String::from_str("invalid search target format"),
        }
    }
}

impl Error {
    /// Human-readable description of the error.
    pub fn message(&self) -> (r: String)
        ensures
            r@ == spec_error_message(self@),
    {
        match self {
            Error::IO(m) => String::from_str("io error: ").concat(m.as_str()),
            Error::Utf8 => String::from_str("utf8 decoding error"),
            Error::MissingHeader(h) => String::from_str("missing header: ").concat(h.as_str()),
            Error::InvalidHeader(h) => String::from_str("invalid header: ").concat(h.as_str()),
            Error::ParseSearchTargetError(e) => e.message(),
            Error::InvalidHTTP(r) => String::from_str("failed to parse http response: ").concat(
                r.as_str(),
            ),
            Error::HTTPError(c) => String::from_str(
                "control point responded with non-zero exit code: ",
            ).concat(crate::text::u64_to_dec(*c as u64).as_str()),
        }
    }
}

impl From<ParseSearchTargetError> for Error {
    /// Wraps a search-target parse failure as a stream-tier error.
    fn from(e: ParseSearchTargetError) -> (r: Error) {
        Error::ParseSearchTargetError(e)
    }
}

impl vstd::std_specs::convert::FromSpecImpl<ParseSearchTargetError> for Error {
    open spec fn obeys_from_spec() -> bool {
        true
    }

    open spec fn from_spec(e: ParseSearchTargetError) -> Error {
        Error::ParseSearchTargetError(e)
    }
}

} // verus!
