//! Error types shared by the library's modules.

use vstd::prelude::*;
use regex::Error as RegexError;
use std::io::Error as IoError;

verus! {

/// Declares `regex::Error` so that it can be carried in an error variant.
#[verifier::external_type_specification]
#[verifier::external_body]
pub struct ExRegexError(RegexError);

/// Declares `std::io::Error` so that it can be carried in an error variant.
#[verifier::external_type_specification]
#[verifier::external_body]
pub struct ExIoError(IoError);

/// Declares `std::num::ParseIntError` so that it can be carried in an error
/// variant.
#[verifier::external_type_specification]
#[verifier::external_body]
pub struct ExParseIntError(std::num::ParseIntError);

/// Declares `std::num::ParseFloatError` so that it can be carried in an
/// error variant.
#[verifier::external_type_specification]
#[verifier::external_body]
pub struct ExParseFloatError(std::num::ParseFloatError);

/// Declares `std::string::FromUtf8Error` so that it can be carried in an
/// error variant.
#[verifier::external_type_specification]
#[verifier::external_body]
pub struct ExFromUtf8Error(std::string::FromUtf8Error);

/// Declares `std::path::StripPrefixError` so that it can be carried in an
/// error variant.
#[verifier::external_type_specification]
#[verifier::external_body]
pub struct ExStripPrefixError(std::path::StripPrefixError);

/// Errors of time and sleep-duration handling.
#[derive(Debug)]
pub enum TimeError {
    /// The time string does not follow the accepted format.
    InvalidFormat(String),
    /// The time value exceeds the supported range.
    OutOfRange,
    /// A negative time duration was given.
    NegativeDuration,
}

impl TimeError {
    /// The message that `to_string` renders for this error.
    pub open spec fn spec_message(&self) -> Seq<char> {
        match self {
            TimeError::InvalidFormat(s) => "Invalid time format: "@ + s@,
            TimeError::OutOfRange => "Time value out of range"@,
            TimeError::NegativeDuration => "Negative time duration specified"@,
        }
    }

    /// Renders the error as a human-readable message.
    pub fn to_string(&self) -> (r: String)
        ensures
            r@ == self.spec_message(),
    {
        match self {
            TimeError::InvalidFormat(s) => {
                let mut m = "Invalid time format: ".to_owned();
                m.append(s.as_str());
                m
            },
            TimeError::OutOfRange => "Time value out of range".to_owned(),
            TimeError::NegativeDuration => "Negative time duration specified".to_owned(),
        }
    }
}

/// Main error type of the library.
#[derive(Debug)]
pub enum SysxError {
    /// Invalid syntax encountered during parsing or decoding.
    InvalidSyntax(String),
    /// Nested generics are not supported in type strings.
    NestedGenerics(String),
    /// An environment variable was not found.
    EnvVarNotFound(String),
    /// A value did not match what was expected of it.
    ValidationError {
        /// Expected shape of the value.
        expected: &'static str,
        /// What was actually seen.
        actual: String,
        /// Additional context.
        context: Option<String>,
    },
    /// Unsupported construct detected in a type string.
    UnsupportedConstruct(String),
    /// A regular expression failed to compile.
    RegexFailure(regex::Error),
    /// An input/output error.
    IoError(std::io::Error),
    /// A digit group failed integer parsing.
    ParseIntError(std::num::ParseIntError),
    /// A number failed floating-point parsing.
    ParseFloatError(std::num::ParseFloatError),
    /// Bytes failed UTF-8 conversion.
    FromUtf8Error(std::string::FromUtf8Error),
    /// A path prefix could not be stripped.
    StripPrefixError(std::path::StripPrefixError),
    /// An error of random-value generation.
    RandomError(String),
    /// An error of a time-based operation.
    TimeError(TimeError),
    /// A mutex was poisoned.
    MutexPoison(String),
}

impl SysxError {
    /// The message that `to_string` renders for this error.
    pub open spec fn spec_message(&self) -> Seq<char> {
        match self {
            SysxError::InvalidSyntax(s) => "Invalid type syntax: "@ + s@,
            SysxError::NestedGenerics(s) => "Nested generics not supported in type: "@ + s@,
            SysxError::EnvVarNotFound(s) => "Environment variable not found: "@ + s@,
            SysxError::ValidationError { expected, actual, .. } => (
                "Type validation error: expected "@ + expected@ + ", found "@ + actual@
            ),
            SysxError::UnsupportedConstruct(s) => "Unsupported type construct: "@ + s@,
            SysxError::RegexFailure(_) => "Regex compilation failed"@,
            SysxError::IoError(_) => "IO error"@,
            SysxError::ParseIntError(_) => "Integer parsing failed"@,
            SysxError::ParseFloatError(_) => "Float parsing failed"@,
            SysxError::FromUtf8Error(_) => "Invalid UTF-8"@,
            SysxError::StripPrefixError(_) => "Path strip prefix error"@,
            SysxError::RandomError(s) => "Random generation error: "@ + s@,
            SysxError::TimeError(e) => "Time error: "@ + e.spec_message(),
            SysxError::MutexPoison(s) => "Mutex poisoned: "@ + s@,
        }
    }

    /// Renders the error as a human-readable message.
    pub fn to_string(&self) -> (r: String)
        ensures
            r@ == self.spec_message(),
    {
        match self {
            SysxError::InvalidSyntax(s) => {
                let mut m = "Invalid type syntax: ".to_owned();
                m.append(s.as_str());
                m
            },
            SysxError::NestedGenerics(s) => {
                let mut m = "Nested generics not supported in type: ".to_owned();
                m.append(s.as_str());
                m
            },
            SysxError::EnvVarNotFound(s) => {
                let mut m = "Environment variable not found: ".to_owned();
                m.append(s.as_str());
                m
            },
            SysxError::ValidationError { expected, actual, .. } => {
                let mut m = "Type validation error: expected ".to_owned();
                m.append(expected);
                m.append(", found ");
                m.append(actual.as_str());
                m
            },
            SysxError::UnsupportedConstruct(s) => {
                let mut m = "Unsupported type construct: ".to_owned();
                m.append(s.as_str());
                m
            },
            SysxError::RegexFailure(_) => "Regex compilation failed".to_owned(),
            SysxError::IoError(_) => "IO error".to_owned(),
            SysxError::ParseIntError(_) => "Integer parsing failed".to_owned(),
            SysxError::ParseFloatError(_) => "Float parsing failed".to_owned(),
            SysxError::FromUtf8Error(_) => "Invalid UTF-8".to_owned(),
            SysxError::StripPrefixError(_) => "Path strip prefix error".to_owned(),
            SysxError::RandomError(s) => {
                let mut m = "Random generation error: ".to_owned();
                m.append(s.as_str());
                m
            },
            SysxError::TimeError(e) => {
                let mut m = "Time error: ".to_owned();
                let t = e.to_string();
                m.append(t.as_str());
                m
            },
            SysxError::MutexPoison(s) => {
                let mut m = "Mutex poisoned: ".to_owned();
                m.append(s.as_str());
                m
            },
        }
    }
}

impl From<regex::Error> for SysxError {
    fn from(e: regex::Error) -> Self {
        SysxError::RegexFailure(e)
    }
}

impl vstd::std_specs::convert::FromSpecImpl<regex::Error> for SysxError {
    open spec fn obeys_from_spec() -> bool {
        true
    }

    open spec fn from_spec(e: regex::Error) -> Self {
        SysxError::RegexFailure(e)
    }
}

impl From<std::io::Error> for SysxError {
    fn from(e: std::io::Error) -> Self {
        SysxError::IoError(e)
    }
}

impl vstd::std_specs::convert::FromSpecImpl<std::io::Error> for SysxError {
    open spec fn obeys_from_spec() -> bool {
        true
    }

    open spec fn from_spec(e: std::io::Error) -> Self {
        SysxError::IoError(e)
    }
}

impl From<std::num::ParseIntError> for SysxError {
    fn from(e: std::num::ParseIntError) -> Self {
        SysxError::ParseIntError(e)
    }
}

impl vstd::std_specs::convert::FromSpecImpl<std::num::ParseIntError> for SysxError {
    open spec fn obeys_from_spec() -> bool {
        true
    }

    open spec fn from_spec(e: std::num::ParseIntError) -> Self {
        SysxError::ParseIntError(e)
    }
}

impl From<std::num::ParseFloatError> for SysxError {
    fn from(e: std::num::ParseFloatError) -> Self {
        SysxError::ParseFloatError(e)
    }
}

impl vstd::std_specs::convert::FromSpecImpl<std::num::ParseFloatError> for SysxError {
    open spec fn obeys_from_spec() -> bool {
        true
    }

    open spec fn from_spec(e: std::num::ParseFloatError) -> Self {
        SysxError::ParseFloatError(e)
    }
}

impl From<std::string::FromUtf8Error> for SysxError {
    fn from(e: std::string::FromUtf8Error) -> Self {
        SysxError::FromUtf8Error(e)
    }
}

impl vstd::std_specs::convert::FromSpecImpl<std::string::FromUtf8Error> for SysxError {
    open spec fn obeys_from_spec() -> bool {
        true
    }

    open spec fn from_spec(e: std::string::FromUtf8Error) -> Self {
        SysxError::FromUtf8Error(e)
    }
}

impl From<std::path::StripPrefixError> for SysxError {
    fn from(e: std::path::StripPrefixError) -> Self {
        SysxError::StripPrefixError(e)
    }
}

impl vstd::std_specs::convert::FromSpecImpl<std::path::StripPrefixError> for SysxError {
    open spec fn obeys_from_spec() -> bool {
        true
    }

    open spec fn from_spec(e: std::path::StripPrefixError) -> Self {
        SysxError::StripPrefixError(e)
    }
}

} // verus!
