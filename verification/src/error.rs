//! The error type of the Yamcs telecommand layer.
use vstd::prelude::*;
use crate::text::concat;

verus! {

broadcast use vstd::string::group_string_axioms;

/// Errors of the Yamcs telecommand layer. Transport, I/O and JSON decoding
/// failures carry the text of the underlying error.
#[derive(Debug)]
pub enum YamcsTcError {
    Http(String),
    Io(String),
    Json(String),
    Config(String),
    Validation(String),
    Command(String),
    Verification(String),
}

/// The text that the error displays.
pub open spec fn tc_error_text(e: YamcsTcError) -> Seq<char> {
    match e {
        YamcsTcError::Http(m) => "http error: "@ + m@,
        YamcsTcError::Io(m) => "io error: "@ + m@,
        YamcsTcError::Json(m) => "json error: "@ + m@,
        YamcsTcError::Config(m) => "configuration error: "@ + m@,
        YamcsTcError::Validation(m) => "validation error: "@ + m@,
        YamcsTcError::Command(m) => "command error: "@ + m@,
        YamcsTcError::Verification(m) => "telemetry verification failed: "@ + m@,
    }
}

impl YamcsTcError {
    /// The error's message, as `to_string()` gives it.
    pub fn message(&self) -> (r: String)
        ensures
            r@ == tc_error_text(*self),
    {
        match self {
            YamcsTcError::Http(m) => concat("http error: ", m.as_str()),
            YamcsTcError::Io(m) => concat("io error: ", m.as_str()),
            YamcsTcError::Json(m) => concat("json error: ", m.as_str()),
            YamcsTcError::Config(m) => concat("configuration error: ", m.as_str()),
            YamcsTcError::Validation(m) => concat("validation error: ", m.as_str()),
            YamcsTcError::Command(m) => concat("command error: ", m.as_str()),
            YamcsTcError::Verification(m) => concat("telemetry verification failed: ", m.as_str()),
        }
    }
}

} // verus!
