use vstd::prelude::*;

verus! {

/// Every way in which building a report can fail.
#[derive(Debug, Clone, Copy, PartialEq, Eq, Structural)]
pub enum ReportError {
    /// The API token is not configured.
    ConfigError,
    /// A date or month given by the user does not have the expected shape.
    InvalidDateFormat,
    /// A local civil time has no single instant (a gap or an overlap of the
    /// time zone), or lies outside the representable range.
    TimeConversionError,
    /// The remote service could not be reached or answered with an error status.
    RemoteRequestError,
    /// The remote service answered with a body of an unexpected shape.
    DeserializationError,
    /// A timestamp in an otherwise valid answer could not be read.
    MalformedTimestamp,
    /// A total of seconds does not fit in 64 bits.
    DurationOverflow,
    /// Writing the output failed.
    OutputError,
}

impl ReportError {
    /// A short human-readable description of the error.
    pub fn message(&self) -> (r: &'static str) {
        match self {
            ReportError::ConfigError => "the API token is not set",
            ReportError::InvalidDateFormat => "the date is not in the expected format",
            ReportError::TimeConversionError => "the local time cannot be converted to an instant",
            ReportError::RemoteRequestError => "the request to the time-tracking service failed",
            ReportError::DeserializationError => "the response has an unexpected shape",
            ReportError::MalformedTimestamp => "a timestamp in the response is malformed",
            ReportError::DurationOverflow => "a duration total overflows",
            ReportError::OutputError => "writing the output failed",
        }
    }
}

} // verus!
