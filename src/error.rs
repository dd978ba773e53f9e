//! Errors reported by the library.
use vstd::prelude::*;

verus! {

/// What went wrong, with a message for people.
#[derive(Clone, Debug, PartialEq, Eq)]
pub enum Error {
    /// The random source failed.
    Qrng(String),
    /// A latitude or longitude is out of range.
    InvalidCoordinates(String),
    /// The radius is not positive, or the circle would cover the whole sphere.
    InvalidRadius(String),
    /// The generation mode cannot be used with these parameters.
    UnsupportedMode(String),
    /// A configuration value is unusable.
    Config(String),
    /// The server failed.
    Server(String),
    /// A place could not be geocoded.
    Geocoding(String),
    /// A location could not be determined.
    Geo(String),
}

impl Error {
    /// Stable machine-readable code of the error's kind.
    pub fn error_code(&self) -> (code: &'static str)
        ensures
            code@ == match self {
                Error::Qrng(_) => "QRNG_ERROR"@,
                Error::InvalidCoordinates(_) => "INVALID_COORDINATES"@,
                Error::InvalidRadius(_) => "INVALID_RADIUS"@,
                Error::UnsupportedMode(_) => "UNSUPPORTED_MODE"@,
                Error::Config(_) => "CONFIG_ERROR"@,
                Error::Server(_) => "SERVER_ERROR"@,
                Error::Geocoding(_) => "GEOCODING_ERROR"@,
                Error::Geo(_) => "GEO_ERROR"@,
            },
    {
        match self {
            Error::Qrng(_) => "QRNG_ERROR",
            Error::InvalidCoordinates(_) => "INVALID_COORDINATES",
            Error::InvalidRadius(_) => "INVALID_RADIUS",
            Error::UnsupportedMode(_) => "UNSUPPORTED_MODE",
            Error::Config(_) => "CONFIG_ERROR",
            Error::Server(_) => "SERVER_ERROR",
            Error::Geocoding(_) => "GEOCODING_ERROR",
            Error::Geo(_) => "GEO_ERROR",
        }
    }
}

} // verus!
