//! Status codes that the transport core produces or reacts to.

use vstd::prelude::*;

verus! {

/// An OPC-UA status code. The codes that this crate acts on are named; any
/// other code travels as `Other` with its numeric value.
#[derive(Debug, Clone, Copy, PartialEq, Eq, Structural)]
pub enum StatusCode {
    Good,
    BadUnexpectedError,
    BadCommunicationError,
    BadEncodingLimitsExceeded,
    BadTimeout,
    BadSessionIdInvalid,
    BadSessionClosed,
    BadTooManyPublishRequests,
    BadNoSubscription,
    BadConnectionClosed,
    BadInvalidState,
    BadRequestTooLarge,
    Other(u32),
}

/// The numeric value of a status code on the wire.
pub open spec fn spec_code(s: StatusCode) -> u32 {
    match s {
        StatusCode::Good => 0x0000_0000,
        StatusCode::BadUnexpectedError => 0x8001_0000,
        StatusCode::BadCommunicationError => 0x8005_0000,
        StatusCode::BadEncodingLimitsExceeded => 0x8008_0000,
        StatusCode::BadTimeout => 0x800A_0000,
        StatusCode::BadSessionIdInvalid => 0x8025_0000,
        StatusCode::BadSessionClosed => 0x8026_0000,
        StatusCode::BadTooManyPublishRequests => 0x8078_0000,
        StatusCode::BadNoSubscription => 0x8079_0000,
        StatusCode::BadConnectionClosed => 0x80AE_0000,
        StatusCode::BadInvalidState => 0x80AF_0000,
        StatusCode::BadRequestTooLarge => 0x80B8_0000,
        StatusCode::Other(c) => c,
    }
}

/// A code is good when its two severity bits (the top two) are clear.
pub open spec fn spec_is_good(s: StatusCode) -> bool {
    spec_code(s) < 0x4000_0000
}

impl StatusCode {
    /// The numeric value of the code.
    pub fn code(&self) -> (r: u32)
        ensures
            r == spec_code(*self),
    {
        match self {
            StatusCode::Good => 0x0000_0000,
            StatusCode::BadUnexpectedError => 0x8001_0000,
            StatusCode::BadCommunicationError => 0x8005_0000,
            StatusCode::BadEncodingLimitsExceeded => 0x8008_0000,
            StatusCode::BadTimeout => 0x800A_0000,
            StatusCode::BadSessionIdInvalid => 0x8025_0000,
            StatusCode::BadSessionClosed => 0x8026_0000,
            StatusCode::BadTooManyPublishRequests => 0x8078_0000,
            StatusCode::BadNoSubscription => 0x8079_0000,
            StatusCode::BadConnectionClosed => 0x80AE_0000,
            StatusCode::BadInvalidState => 0x80AF_0000,
            StatusCode::BadRequestTooLarge => 0x80B8_0000,
            StatusCode::Other(c) => *c,
        }
    }

    /// Whether the code has good severity.
    pub fn is_good(&self) -> (r: bool)
        ensures
            r == spec_is_good(*self),
    {
        self.code() < 0x4000_0000
    }

    /// Whether the code has bad severity (top bit set).
    pub fn is_bad(&self) -> (r: bool)
        ensures
            r == (spec_code(*self) >= 0x8000_0000),
    {
        self.code() >= 0x8000_0000
    }
}

} // verus!
