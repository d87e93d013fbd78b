//! Plain data types mirroring the graphics layer of the platform backend.
//! The unsafe calls into that layer live outside the library; these types
//! let verified code inspect and translate the values those calls produce.

use vstd::prelude::*;

verus! {

/// Identifier the platform assigns to an attached display.  It is distinct
/// from the stable UUID the library uses: the identifier may change across
/// reboots while the UUID does not.
#[derive(Debug, Default, Hash, Eq, PartialEq, Clone, Copy, Structural)]
pub struct DisplayID {
    /// The raw identifier value.
    pub id: u32,
}

/// The error codes the graphics layer reports.
#[derive(Debug, Eq, PartialEq, Clone, Copy, Structural)]
#[allow(non_camel_case_types)]
pub enum CGError {
    cannotComplete,
    failure,
    illegalArgument,
    invalidConnection,
    invalidContext,
    invalidOperation,
    noneAvailable,
    notImplemented,
    rangeCheck,
    success,
    typeCheck,
}

impl CGError {
    /// The numeric code of this error, as the graphics layer reports it.
    pub open spec fn spec_code(self) -> i32 {
        match self {
            CGError::cannotComplete => 1004,
            CGError::failure => 1000,
            CGError::illegalArgument => 1001,
            CGError::invalidConnection => 1002,
            CGError::invalidContext => 1003,
            CGError::invalidOperation => 1010,
            CGError::noneAvailable => 1011,
            CGError::notImplemented => 1006,
            CGError::rangeCheck => 1007,
            CGError::success => 0,
            CGError::typeCheck => 1008,
        }
    }

    /// Return the numeric code of this error.
    pub fn code(self) -> (r: i32)
        ensures
            r == self.spec_code(),
    {
        match self {
            CGError::cannotComplete => 1004,
            CGError::failure => 1000,
            CGError::illegalArgument => 1001,
            CGError::invalidConnection => 1002,
            CGError::invalidContext => 1003,
            CGError::invalidOperation => 1010,
            CGError::noneAvailable => 1011,
            CGError::notImplemented => 1006,
            CGError::rangeCheck => 1007,
            CGError::success => 0,
            CGError::typeCheck => 1008,
        }
    }
}

/// How long a display configuration change should persist.
#[derive(Debug, Clone, Copy, PartialEq, Eq, Structural)]
#[allow(non_camel_case_types)]
pub enum CGConfigureOption {
    kCGConfigureForAppOnly,
    kCGConfigureForSession,
    kCGConfigurePermanently,
}

impl CGConfigureOption {
    /// The numeric value of this option, as the graphics layer expects it.
    pub open spec fn spec_value(self) -> i32 {
        match self {
            CGConfigureOption::kCGConfigureForAppOnly => 0,
            CGConfigureOption::kCGConfigureForSession => 1,
            CGConfigureOption::kCGConfigurePermanently => 2,
        }
    }

    /// Return the numeric value of this option.
    pub fn value(self) -> (r: i32)
        ensures
            r == self.spec_value(),
    {
        match self {
            CGConfigureOption::kCGConfigureForAppOnly => 0,
            CGConfigureOption::kCGConfigureForSession => 1,
            CGConfigureOption::kCGConfigurePermanently => 2,
        }
    }
}

/// String encodings the platform's string functions accept.
#[derive(Debug, Clone, Copy, PartialEq, Eq, Structural)]
#[allow(non_camel_case_types)]
pub enum CFStringBuiltInEncodings {
    ASCII,
    UTF8,
}

impl CFStringBuiltInEncodings {
    /// The numeric value of this encoding, as the platform expects it.
    pub open spec fn spec_value(self) -> u32 {
        match self {
            CFStringBuiltInEncodings::ASCII => 1536,
            CFStringBuiltInEncodings::UTF8 => 134217984,
        }
    }

    /// Return the numeric value of this encoding.
    pub fn value(self) -> (r: u32)
        ensures
            r == self.spec_value(),
    {
        match self {
            CFStringBuiltInEncodings::ASCII => 1536,
            CFStringBuiltInEncodings::UTF8 => 134217984,
        }
    }
}

} // verus!
