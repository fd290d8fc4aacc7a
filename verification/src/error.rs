//! Library-wide error values.

use vstd::prelude::*;

verus! {

/// The kinds of failure that the calendar, time, and angle operations report.
///
/// Every fallible constructor and conversion in this crate returns one of
/// these values instead of panicking, so that callers can propagate errors
/// explicitly.
#[derive(Debug, Clone, Copy, PartialEq, Eq, Structural)]
pub enum AstroAlgorithmsError {
    /// The range of allowable dates was exceeded by an algorithm or type.
    /// Most algorithms do not accept dates with a Julian Day before 0.
    DateRange,
    /// Invalid values supplied for a Gregorian calendar date, such as
    /// 29 Feb 2017 or 31 Apr 1981.
    InvalidGregorianDate,
    /// Same as `InvalidGregorianDate`, but for the Julian calendar.
    InvalidJulianDate,
    /// Invalid hour, minute, or second values supplied for a time of day.
    InvalidTime,
    /// An angle violated a representation-specific restriction.
    InvalidAngle,
    /// A floating-point layer encountered a NaN value.
    EncounteredNaN,
    /// A floating-point layer encountered an infinite value.
    EncounteredInf,
    /// A number in an inappropriate range for a type or algorithm was used.
    Range,
    /// No more specific error kind applies.
    Unspecified,
}

/// Result alias used throughout the crate.
pub type AstroResult<T> = Result<T, AstroAlgorithmsError>;

} // verus!
