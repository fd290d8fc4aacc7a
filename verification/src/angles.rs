//! Sign conventions for angles written as degrees/minutes/seconds or
//! hours/minutes/seconds.
//!
//! Such an angle carries one overall sign: every non-zero component must
//! agree with the most significant non-zero component.  The floating-point
//! angle types themselves live outside this crate; construction of one calls
//! into this module with the integer components and the sign bit of the
//! fractional seconds, and applies the returned decisions.

use vstd::prelude::*;

verus! {

/// What a sign-normalizing constructor must do to a trailing component.
#[derive(Debug, PartialEq, Eq, Structural, Clone, Copy)]
pub enum ComponentSign {
    /// Replace the component by the negation of its absolute value.
    Negative,
    /// Replace the component by its absolute value.
    NonNegative,
    /// Leave the component as it was given.
    Unchanged,
}

/// The minutes component after sign normalization: minutes take the sign of
/// the leading component (degrees or hours) when that is non-zero, and are
/// left alone otherwise.
pub open spec fn normalized_minutes_spec(leading: int, minutes: int) -> int {
    if leading < 0 {
        if minutes < 0 {
            minutes
        } else {
            -minutes
        }
    } else if leading > 0 {
        if minutes < 0 {
            -minutes
        } else {
            minutes
        }
    } else {
        minutes
    }
}

/// The sign the seconds component must take: that of the leading component
/// if non-zero, else that of the minutes if non-zero, else unchanged.
pub open spec fn seconds_sign_spec(leading: int, minutes: int) -> ComponentSign {
    if leading < 0 {
        ComponentSign::Negative
    } else if leading > 0 {
        ComponentSign::NonNegative
    } else if minutes < 0 {
        ComponentSign::Negative
    } else if minutes > 0 {
        ComponentSign::NonNegative
    } else {
        ComponentSign::Unchanged
    }
}

/// Give the minutes component the sign of the leading component (degrees for
/// a degrees/minutes/seconds angle, hours for an hours/minutes/seconds one).
pub fn propagate_sign_to_minutes(leading: i32, minutes: i32) -> (m: i32)
    requires
        minutes > i32::MIN,
    ensures
        m == normalized_minutes_spec(leading as int, minutes as int),
{
    if leading < 0 {
        if minutes < 0 {
            minutes
        } else {
            -minutes
        }
    } else if leading > 0 {
        if minutes < 0 {
            -minutes
        } else {
            minutes
        }
    } else {
        minutes
    }
}

/// Decide the sign the seconds component must take, from the raw leading and
/// minutes components.
pub fn propagate_sign_to_seconds(leading: i32, minutes: i32) -> (s: ComponentSign)
    ensures
        s == seconds_sign_spec(leading as int, minutes as int),
{
    if leading < 0 {
        ComponentSign::Negative
    } else if leading > 0 {
        ComponentSign::NonNegative
    } else if minutes < 0 {
        ComponentSign::Negative
    } else if minutes > 0 {
        ComponentSign::NonNegative
    } else {
        ComponentSign::Unchanged
    }
}

/// Sign invariant of the degrees/minutes/seconds and hours/minutes/seconds
/// forms: after normalization, every non-zero component carries the sign of
/// the most significant non-zero component, and a zero leading component
/// leaves the minutes untouched.
pub proof fn lemma_component_sign_invariant(leading: int, minutes: int)
    ensures
        leading > 0 ==> normalized_minutes_spec(leading, minutes) >= 0 && seconds_sign_spec(
            leading,
            minutes,
        ) == ComponentSign::NonNegative,
        leading < 0 ==> normalized_minutes_spec(leading, minutes) <= 0 && seconds_sign_spec(
            leading,
            minutes,
        ) == ComponentSign::Negative,
        leading == 0 ==> normalized_minutes_spec(leading, minutes) == minutes,
        leading == 0 && minutes > 0 ==> seconds_sign_spec(leading, minutes)
            == ComponentSign::NonNegative,
        leading == 0 && minutes < 0 ==> seconds_sign_spec(leading, minutes)
            == ComponentSign::Negative,
        leading == 0 && minutes == 0 ==> seconds_sign_spec(leading, minutes)
            == ComponentSign::Unchanged,
{
}

} // verus!
