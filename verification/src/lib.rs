//! Positional-astronomy calculations: calendar and Julian Day arithmetic,
//! time-of-day handling, and the sign conventions shared by the
//! degrees/minutes/seconds and hours/minutes/seconds angle forms.
//!
//! Every quantity in this crate is an exact integer: a calendar date, a count
//! of seconds, or a sign decision.  Floating-point layers (trigonometry,
//! delta-T interpolation, angle unit conversions) belong to the programs that
//! use this crate; they hand integer fields in and read integer fields out.
//! A Julian Day is carried as a whole number of seconds (the day number times
//! 86 400 plus the seconds of the day), which represents every calendar
//! date/time exactly.

pub mod angles;
pub mod astro_time;
pub mod error;
