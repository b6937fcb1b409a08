//! The failure taxonomy shared by the engine's operations.

use vstd::prelude::*;

verus! {

/// A specific reason a user-supplied schedule definition was rejected.
#[derive(Clone, Copy, PartialEq, Eq, Structural, Debug)]
pub enum ValidationIssue {
    /// The execution time is not of the HH:MM shape.
    MalformedTime,
    /// The hour field is not in 0-23.
    HourOutOfRange,
    /// The minute field is not in 0-59.
    MinuteOutOfRange,
    /// A weekly, interval or one-shot schedule lacks its start date.
    MissingStartDate,
    /// An interval schedule lacks its day interval.
    MissingIntervalDays,
    /// The day interval is zero.
    ZeroIntervalDays,
    /// The command to run is empty.
    EmptyCommand,
}

impl ValidationIssue {
    /// The user-facing reason text for this rejection.
    pub open spec fn spec_message(self) -> Seq<char> {
        match self {
            ValidationIssue::MalformedTime => "execution time must have the form HH:MM"@,
            ValidationIssue::HourOutOfRange => "hour must be between 0 and 23"@,
            ValidationIssue::MinuteOutOfRange => "minute must be between 0 and 59"@,
            ValidationIssue::MissingStartDate => "this schedule type requires a start date"@,
            ValidationIssue::MissingIntervalDays => "an interval schedule requires intervalDays"@,
            ValidationIssue::ZeroIntervalDays => "intervalDays must be at least 1"@,
            ValidationIssue::EmptyCommand => "the command must not be empty"@,
        }
    }

    /// Render the user-facing reason text.
    pub fn message(&self) -> (r: String)
        ensures
            r@ == self.spec_message(),
    {
        match self {
            ValidationIssue::MalformedTime => String::from_str(
                "execution time must have the form HH:MM",
            ),
            ValidationIssue::HourOutOfRange => String::from_str("hour must be between 0 and 23"),
            ValidationIssue::MinuteOutOfRange => String::from_str(
                "minute must be between 0 and 59",
            ),
            ValidationIssue::MissingStartDate => String::from_str(
                "this schedule type requires a start date",
            ),
            ValidationIssue::MissingIntervalDays => String::from_str(
                "an interval schedule requires intervalDays",
            ),
            ValidationIssue::ZeroIntervalDays => String::from_str(
                "intervalDays must be at least 1",
            ),
            ValidationIssue::EmptyCommand => String::from_str("the command must not be empty"),
        }
    }
}

/// The engine's error taxonomy: validation failures, lookups that found
/// nothing, failures of the external tool layer, and the concurrency
/// guard's refusal to start a tool twice.
#[derive(Clone, PartialEq, Eq, Debug)]
pub enum EngineError {
    Validation(ValidationIssue),
    NotFound,
    ExternalTool(String),
    AlreadyRunning,
}

} // verus!
