//! The failures the tool reports as its own.

use vstd::prelude::*;

verus! {

/// A failure of the tool itself, as opposed to one of the system.
#[derive(Debug, Clone, Copy, PartialEq, Eq, Structural)]
pub enum CursorError {
    /// No home directory could be found.
    MissingHome,
    /// No cursor theme is installed.
    NoThemes,
    /// The system clock reads a time before the Unix epoch.
    ClockBeforeEpoch,
}

impl CursorError {
    /// The text shown for the failure.
    pub fn message(&self) -> (m: &'static str)
        ensures
            m@ == match *self {
                CursorError::MissingHome => "home directory is unavailable"@,
                CursorError::NoThemes => "no cursor themes found"@,
                CursorError::ClockBeforeEpoch => "system clock is before unix epoch"@,
            },
    {
        match self {
            CursorError::MissingHome => "home directory is unavailable",
            CursorError::NoThemes => "no cursor themes found",
            CursorError::ClockBeforeEpoch => "system clock is before unix epoch",
        }
    }
}

} // verus!
