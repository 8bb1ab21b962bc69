//! Locating a font's file: the outcome type of asking the platform to
//! reveal a font in its file manager. The search paths and the command
//! to launch are platform policy and stay outside the core; the core
//! fixes that exactly one of three outcomes is produced per call, and
//! that a missing file is not a failure but falls back to opening a
//! fonts directory.

use vstd::prelude::*;

verus! {

/// Exactly one of three outcomes of a locate call: the font's file was
/// revealed at a path, a fallback fonts directory was opened instead,
/// or the platform command itself could not be started.
pub enum LocateOutcome {
    /// The file was found and revealed at this path.
    Revealed(String),
    /// No file was found; this fallback directory was opened instead.
    OpenedFallback(String),
    /// The platform command could not be started, for this reason.
    Failed(String),
}

impl LocateOutcome {
    /// Opening the fallback directory counts as success: only a failed
    /// command launch is a failure.
    pub fn is_success(&self) -> (r: bool)
        ensures
            r == !(self matches LocateOutcome::Failed(_)),
    {
        match self {
            LocateOutcome::Failed(_) => false,
            _ => true,
        }
    }
}

} // verus!
