use vstd::prelude::*;

verus! {

/// The failures the core distinguishes: a configuration error found before
/// the simulation starts, and an internal-consistency violation found during
/// a tick.
#[derive(Clone, Copy, Debug, PartialEq, Eq, Structural)]
pub enum TurmiteError {
    /// The pattern string held fewer than two recognized turn characters.
    InvalidPattern,
    /// A marker was looked up that does not occur in the pattern table. This
    /// cannot arise while the grid is written only by the step engine; it is
    /// surfaced as a typed result rather than a process abort.
    UnknownMarker,
}

impl TurmiteError {
    /// A human-readable description of the failure.
    pub fn describe(&self) -> (r: &'static str)
        ensures
            self is InvalidPattern ==> r@ == "incorrect pattern: should be at least 2 correct values (L, R, U, N)"@,
            self is UnknownMarker ==> r@ == "can't find matching color"@,
    {
        match self {
            TurmiteError::InvalidPattern => "incorrect pattern: should be at least 2 correct values (L, R, U, N)",
            TurmiteError::UnknownMarker => "can't find matching color",
        }
    }
}

} // verus!
