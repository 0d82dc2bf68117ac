use vstd::prelude::*;

verus! {

/// The ways an operation of the journal core can fail.
#[derive(Debug, Clone, Copy, PartialEq, Eq, Hash, Structural)]
pub enum JournalError {
    /// A field of a cycle date lies outside its range.
    InvalidDateComponent,
    /// A cycle date code has the wrong length or holds a character that no
    /// code can hold at that place.
    InvalidDateString,
    /// A schedule time is not of the form `HH:MM`, or its hour or minute is
    /// out of range.
    InvalidScheduleTime,
    /// The content store could not be read or written.
    StoreUnavailable,
    /// The generation backend cannot be reached, or its model is not loaded.
    BackendUnavailable,
    /// The generation backend was reached and the call failed.
    BackendGenerationFailed,
}

} // verus!
