use vstd::prelude::*;
use vstd::string::StringExecFns;

verus! {

/// The failures a generation pass can report to its caller.
///
/// - `InvalidRule`: a malformed or nonsensical generation rule (empty choice
///   set, empty cyclic source with a positive length, a name rule that cannot
///   yield text, a probability ratio that does not lie in [0, 1]).
/// - `EncodingError`: generated bytes are not valid UTF-8 where text is required.
/// - `AlreadyExists`: the target entry name collides with an existing entry.
/// - `DuplicateName`: two sibling nodes resolve to the same entry name.
/// - `IoFailure`: an underlying filesystem operation failed.
#[derive(Clone, Copy, Debug, PartialEq, Eq, Structural)]
pub enum GenError {
    InvalidRule,
    EncodingError,
    AlreadyExists,
    DuplicateName,
    IoFailure,
}

/// Error reported when a configuration tree breaks the data-model invariants.
#[derive(Clone, Copy, Debug, PartialEq, Eq, Structural)]
pub struct WrongConfigDataError;

impl WrongConfigDataError {
    /// A human-readable description of the error.
    pub fn message(&self) -> (r: String)
        ensures
            r@ == "Wrong config data"@,
    {
        String::from_str("Wrong config data")
    }
}

} // verus!
