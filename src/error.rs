use vstd::prelude::*;

verus! {

/// The ways a store operation can fail.
///
/// The store is guarded by a lock that has no poisoned state (verified code
/// cannot panic while holding it), so lock acquisition never fails and has no
/// kind of its own here.
#[derive(Debug, Clone, Copy, PartialEq, Eq, Structural)]
pub enum ElephantError {
    /// No deck has the requested id.
    DeckNotFound,
    /// The deck exists but holds no card with the requested id.
    CardNotFound,
    /// Every identifier of the `i64` range has been handed out already.
    IdsExhausted,
}

impl ElephantError {
    /// Whether the failure is an ordinary "not found" result (as opposed to
    /// an internal condition of the store).
    pub fn is_not_found(&self) -> (r: bool)
        ensures
            r == (*self == ElephantError::DeckNotFound || *self == ElephantError::CardNotFound),
    {
        match self {
            ElephantError::DeckNotFound => true,
            ElephantError::CardNotFound => true,
            ElephantError::IdsExhausted => false,
        }
    }
}

} // verus!
