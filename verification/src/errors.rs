use vstd::prelude::*;

verus! {

/// Failures the trivia core can surface to its caller.
///
/// A reply that cannot be correlated to a live question is not an error:
/// the engine swallows it by design and reports it in its outcome instead.
#[derive(Clone, Copy, Debug, PartialEq, Eq, Structural)]
pub enum TriviaError {
    /// No questions are loaded, so none can be published.
    EmptySet,
    /// The ledger's backing store failed; the ledger state is unknown for
    /// this operation and the caller must retry or report, never re-add
    /// points blindly.
    Storage,
}

} // verus!
