use vstd::prelude::*;

verus! {

/// Everything a submission, a betting action or an audit can be refused for.
#[derive(Clone, Copy, Debug, PartialEq, Eq, Structural)]
pub enum PokerError {
    /// The hand is not in the phase that the submission belongs to.
    WrongPhase,
    /// The submitting player is not the one whose turn it is.
    WrongTurn,
    /// A submitted collection does not have the length the hand expects.
    LengthMismatch,
    /// An index or a player number lies outside the table.
    OutOfBounds,
    /// A bet smaller than what the player owes (and not an all-in).
    UnderCall,
    /// A bet larger than the player's stack.
    InsufficientChips,
    /// The player has folded this hand.
    AlreadyFolded,
    /// Two Lagrange labels coincide, so a denominator cannot be inverted.
    InvalidLabelSet,
    /// Bytes that do not encode a curve point or a canonical scalar.
    InvalidEncoding,
    /// Two shuffle trace entries claim the same input card.
    ClonedCard,
    /// A shuffle trace entry points outside one of the two decks.
    TraceOutOfBounds,
    /// The batched shuffle pairing check failed.
    ShuffleForgery,
    /// An unmasking step failed its audit; the offending player is given.
    UnmaskForgery { player: usize },
    /// A hand is already in progress at the table.
    HandInProgress,
    /// The state machine has no next round or a record it relies on is missing.
    Invalid,
}

} // verus!
