//! Error definitions for the crate.

use vstd::prelude::*;

verus! {

/// Errors relating to arithmetic operation failures.
#[derive(Clone, Copy, Debug, PartialEq, Eq, Structural)]
pub enum ArithmeticError {
    /// An arithmetic operation overflowed the machine word.
    Overflow,
}

/// Errors related to the scorer and scoring methods.
#[derive(Clone, Copy, Debug, PartialEq, Eq, Structural)]
pub enum ScorerError {
    /// The requested ante exceeds the maximum computable ante of 8.
    AnteExceeded(usize),
    /// An arithmetic operation failed while scoring.
    ArithmeticError(ArithmeticError),
    /// An empty hand (no cards) was passed to the scorer.
    EmptyHandScoredError,
}

/// Top-level errors for the crate.
#[derive(Clone, Copy, Debug, PartialEq, Eq, Structural)]
pub enum CoreError {
    /// A hand discard was attempted when no discards remained.
    DiscardsExhaustedError,
    /// A hand play was attempted when no hands remained.
    HandsExhaustedError,
    /// More cards were requested from a deck than it holds.
    InsufficientCardsError,
    /// A selection index was out of bounds or the index set was not
    /// strictly ascending.
    InvalidIndexError,
    /// A card could not be parsed from its textual form.
    MalformedCardError,
    /// An arithmetic operation failed.
    ArithmeticError(ArithmeticError),
    /// An error occurred in the scorer.
    ScorerError(ScorerError),
}

/// Errors relating to the card list selection state.
#[derive(Clone, Copy, Debug, PartialEq, Eq, Structural)]
pub enum WidgetError {
    /// An arithmetic operation failed.
    ArithmeticError(ArithmeticError),
    /// The requested selection limit is below the number of cards already
    /// selected.
    SelectionLimitOverflow {
        /// The attempted value of the selection limit.
        attempted_selection_limit: usize,
        /// The largest selection limit that would currently be valid.
        max_allowed: usize,
    },
}

} // verus!
