//! The recoverable failures of the engine. Every operation that can fail
//! reports one of these; nothing in the library panics.

use vstd::prelude::*;

verus! {

#[derive(Debug, Clone, Copy, PartialEq, Eq, Structural)]
pub enum GameError {
    NoSuchReserveSlot(usize),
    TriedToPickEmptyReserveSlot,
    ReserveSlotIsOccupied,
    NoSuchFoundationStack(usize),
    TriedToPickEmptyFoundationStack,
    TriedToPickEmptyColumn,
    InsufficientCardsForStackPick { stack_size: usize },
    NoSuchColumn(usize),
    /// A move's destination refuses the moved card under the placement rule
    /// of that destination's container kind.
    IllegalCardPlacement,
}

} // verus!
