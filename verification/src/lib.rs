//! The legal-state space of a patience game: a tableau of descending,
//! alternating-colour piles, four free reserve slots and four ascending
//! same-suit foundation stacks. Card locations are one comparable
//! abstraction across the three container kinds, move legality is proved
//! before any mutation, and the parent search is guaranteed to find the
//! exactly two cards that could receive a given one, a consequence of the
//! proved card-conservation invariant.

pub mod card;
pub mod counting;
pub mod error;
pub mod flat_transpose;
pub mod foundation;
pub mod game;
pub mod pickables;
pub mod reserve;
pub mod tableau;
pub mod ternary;
pub mod thruple_partition_map;
