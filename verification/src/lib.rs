//! Exhaustive outcome statistics for the card game Sevens.
//!
//! A deal of 52 cards among a fixed number of players is explored along
//! every line of play a strategy leaves open, and the wins per player are
//! tallied. Cards and card sets are packed into a single 64-bit word, 16
//! bits per suit, which keeps membership and rank-neighbour queries to one
//! bitwise operation each.

pub mod bits;
pub mod cards;
pub mod game;
