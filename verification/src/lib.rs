//! Boombots: a verified core for an 8x8 board game with stackable units and
//! chain-reaction explosions.
//!
//! The crate has two board models. `bitboard` packs the position into fourteen
//! 64-bit frames and supports incremental make/undo with Zobrist hashing; it is
//! the representation the alpha-beta search drives. `game` is the simpler
//! slot-map model used as the authoritative rule reference. `agreement` proves
//! that the two models agree on move legality.

use vstd::prelude::*;

pub mod action;
pub mod agreement;
pub mod bitboard;
pub mod bitwise;
pub mod constants;
pub mod evaluate;
pub mod game;
pub mod net;
pub mod search;
pub mod transpose;

verus! {

} // verus!
