//! Exact game-theoretic evaluation of Connect Four positions.
//!
//! A position is held as a pair of 64-bit words ([`bitboard::Bitboard`]) whose
//! meaning is given by an abstract board of stacked stones ([`grid::Grid`]).
//! The search in [`search`] enumerates the whole remaining game tree and is
//! proved to return the minimax value defined over that abstract board.
use vstd::prelude::*;

pub mod bits;
pub mod layout;
pub mod grid;
pub mod alignment;
pub mod bitboard;
pub mod search;
pub mod game;
pub mod benchmark;
