//! Deterministic simulation core of a falling-block puzzle game.
//!
//! The crate owns the board state, the active piece's motion, rotation and
//! collision rules, piece-sequence generation, scoring, and rule/level
//! progression.  Rendering, input-device decoding and on-disk configuration
//! parsing live outside the core; it consumes already-decoded per-tick input
//! flags and already-deserialized rule and piece-definition data.

use vstd::prelude::*;

pub mod board;
pub mod configuration;
pub mod game;
pub mod input;
pub mod menu;
pub mod piece;
pub mod pieces;
pub mod randomizer;
pub mod scenes;

verus! {

/// Number of invisible spawn-buffer rows kept above the visible playfield.
pub const OFFSCREEN_ROWS: usize = 5;

} // verus!
