//! Position representation and pseudo-legal move generation for a standard
//! 8x8 two-player piece game.
//!
//! The crate keeps a game position in two synchronized forms — per-color,
//! per-piece-type bitboards and a per-square mailbox array — and answers,
//! for each piece of a color, which squares it can move to: table-style
//! geometry for the short-range pieces, blocker-aware ray casting for the
//! long-range ones, and a push/capture split for the forward-moving piece.
//! Targets are packed into fixed-width integer move tokens, and a position
//! can be loaded from its textual description.

pub mod attack_vectors;
pub mod bitboards;
pub mod board;
pub mod enums;
pub mod fen;
pub mod move_rep;
pub mod pseudolegals;
pub mod sliders;
