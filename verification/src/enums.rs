//! Piece-type and color tags used by the mailbox and the bitboard arrays.

use vstd::prelude::*;

verus! {

/// The six piece kinds, plus an explicit tag for an empty mailbox entry.
#[derive(Clone, Copy, Debug, PartialEq, Eq, Structural)]
pub enum PieceType {
    Empty,
    Pawn,
    Knight,
    Bishop,
    Rook,
    Queen,
    King,
}

/// The two sides, plus an explicit tag for an empty mailbox entry.
#[derive(Clone, Copy, Debug, PartialEq, Eq, Structural)]
pub enum Color {
    White,
    Black,
    Empty,
}

impl PieceType {
    /// A real piece kind, not the empty tag.
    pub open spec fn is_piece(self) -> bool {
        self != PieceType::Empty
    }
}

impl Color {
    /// A real side, not the empty tag.
    pub open spec fn is_side(self) -> bool {
        self != Color::Empty
    }

    /// The index of this side in a per-color array: white 0, black 1.
    pub open spec fn side_index(self) -> int {
        if self == Color::White {
            0
        } else {
            1
        }
    }

    /// The index of this side in a per-color array: white 0, black 1.
    pub fn index(self) -> (i: usize)
        requires
            self.is_side(),
        ensures
            i == self.side_index(),
    {
        match self {
            Color::White => 0,
            Color::Black => 1,
            Color::Empty => 1,
        }
    }
}

} // verus!
