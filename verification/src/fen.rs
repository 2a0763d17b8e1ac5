//! Loading a position from its textual description.
//!
//! The description's first field lists the pieces rank by rank from the top
//! of the board: a letter places a piece, a digit skips that many files, and
//! `/` moves to the next rank down. The second field gives the side to move,
//! `w` or `b`. Later fields are not consumed here. [`fen_parse`] is the
//! grammar written out as a specification; [`Board::load_fen`] is proved
//! against it, rejecting malformed input with a structured error instead of
//! aborting.

use vstd::prelude::*;
use vstd::string::StringSliceAdditionalSpecFns;

use crate::bitboards::{file_of, group_bitboard_lemmas, rank_of};
use crate::board::{lemma_wf_ignores_scalars, Board, Square};
use crate::enums::{Color, PieceType};

verus! {

broadcast use group_bitboard_lemmas;

/// Why a position description was rejected.
#[derive(Clone, Copy, Debug, PartialEq, Eq, Structural)]
pub enum FenError {
    /// A placement byte that is no piece letter, digit or rank separator.
    BadPiece,
    /// A piece fell outside the board: too many files, ranks or separators.
    OffBoard,
    /// No side-to-move field follows the placement field.
    MissingSideToMove,
    /// The side-to-move field is neither `w` nor `b`.
    BadSideToMove,
}

/// The piece a placement letter stands for: uppercase white, lowercase
/// black.
pub open spec fn fen_piece(b: u8) -> Option<Square> {
    if b == 80 {
        Some(Square { piece: PieceType::Pawn, color: Color::White })
    } else if b == 78 {
        Some(Square { piece: PieceType::Knight, color: Color::White })
    } else if b == 66 {
        Some(Square { piece: PieceType::Bishop, color: Color::White })
    } else if b == 82 {
        Some(Square { piece: PieceType::Rook, color: Color::White })
    } else if b == 81 {
        Some(Square { piece: PieceType::Queen, color: Color::White })
    } else if b == 75 {
        Some(Square { piece: PieceType::King, color: Color::White })
    } else if b == 112 {
        Some(Square { piece: PieceType::Pawn, color: Color::Black })
    } else if b == 110 {
        Some(Square { piece: PieceType::Knight, color: Color::Black })
    } else if b == 98 {
        Some(Square { piece: PieceType::Bishop, color: Color::Black })
    } else if b == 114 {
        Some(Square { piece: PieceType::Rook, color: Color::Black })
    } else if b == 113 {
        Some(Square { piece: PieceType::Queen, color: Color::Black })
    } else if b == 107 {
        Some(Square { piece: PieceType::King, color: Color::Black })
    } else {
        None
    }
}

/// The all-empty mailbox.
pub open spec fn empty_mailbox() -> Seq<Square> {
    Seq::new(64, |i: int| Square::spec_empty())
}

/// One pass over the placement field from byte `i` on, with the mailbox
/// built so far and the cursor at (`file`, `rank`). Stops at the first space
/// or at the end of the input.
pub open spec fn fen_placement(
    bytes: Seq<u8>,
    i: int,
    m: Seq<Square>,
    file: int,
    rank: int,
) -> Result<Seq<Square>, FenError>
    decreases bytes.len() - i,
{
    if i < 0 || i >= bytes.len() || bytes[i] == 32 {
        Ok(m)
    } else if bytes[i] == 47 {
        fen_placement(bytes, i + 1, m, 0, rank - 1)
    } else if 48 <= bytes[i] && bytes[i] <= 57 {
        fen_placement(bytes, i + 1, m, file + (bytes[i] - 48), rank)
    } else {
        match fen_piece(bytes[i]) {
            Option::None => Err(FenError::BadPiece),
            Option::Some(sqv) => {
                if 0 <= file < 8 && 0 <= rank < 8 {
                    fen_placement(bytes, i + 1, m.update(8 * rank + file, sqv), file + 1, rank)
                } else {
                    Err(FenError::OffBoard)
                }
            },
        }
    }
}

/// The index of the first space, or the input's length if there is none.
pub open spec fn first_space(bytes: Seq<u8>, i: int) -> int
    decreases bytes.len() - i,
{
    if i < 0 || i >= bytes.len() {
        i
    } else if bytes[i] == 32 {
        i
    } else {
        first_space(bytes, i + 1)
    }
}

/// The parse of a whole position description: the 64-entry mailbox and the
/// side to move, or the first error encountered.
pub open spec fn fen_parse(bytes: Seq<u8>) -> Result<(Seq<Square>, bool), FenError> {
    match fen_placement(bytes, 0, empty_mailbox(), 0, 7) {
        Result::Err(e) => Err(e),
        Result::Ok(m) => {
            let sp = first_space(bytes, 0);
            if sp + 1 >= bytes.len() {
                Err(FenError::MissingSideToMove)
            } else {
                let side = bytes[sp + 1];
                let terminated = sp + 2 >= bytes.len() || bytes[sp + 2] == 32;
                if side == 119 && terminated {
                    Ok((m, true))
                } else if side == 98 && terminated {
                    Ok((m, false))
                } else {
                    Err(FenError::BadSideToMove)
                }
            }
        },
    }
}

/// Exec lookup of the piece a placement letter stands for.
fn fen_piece_exec(b: u8) -> (r: Option<Square>)
    ensures
        r == fen_piece(b),
        r is Some ==> r.unwrap().piece.is_piece() && r.unwrap().color.is_side(),
{
    match b {
        80u8 => Some(Square { piece: PieceType::Pawn, color: Color::White }),
        78u8 => Some(Square { piece: PieceType::Knight, color: Color::White }),
        66u8 => Some(Square { piece: PieceType::Bishop, color: Color::White }),
        82u8 => Some(Square { piece: PieceType::Rook, color: Color::White }),
        81u8 => Some(Square { piece: PieceType::Queen, color: Color::White }),
        75u8 => Some(Square { piece: PieceType::King, color: Color::White }),
        112u8 => Some(Square { piece: PieceType::Pawn, color: Color::Black }),
        110u8 => Some(Square { piece: PieceType::Knight, color: Color::Black }),
        98u8 => Some(Square { piece: PieceType::Bishop, color: Color::Black }),
        114u8 => Some(Square { piece: PieceType::Rook, color: Color::Black }),
        113u8 => Some(Square { piece: PieceType::Queen, color: Color::Black }),
        107u8 => Some(Square { piece: PieceType::King, color: Color::Black }),
        _ => None,
    }
}

impl Board {
    /// Replace this position with the one a textual description gives,
    /// resetting the auxiliary counters. Returns the first parse error for
    /// malformed input, on which the counters are still reset and the two
    /// representations still agree.
    pub fn load_fen(&mut self, fen: &str) -> (r: Result<(), FenError>)
        ensures
            final(self).wf(),
            final(self).reversables == 0,
            final(self).halfmove_clock == 0,
            final(self).castling_rights == 15,
            r is Ok <==> fen_parse(fen.spec_bytes()) is Ok,
            match fen_parse(fen.spec_bytes()) {
                Result::Ok(pw) => final(self).mailbox@ == pw.0 && final(self).wtm == pw.1,
                Result::Err(e) => r == Err::<(), FenError>(e),
            },
    {
        *self = Board::get_empty_board();
        let bytes = fen.as_bytes();
        let ghost bs = fen.spec_bytes();
        proof {
            assert(self.mailbox@ =~= empty_mailbox());
        }
        let n = bytes.len();
        let mut i: usize = 0;
        // The cursor, saturated a step past the board so the exec values
        // stay bounded; the ghost cursor tracks the grammar exactly.
        let mut file: i32 = 0;
        let mut rank: i32 = 7;
        let ghost mut file_g: int = 0;
        let ghost mut rank_g: int = 7;
        while i < n && bytes[i] != 32
            invariant
                bytes@ == bs,
                bs == fen.spec_bytes(),
                n == bs.len(),
                i <= n,
                self.wf(),
                self.wtm == true,
                self.reversables == 0,
                self.halfmove_clock == 0,
                self.castling_rights == 15,
                0 <= file <= 64,
                -2 <= rank <= 7,
                file == if file_g > 64 {
                    64int
                } else {
                    file_g
                },
                rank == if rank_g < -2 {
                    -2int
                } else {
                    rank_g
                },
                0 <= file_g,
                rank_g <= 7,
                fen_placement(bs, 0, empty_mailbox(), 0, 7) == fen_placement(
                    bs,
                    i as int,
                    self.mailbox@,
                    file_g,
                    rank_g,
                ),
                first_space(bs, 0) == first_space(bs, i as int),
                forall|s: int|
                    0 <= s < 64 && (#[trigger] self.mailbox@[s]).is_occupied() ==> (rank_of(s)
                        > rank_g || (rank_of(s) == rank_g && file_of(s) < file_g)),
            decreases n - i,
        {
            let b = bytes[i];
            if b == 47 {
                rank = if rank <= -2 {
                    -2
                } else {
                    rank - 1
                };
                file = 0;
                proof {
                    rank_g = rank_g - 1;
                    file_g = 0;
                }
            } else if 48 <= b && b <= 57 {
                let d: i32 = (b - 48) as i32;
                file = if file + d > 64 {
                    64
                } else {
                    file + d
                };
                proof {
                    file_g = file_g + (b - 48);
                }
            } else {
                match fen_piece_exec(b) {
                    Option::None => {
                        return Err(FenError::BadPiece);
                    },
                    Option::Some(sqv) => {
                        if file < 8 && 0 <= rank {
                            let idx = (rank * 8 + file) as usize;
                            proof {
                                assert(idx == 8 * rank_g + file_g);
                                assert(rank_of(idx as int) == rank_g && file_of(idx as int)
                                    == file_g);
                                assert(!self.mailbox@[idx as int].is_occupied());
                            }
                            self.add_piece(sqv.color, sqv.piece, idx);
                            file = file + 1;
                            proof {
                                file_g = file_g + 1;
                            }
                        } else {
                            return Err(FenError::OffBoard);
                        }
                    },
                }
            }
            i = i + 1;
        }
        proof {
            assert(fen_placement(bs, i as int, self.mailbox@, file_g, rank_g) == Ok::<
                Seq<Square>,
                FenError,
            >(self.mailbox@));
            assert(first_space(bs, i as int) == i);
        }
        if i >= n || i + 1 >= n {
            return Err(FenError::MissingSideToMove);
        }
        let side = bytes[i + 1];
        let terminated = i + 2 >= n || bytes[i + 2] == 32;
        if side == 119 && terminated {
            let ghost prev = *self;
            self.wtm = true;
            proof {
                lemma_wf_ignores_scalars(prev, *self);
            }
            Ok(())
        } else if side == 98 && terminated {
            let ghost prev = *self;
            self.wtm = false;
            proof {
                lemma_wf_ignores_scalars(prev, *self);
            }
            Ok(())
        } else {
            Err(FenError::BadSideToMove)
        }
    }
}

} // verus!
