//! The game position: per-color, per-piece-type bitboards, their per-color
//! aggregates, and a parallel per-square mailbox, kept synchronized by the
//! three mutation primitives.

use vstd::prelude::*;

use crate::attack_vectors::{
    king_step, king_vector, knight_jump, knight_vector, pawn_advance, pawn_vector,
};
use crate::bitboards::{
    file_of, group_bitboard_lemmas, on_board, pop_lsb, rank_of, sq_in, sq_of, Bitboard,
};
use crate::enums::{Color, PieceType};
use crate::move_rep::{lemma_move_code_parts, move_code, new_move, Move};
use crate::pseudolegals::gen_file_mask;
use crate::sliders::{bishop_reaches, queen_reaches, rook_reaches};

verus! {

broadcast use group_bitboard_lemmas;

/// One mailbox entry: the piece kind and color occupying a square, or the
/// two empty tags.
#[derive(Clone, Copy, Debug, PartialEq, Eq, Structural)]
pub struct Square {
    pub piece: PieceType,
    pub color: Color,
}

impl Square {
    /// The entry of an unoccupied square.
    pub open spec fn spec_empty() -> Square {
        Square { piece: PieceType::Empty, color: Color::Empty }
    }

    /// The entry of an unoccupied square.
    #[verifier::when_used_as_spec(spec_empty)]
    pub fn empty() -> (s: Square)
        ensures
            s == Square::spec_empty(),
    {
        Square { piece: PieceType::Empty, color: Color::Empty }
    }

    /// The entry records a piece.
    pub open spec fn is_occupied(self) -> bool {
        self.piece.is_piece()
    }
}

/// The file (0-7) and rank (0-7) of a square index.
pub fn idx_to_file_rank(idx: u8) -> (r: (u8, u8))
    requires
        idx < 64,
    ensures
        r.0 == file_of(idx as int),
        r.1 == rank_of(idx as int),
{
    proof {
        assert(idx & 7 == idx % 8 && idx >> 3 == idx / 8) by (bit_vector);
    }
    (idx & 7, idx >> 3)
}

/// The square index with the given file and rank.
pub fn idx_from_file_rank(file: u8, rank: u8) -> (r: u8)
    requires
        file < 8,
        rank < 8,
    ensures
        r == sq_of(file as int, rank as int),
        r < 64,
{
    proof {
        assert(rank << 3 | file == 8 * rank + file && 8 * rank + file < 64) by (bit_vector)
            requires
                file < 8 && rank < 8,
        ;
    }
    rank << 3 | file
}

/// A full game position. The mailbox and the bitboards describe the same
/// arrangement of pieces; [`Board::wf`] states how.
#[derive(Clone, Copy)]
pub struct Board {
    /// White to move.
    pub wtm: bool,
    /// Count of reversible moves, carried as state but not mutated here.
    pub reversables: i32,
    /// Half-move clock, carried as state but not mutated here.
    pub halfmove_clock: i32,
    /// Castling-rights bit mask, carried as state but not mutated here.
    pub castling_rights: u8,
    /// Pawns of each side, indexed white 0 / black 1.
    pub pawn_bbs: [Bitboard; 2],
    /// Knights of each side.
    pub knight_bbs: [Bitboard; 2],
    /// Bishops of each side.
    pub bishop_bbs: [Bitboard; 2],
    /// Rooks of each side.
    pub rook_bbs: [Bitboard; 2],
    /// Queens of each side.
    pub queen_bbs: [Bitboard; 2],
    /// Kings of each side.
    pub king_bbs: [Bitboard; 2],
    /// Per-square lookup of the occupying (piece, color).
    pub mailbox: [Square; 64],
    /// Union of all white piece bitboards.
    pub white_bb: Bitboard,
    /// Union of all black piece bitboards.
    pub black_bb: Bitboard,
}

impl Board {
    /// The bitboard of `c`'s pieces of kind `p`.
    pub open spec fn piece_bb(self, c: Color, p: PieceType) -> u64
        recommends
            c.is_side(),
            p.is_piece(),
    {
        match p {
            PieceType::Pawn => self.pawn_bbs[c.side_index()],
            PieceType::Knight => self.knight_bbs[c.side_index()],
            PieceType::Bishop => self.bishop_bbs[c.side_index()],
            PieceType::Rook => self.rook_bbs[c.side_index()],
            PieceType::Queen => self.queen_bbs[c.side_index()],
            PieceType::King => self.king_bbs[c.side_index()],
            PieceType::Empty => 0u64,
        }
    }

    /// The aggregate occupancy of side `c`.
    pub open spec fn us_bb(self, c: Color) -> u64
        recommends
            c.is_side(),
    {
        if c == Color::White {
            self.white_bb
        } else {
            self.black_bb
        }
    }

    /// The combined occupancy of both sides.
    pub open spec fn occ(self) -> u64 {
        self.white_bb | self.black_bb
    }

    /// The two representations agree: a square is set in a color/piece-type
    /// bitboard iff the mailbox names that exact color and piece there, and
    /// each side's aggregate holds exactly that side's occupied squares.
    pub open spec fn wf(self) -> bool {
        &&& forall|s: int|
            0 <= s < 64 ==> ((#[trigger] self.mailbox[s]).piece.is_piece()
                <==> self.mailbox[s].color.is_side())
        &&& forall|c: Color, p: PieceType, s: int|
            c.is_side() && p.is_piece() ==> (#[trigger] sq_in(self.piece_bb(c, p), s)
                <==> on_board(s) && self.mailbox[s] == (Square { piece: p, color: c }))
        &&& forall|s: int|
            #[trigger] sq_in(self.white_bb, s) <==> on_board(s) && self.mailbox[s].color
                == Color::White
        &&& forall|s: int|
            #[trigger] sq_in(self.black_bb, s) <==> on_board(s) && self.mailbox[s].color
                == Color::Black
    }

    /// A position with no pieces, white to move, full castling rights.
    pub fn get_empty_board() -> (b: Board)
        ensures
            b.wf(),
            b.wtm == true,
            b.reversables == 0,
            b.halfmove_clock == 0,
            b.castling_rights == 15,
            b.white_bb == 0u64,
            b.black_bb == 0u64,
            forall|s: int| 0 <= s < 64 ==> (#[trigger] b.mailbox[s]) == Square::spec_empty(),
    {
        let b = Board {
            wtm: true,
            reversables: 0,
            halfmove_clock: 0,
            castling_rights: 0b1111,
            pawn_bbs: [0u64; 2],
            knight_bbs: [0u64; 2],
            bishop_bbs: [0u64; 2],
            rook_bbs: [0u64; 2],
            queen_bbs: [0u64; 2],
            king_bbs: [0u64; 2],
            mailbox: [Square::empty(); 64],
            white_bb: 0,
            black_bb: 0,
        };
        proof {
            assert forall|c: Color, p: PieceType, s: int|
                c.is_side() && p.is_piece() implies (#[trigger] sq_in(b.piece_bb(c, p), s)
                <==> on_board(s) && b.mailbox[s] == (Square { piece: p, color: c })) by {
                assert(b.piece_bb(c, p) == 0u64);
                if on_board(s) {
                    assert(b.mailbox[s] == Square::spec_empty());
                }
            }
        }
        b
    }

    /// Place a piece of the given color and kind on an empty square,
    /// updating mailbox, piece bitboard and aggregate together.
    pub fn add_piece(&mut self, color: Color, piece: PieceType, index: usize)
        requires
            old(self).wf(),
            index < 64,
            color.is_side(),
            piece.is_piece(),
            !old(self).mailbox[index as int].is_occupied(),
        ensures
            final(self).wf(),
            final(self).mailbox@ == old(self).mailbox@.update(
                index as int,
                (Square { piece, color }),
            ),
            final(self).wtm == old(self).wtm,
            final(self).reversables == old(self).reversables,
            final(self).halfmove_clock == old(self).halfmove_clock,
            final(self).castling_rights == old(self).castling_rights,
    {
        let bb: u64 = 1u64 << (index as u64);
        let ci: usize = color.index();

        if ci == 0 {
            self.white_bb = self.white_bb | bb;
        } else {
            self.black_bb = self.black_bb | bb;
        }

        self.mailbox[index] = Square { piece, color };

        match piece {
            PieceType::Pawn => {
                self.pawn_bbs[ci] = self.pawn_bbs[ci] | bb;
            },
            PieceType::Knight => {
                self.knight_bbs[ci] = self.knight_bbs[ci] | bb;
            },
            PieceType::Bishop => {
                self.bishop_bbs[ci] = self.bishop_bbs[ci] | bb;
            },
            PieceType::Rook => {
                self.rook_bbs[ci] = self.rook_bbs[ci] | bb;
            },
            PieceType::Queen => {
                self.queen_bbs[ci] = self.queen_bbs[ci] | bb;
            },
            PieceType::King => {
                self.king_bbs[ci] = self.king_bbs[ci] | bb;
            },
            PieceType::Empty => {},
        }

        proof {
            let oldb = *old(self);
            assert forall|c: Color, p: PieceType, s: int|
                c.is_side() && p.is_piece() implies (#[trigger] sq_in(self.piece_bb(c, p), s)
                <==> on_board(s) && self.mailbox[s] == (Square { piece: p, color: c })) by {
                if c == color && p == piece {
                    assert(self.piece_bb(c, p) == oldb.piece_bb(c, p) | bb);
                } else {
                    assert(self.piece_bb(c, p) == oldb.piece_bb(c, p));
                    assert(sq_in(oldb.piece_bb(c, p), s) <==> on_board(s) && oldb.mailbox[s]
                        == (Square { piece: p, color: c }));
                }
            }
            assert forall|s: int| #[trigger] sq_in(self.white_bb, s) <==> on_board(s)
                && self.mailbox[s].color == Color::White by {
                assert(sq_in(oldb.white_bb, s) <==> on_board(s) && oldb.mailbox[s].color
                    == Color::White);
            }
            assert forall|s: int| #[trigger] sq_in(self.black_bb, s) <==> on_board(s)
                && self.mailbox[s].color == Color::Black by {
                assert(sq_in(oldb.black_bb, s) <==> on_board(s) && oldb.mailbox[s].color
                    == Color::Black);
            }
        }
    }

    /// Remove whatever occupies a square, returning its color and kind;
    /// on an empty square this is a no-op returning the two empty tags.
    pub fn remove_piece(&mut self, index: usize) -> (r: (Color, PieceType))
        requires
            old(self).wf(),
            index < 64,
        ensures
            final(self).wf(),
            r.0 == old(self).mailbox[index as int].color,
            r.1 == old(self).mailbox[index as int].piece,
            final(self).mailbox@ == old(self).mailbox@.update(index as int, Square::spec_empty()),
            final(self).wtm == old(self).wtm,
            final(self).reversables == old(self).reversables,
            final(self).halfmove_clock == old(self).halfmove_clock,
            final(self).castling_rights == old(self).castling_rights,
    {
        let sq = self.mailbox[index];
        let bb: u64 = 1u64 << (index as u64);

        self.mailbox[index] = Square::empty();

        match sq.color {
            Color::White => {
                self.white_bb = self.white_bb & !bb;
            },
            Color::Black => {
                self.black_bb = self.black_bb & !bb;
            },
            Color::Empty => {},
        }

        if sq.color != Color::Empty {
            let ci: usize = sq.color.index();
            match sq.piece {
                PieceType::Pawn => {
                    self.pawn_bbs[ci] = self.pawn_bbs[ci] & !bb;
                },
                PieceType::Knight => {
                    self.knight_bbs[ci] = self.knight_bbs[ci] & !bb;
                },
                PieceType::Bishop => {
                    self.bishop_bbs[ci] = self.bishop_bbs[ci] & !bb;
                },
                PieceType::Rook => {
                    self.rook_bbs[ci] = self.rook_bbs[ci] & !bb;
                },
                PieceType::Queen => {
                    self.queen_bbs[ci] = self.queen_bbs[ci] & !bb;
                },
                PieceType::King => {
                    self.king_bbs[ci] = self.king_bbs[ci] & !bb;
                },
                PieceType::Empty => {},
            }
        }

        proof {
            let oldb = *old(self);
            assert forall|c: Color, p: PieceType, s: int|
                c.is_side() && p.is_piece() implies (#[trigger] sq_in(self.piece_bb(c, p), s)
                <==> on_board(s) && self.mailbox[s] == (Square { piece: p, color: c })) by {
                if c == sq.color && p == sq.piece {
                    assert(self.piece_bb(c, p) == oldb.piece_bb(c, p) & !bb);
                } else {
                    assert(self.piece_bb(c, p) == oldb.piece_bb(c, p));
                    assert(sq_in(oldb.piece_bb(c, p), s) <==> on_board(s) && oldb.mailbox[s]
                        == (Square { piece: p, color: c }));
                }
            }
            assert forall|s: int| #[trigger] sq_in(self.white_bb, s) <==> on_board(s)
                && self.mailbox[s].color == Color::White by {
                assert(sq_in(oldb.white_bb, s) <==> on_board(s) && oldb.mailbox[s].color
                    == Color::White);
            }
            assert forall|s: int| #[trigger] sq_in(self.black_bb, s) <==> on_board(s)
                && self.mailbox[s].color == Color::Black by {
                assert(sq_in(oldb.black_bb, s) <==> on_board(s) && oldb.mailbox[s].color
                    == Color::Black);
            }
        }

        (sq.color, sq.piece)
    }

    /// Relocate the piece standing on `from` to `to`, capturing whatever
    /// stood on `to`.
    pub fn move_piece(&mut self, from: usize, to: usize)
        requires
            old(self).wf(),
            from < 64,
            to < 64,
            old(self).mailbox[from as int].is_occupied(),
        ensures
            final(self).wf(),
            final(self).mailbox@ == old(self).mailbox@.update(from as int, Square::spec_empty()).update(
                to as int,
                old(self).mailbox@[from as int],
            ),
            final(self).wtm == old(self).wtm,
            final(self).reversables == old(self).reversables,
            final(self).halfmove_clock == old(self).halfmove_clock,
            final(self).castling_rights == old(self).castling_rights,
    {
        let (color, piece) = self.remove_piece(from);
        self.remove_piece(to);
        self.add_piece(color, piece, to);
    }

    /// The union of both sides' occupancy.
    pub fn get_occupied_squares(&self) -> (r: Bitboard)
        ensures
            r == self.occ(),
    {
        self.white_bb | self.black_bb
    }

    /// The aggregate occupancy of the side opposing `c`.
    pub open spec fn opp_bb(self, c: Color) -> u64
        recommends
            c.is_side(),
    {
        if c == Color::White {
            self.black_bb
        } else {
            self.white_bb
        }
    }

    /// Side `c` has a piece of kind `p` standing on square `f`.
    pub open spec fn has_piece(self, c: Color, p: PieceType, f: int) -> bool {
        on_board(f) && self.mailbox[f] == (Square { piece: p, color: c })
    }

    /// The forward mover of side `c` standing on `f` may move to `t`: a
    /// forward push onto a square empty of both sides, or a diagonal capture
    /// of an opposing piece.
    pub open spec fn pawn_move_ok(self, c: Color, f: int, t: int) -> bool {
        &&& pawn_advance(c, f, t)
        &&& {
            ||| (file_of(t) == file_of(f) && !sq_in(self.occ(), t))
            ||| (file_of(t) != file_of(f) && sq_in(self.opp_bb(c), t))
        }
    }

    /// A piece of kind `p` and side `c` standing on `from` may move to `to`
    /// in this position, whatever the mailbox holds at `from`.
    pub open spec fn piece_moves(self, c: Color, p: PieceType, from: int, to: int) -> bool {
        match p {
            PieceType::Knight => knight_jump(from, to) && !sq_in(self.us_bb(c), to),
            PieceType::King => king_step(from, to) && !sq_in(self.us_bb(c), to),
            PieceType::Bishop => bishop_reaches(self.occ(), from, to) && !sq_in(self.us_bb(c), to),
            PieceType::Rook => rook_reaches(self.occ(), from, to) && !sq_in(self.us_bb(c), to),
            PieceType::Queen => queen_reaches(self.occ(), from, to) && !sq_in(self.us_bb(c), to),
            PieceType::Pawn => self.pawn_move_ok(c, from, to),
            PieceType::Empty => false,
        }
    }

    /// The piece side `c` has standing on `from` may (pseudo-legally) move
    /// to `to`. This is the master movement predicate: no check, pin or
    /// king-safety filtering.
    pub open spec fn moves_from(self, c: Color, from: int, to: int) -> bool {
        &&& on_board(from)
        &&& self.mailbox[from].color == c
        &&& self.piece_moves(c, self.mailbox[from].piece, from, to)
    }

    /// Exec lookup of a side's piece-type bitboard.
    fn get_piece_bb(&self, color: Color, piece: PieceType) -> (r: Bitboard)
        requires
            color.is_side(),
            piece.is_piece(),
        ensures
            r == self.piece_bb(color, piece),
    {
        let ci: usize = color.index();
        match piece {
            PieceType::Pawn => self.pawn_bbs[ci],
            PieceType::Knight => self.knight_bbs[ci],
            PieceType::Bishop => self.bishop_bbs[ci],
            PieceType::Rook => self.rook_bbs[ci],
            PieceType::Queen => self.queen_bbs[ci],
            PieceType::King => self.king_bbs[ci],
            PieceType::Empty => 0u64,
        }
    }

    /// Exec lookup of a side's aggregate occupancy.
    fn get_us_bb(&self, color: Color) -> (r: Bitboard)
        requires
            color.is_side(),
        ensures
            r == self.us_bb(color),
    {
        if matches!(color, Color::White) {
            self.white_bb
        } else {
            self.black_bb
        }
    }

    /// The squares a piece of kind `piece` and side `color` standing on
    /// `from` may move to: table geometry for the leapers, ray casting for
    /// the sliders, the push/capture split for the forward mover.
    fn attacks_of(&self, piece: PieceType, color: Color, from: usize) -> (r: Bitboard)
        requires
            color.is_side(),
            piece.is_piece(),
            from < 64,
        ensures
            forall|t: int| #[trigger]
                sq_in(r, t) <==> self.piece_moves(color, piece, from as int, t),
    {
        let us = self.get_us_bb(color);
        match piece {
            PieceType::Knight => knight_vector(from) & !us,
            PieceType::King => king_vector(from) & !us,
            PieceType::Bishop => self.get_bishop_attacks(from) & !us,
            PieceType::Rook => self.get_rook_attacks(from) & !us,
            PieceType::Queen => (self.get_rook_attacks(from) | self.get_bishop_attacks(from))
                & !us,
            PieceType::Pawn => {
                let vec = pawn_vector(color, from);
                let fm = gen_file_mask((from % 8) as u8);
                let occ = self.get_occupied_squares();
                let opp = if matches!(color, Color::White) {
                    self.black_bb
                } else {
                    self.white_bb
                };
                (vec & fm & !occ) | (vec & !fm & opp)
            },
            PieceType::Empty => 0u64,
        }
    }

    /// Union of the targets of all of `color`'s pieces of kind `piece`.
    pub fn get_piece_type_targets(&self, color: Color, piece: PieceType) -> (r: Bitboard)
        requires
            self.wf(),
            color.is_side(),
            piece.is_piece(),
        ensures
            forall|t: int| #[trigger]
                sq_in(r, t) <==> exists|f: int|
                    #[trigger] self.has_piece(color, piece, f) && self.moves_from(color, f, t),
    {
        let mut pieces = self.get_piece_bb(color, piece);
        let mut bb: u64 = 0;
        while pieces != 0
            invariant
                self.wf(),
                color.is_side(),
                piece.is_piece(),
                forall|j: int| #[trigger]
                    sq_in(pieces, j) ==> sq_in(self.piece_bb(color, piece), j),
                forall|t: int| #[trigger]
                    sq_in(bb, t) <==> exists|f: int|
                        #[trigger] sq_in(self.piece_bb(color, piece), f) && !sq_in(pieces, f)
                            && self.piece_moves(color, piece, f, t),
            decreases pieces,
        {
            let ghost p0 = pieces;
            let ghost bb0 = bb;
            let from = pop_lsb(&mut pieces);
            let att = self.attacks_of(piece, color, from);
            bb = bb | att;
            proof {
                assert forall|t: int| #[trigger]
                    sq_in(bb, t) <==> exists|f: int|
                        #[trigger] sq_in(self.piece_bb(color, piece), f) && !sq_in(pieces, f)
                            && self.piece_moves(color, piece, f, t) by {
                    if sq_in(bb, t) {
                        if sq_in(bb0, t) {
                            let f = choose|f: int|
                                #[trigger] sq_in(self.piece_bb(color, piece), f) && !sq_in(p0, f)
                                    && self.piece_moves(color, piece, f, t);
                            assert(sq_in(self.piece_bb(color, piece), f) && !sq_in(pieces, f)
                                && self.piece_moves(color, piece, f, t));
                        } else {
                            assert(sq_in(att, t));
                            assert(sq_in(self.piece_bb(color, piece), from as int) && !sq_in(
                                pieces,
                                from as int,
                            ) && self.piece_moves(color, piece, from as int, t));
                        }
                    }
                    if exists|f: int|
                        #[trigger] sq_in(self.piece_bb(color, piece), f) && !sq_in(pieces, f)
                            && self.piece_moves(color, piece, f, t) {
                        let f = choose|f: int|
                            #[trigger] sq_in(self.piece_bb(color, piece), f) && !sq_in(pieces, f)
                                && self.piece_moves(color, piece, f, t);
                        if f == from as int {
                            assert(sq_in(att, t));
                        } else {
                            assert(!sq_in(p0, f));
                            assert(sq_in(bb0, t));
                        }
                    }
                }
            }
        }
        proof {
            assert forall|t: int| #[trigger]
                sq_in(bb, t) <==> exists|f: int|
                    #[trigger] self.has_piece(color, piece, f) && self.moves_from(color, f, t) by {
                if sq_in(bb, t) {
                    let f = choose|f: int|
                        #[trigger] sq_in(self.piece_bb(color, piece), f) && !sq_in(pieces, f)
                            && self.piece_moves(color, piece, f, t);
                    assert(self.has_piece(color, piece, f));
                    assert(self.moves_from(color, f, t));
                }
                if exists|f: int|
                    #[trigger] self.has_piece(color, piece, f) && self.moves_from(color, f, t) {
                    let f = choose|f: int|
                        #[trigger] self.has_piece(color, piece, f) && self.moves_from(color, f, t);
                    assert(sq_in(self.piece_bb(color, piece), f));
                    assert(sq_in(bb, t));
                }
            }
        }
        bb
    }

    /// Targets of every jump piece of `color`: table entries, minus squares
    /// held by the mover's own side.
    pub fn get_knight_targets(&self, color: Color) -> (r: Bitboard)
        requires
            self.wf(),
            color.is_side(),
        ensures
            forall|t: int| #[trigger]
                sq_in(r, t) <==> exists|f: int|
                    #[trigger] self.has_piece(color, PieceType::Knight, f) && self.moves_from(
                        color,
                        f,
                        t,
                    ),
    {
        self.get_piece_type_targets(color, PieceType::Knight)
    }

    /// Targets of every adjacency piece of `color`. The loop handles any
    /// number of such pieces, so a position with zero or several of them is
    /// answered correctly rather than left undefined.
    pub fn get_king_targets(&self, color: Color) -> (r: Bitboard)
        requires
            self.wf(),
            color.is_side(),
        ensures
            forall|t: int| #[trigger]
                sq_in(r, t) <==> exists|f: int|
                    #[trigger] self.has_piece(color, PieceType::King, f) && self.moves_from(
                        color,
                        f,
                        t,
                    ),
    {
        self.get_piece_type_targets(color, PieceType::King)
    }

    /// Targets of every long-range diagonal piece of `color`.
    pub fn get_bishop_targets(&self, color: Color) -> (r: Bitboard)
        requires
            self.wf(),
            color.is_side(),
        ensures
            forall|t: int| #[trigger]
                sq_in(r, t) <==> exists|f: int|
                    #[trigger] self.has_piece(color, PieceType::Bishop, f) && self.moves_from(
                        color,
                        f,
                        t,
                    ),
    {
        self.get_piece_type_targets(color, PieceType::Bishop)
    }

    /// Targets of every long-range orthogonal piece of `color`.
    pub fn get_rook_targets(&self, color: Color) -> (r: Bitboard)
        requires
            self.wf(),
            color.is_side(),
        ensures
            forall|t: int| #[trigger]
                sq_in(r, t) <==> exists|f: int|
                    #[trigger] self.has_piece(color, PieceType::Rook, f) && self.moves_from(
                        color,
                        f,
                        t,
                    ),
    {
        self.get_piece_type_targets(color, PieceType::Rook)
    }

    /// Targets of every omnidirectional long-range piece of `color`: the
    /// union of both ray families from each such piece's square.
    pub fn get_queen_targets(&self, color: Color) -> (r: Bitboard)
        requires
            self.wf(),
            color.is_side(),
        ensures
            forall|t: int| #[trigger]
                sq_in(r, t) <==> exists|f: int|
                    #[trigger] self.has_piece(color, PieceType::Queen, f) && self.moves_from(
                        color,
                        f,
                        t,
                    ),
    {
        self.get_piece_type_targets(color, PieceType::Queen)
    }

    /// Targets of every forward mover of `color`: pushes onto empty squares
    /// and diagonal captures of opposing pieces.
    pub fn get_pawn_targets(&self, color: Color) -> (r: Bitboard)
        requires
            self.wf(),
            color.is_side(),
        ensures
            forall|t: int| #[trigger]
                sq_in(r, t) <==> exists|f: int|
                    #[trigger] self.has_piece(color, PieceType::Pawn, f) && self.moves_from(
                        color,
                        f,
                        t,
                    ),
    {
        self.get_piece_type_targets(color, PieceType::Pawn)
    }

    /// Targets of every piece of `color`, over all six piece kinds.
    pub fn get_all_targets(&self, color: Color) -> (r: Bitboard)
        requires
            self.wf(),
            color.is_side(),
        ensures
            forall|t: int| #[trigger]
                sq_in(r, t) <==> exists|f: int| #[trigger] self.moves_from(color, f, t),
    {
        let kn = self.get_knight_targets(color);
        let ki = self.get_king_targets(color);
        let bi = self.get_bishop_targets(color);
        let ro = self.get_rook_targets(color);
        let qu = self.get_queen_targets(color);
        let pa = self.get_pawn_targets(color);
        let r = kn | ki | bi | ro | qu | pa;
        proof {
            assert forall|t: int| #[trigger]
                sq_in(r, t) <==> exists|f: int| #[trigger] self.moves_from(color, f, t) by {
                if exists|f: int| #[trigger] self.moves_from(color, f, t) {
                    let f = choose|f: int| #[trigger] self.moves_from(color, f, t);
                    let p = self.mailbox[f].piece;
                    assert(self.has_piece(color, p, f));
                    match p {
                        PieceType::Knight => assert(sq_in(kn, t)),
                        PieceType::King => assert(sq_in(ki, t)),
                        PieceType::Bishop => assert(sq_in(bi, t)),
                        PieceType::Rook => assert(sq_in(ro, t)),
                        PieceType::Queen => assert(sq_in(qu, t)),
                        PieceType::Pawn => assert(sq_in(pa, t)),
                        PieceType::Empty => assert(false),
                    }
                }
            }
        }
        r
    }

    /// The full pseudo-legal move list for `color`: one encoded token for
    /// every (from, to) pair the movement predicate allows, each pair once.
    /// Insertion order reflects iteration over squares and carries no
    /// meaning; consumers must treat the list as an unordered set.
    pub fn gen_moves(&self, color: Color) -> (moves: Vec<Move>)
        requires
            self.wf(),
            color.is_side(),
        ensures
            moves@.no_duplicates(),
            forall|i: int| 0 <= i < moves@.len() ==> (#[trigger] moves@[i]) < 4096,
            forall|f: int, t: int|
                #![trigger self.moves_from(color, f, t)]
                0 <= f < 64 && 0 <= t < 64 ==> (self.moves_from(color, f, t) <==> moves@.contains(
                    move_code(f, t),
                )),
    {
        let mut moves: Vec<Move> = Vec::new();
        let mut from: usize = 0;
        while from < 64
            invariant
                self.wf(),
                color.is_side(),
                from <= 64,
                moves@.no_duplicates(),
                forall|i: int|
                    0 <= i < moves@.len() ==> (#[trigger] moves@[i]) < 4096 && (moves@[i] as int)
                        % 64 < from,
                forall|f: int, t: int|
                    #![trigger self.moves_from(color, f, t)]
                    0 <= f < from && 0 <= t < 64 ==> (self.moves_from(color, f, t)
                        <==> moves@.contains(move_code(f, t))),
            decreases 64 - from,
        {
            let sqv = self.mailbox[from];
            if sqv.color == color {
                let mut tb = self.attacks_of(sqv.piece, color, from);
                while tb != 0
                    invariant
                        self.wf(),
                        color.is_side(),
                        from < 64,
                        self.mailbox[from as int].color == color,
                        moves@.no_duplicates(),
                        forall|t: int| #[trigger]
                            sq_in(tb, t) ==> self.moves_from(color, from as int, t),
                        forall|i: int|
                            0 <= i < moves@.len() ==> (#[trigger] moves@[i]) < 4096 && (
                            moves@[i] as int) % 64 <= from,
                        forall|f: int, t: int|
                            #![trigger self.moves_from(color, f, t)]
                            0 <= f < from && 0 <= t < 64 ==> (self.moves_from(color, f, t)
                                <==> moves@.contains(move_code(f, t))),
                        forall|t: int|
                            #![trigger move_code(from as int, t)]
                            0 <= t < 64 ==> ((self.moves_from(color, from as int, t) && !sq_in(
                                tb,
                                t,
                            )) <==> moves@.contains(move_code(from as int, t))),
                    decreases tb,
                {
                    let ghost tb0 = tb;
                    let ghost moves0 = moves@;
                    let to = pop_lsb(&mut tb);
                    let m = new_move(from as u8, to as u8);
                    proof {
                        lemma_move_code_parts(from as int, to as int);
                        assert(sq_in(tb0, to as int));
                        assert(!moves0.contains(move_code(from as int, to as int)));
                    }
                    moves.push(m);
                    proof {
                        let fi = from as int;
                        let toi = to as int;
                        assert(moves@ == moves0.push(m));
                        assert(moves@[moves@.len() - 1] == m);
                        assert forall|i: int| 0 <= i < moves@.len() implies (#[trigger] moves@[i])
                            < 4096 && (moves@[i] as int) % 64 <= from by {
                            if i < moves@.len() - 1 {
                                assert(moves@[i] == moves0[i]);
                            } else {
                                lemma_move_code_parts(fi, toi);
                            }
                        }
                        assert forall|f: int, t: int|
                            #![trigger self.moves_from(color, f, t)]
                            0 <= f < from && 0 <= t < 64 implies (self.moves_from(color, f, t)
                            <==> moves@.contains(move_code(f, t))) by {
                            lemma_move_code_parts(f, t);
                            lemma_move_code_parts(fi, toi);
                            assert(move_code(f, t) != m);
                            if moves@.contains(move_code(f, t)) {
                                let i = choose|i: int|
                                    0 <= i < moves@.len() && moves@[i] == move_code(f, t);
                                assert(i < moves0.len() && moves0[i] == moves@[i]);
                                assert(moves0.contains(move_code(f, t)));
                            }
                            if moves0.contains(move_code(f, t)) {
                                let i = choose|i: int|
                                    0 <= i < moves0.len() && moves0[i] == move_code(f, t);
                                assert(moves@[i] == moves0[i]);
                                assert(moves@.contains(move_code(f, t)));
                            }
                        }
                        assert forall|t: int|
                            #![trigger move_code(from as int, t)]
                            0 <= t < 64 implies ((self.moves_from(color, from as int, t) && !sq_in(
                            tb,
                            t,
                        )) <==> moves@.contains(move_code(from as int, t))) by {
                            lemma_move_code_parts(fi, t);
                            lemma_move_code_parts(fi, toi);
                            if t == toi {
                                assert(self.moves_from(color, fi, toi));
                                assert(!sq_in(tb, toi));
                                assert(moves@.contains(move_code(fi, toi)));
                            } else {
                                assert(move_code(fi, t) != m);
                                assert(sq_in(tb, t) <==> sq_in(tb0, t));
                                if self.moves_from(color, fi, t) && !sq_in(tb, t) {
                                    let i = choose|i: int|
                                        0 <= i < moves0.len() && moves0[i] == move_code(fi, t);
                                    assert(moves@[i] == moves0[i]);
                                    assert(moves@.contains(move_code(fi, t)));
                                }
                                if moves@.contains(move_code(fi, t)) {
                                    let i = choose|i: int|
                                        0 <= i < moves@.len() && moves@[i] == move_code(fi, t);
                                    assert(i < moves0.len() && moves0[i] == moves@[i]);
                                    assert(moves0.contains(move_code(fi, t)));
                                }
                            }
                        }
                    }
                }
            }
            proof {
                assert forall|f: int, t: int|
                    #![trigger self.moves_from(color, f, t)]
                    0 <= f < from + 1 && 0 <= t < 64 implies (self.moves_from(color, f, t)
                    <==> moves@.contains(move_code(f, t))) by {
                    lemma_move_code_parts(f, t);
                    if f == from {
                        if self.mailbox[f].color == color {
                        } else {
                            assert(!self.moves_from(color, f, t));
                            if moves@.contains(move_code(f, t)) {
                                let i = choose|i: int|
                                    0 <= i < moves@.len() && moves@[i] == move_code(f, t);
                                assert((moves@[i] as int) % 64 < from);
                                assert(false);
                            }
                        }
                    }
                }
            }
            from = from + 1;
        }
        moves
    }
}

/// Well-formedness reads only the piece placement: two boards that agree on
/// the mailbox and every bitboard are equally well-formed, whatever their
/// side-to-move flag and counters say.
pub proof fn lemma_wf_ignores_scalars(a: Board, b: Board)
    requires
        a.wf(),
        b.pawn_bbs == a.pawn_bbs,
        b.knight_bbs == a.knight_bbs,
        b.bishop_bbs == a.bishop_bbs,
        b.rook_bbs == a.rook_bbs,
        b.queen_bbs == a.queen_bbs,
        b.king_bbs == a.king_bbs,
        b.mailbox == a.mailbox,
        b.white_bb == a.white_bb,
        b.black_bb == a.black_bb,
    ensures
        b.wf(),
{
    assert forall|c: Color, p: PieceType, s: int|
        c.is_side() && p.is_piece() implies (#[trigger] sq_in(b.piece_bb(c, p), s)
        <==> on_board(s) && b.mailbox[s] == (Square { piece: p, color: c })) by {
        assert(b.piece_bb(c, p) == a.piece_bb(c, p));
        assert(sq_in(a.piece_bb(c, p), s) <==> on_board(s) && a.mailbox[s] == (Square {
            piece: p,
            color: c,
        }));
    }
}

/// Invariant consequence: in a well-formed position the two sides' aggregate
/// occupancies never share a square, and a square is in a side's aggregate
/// exactly when the mailbox names that side there.
pub proof fn lemma_aggregates_disjoint(b: Board, s: int)
    requires
        b.wf(),
    ensures
        !(sq_in(b.white_bb, s) && sq_in(b.black_bb, s)),
        sq_in(b.white_bb, s) <==> on_board(s) && b.mailbox[s].color == Color::White,
        sq_in(b.black_bb, s) <==> on_board(s) && b.mailbox[s].color == Color::Black,
{
}

} // verus!
