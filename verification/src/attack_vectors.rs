//! Leaper movement geometry and the precomputed per-square attack tables.
//!
//! A leaper's reachable squares depend only on its own square. Wraparound
//! across a file or rank boundary is ruled out by comparing file and rank
//! coordinates, never by masking a shifted bit pattern.

use vstd::prelude::*;

use crate::bitboards::{file_of, group_bitboard_lemmas, on_board, rank_of, sq_in, sq_of};
use crate::enums::Color;

verus! {

broadcast use group_bitboard_lemmas;

/// Distance between two coordinates.
pub open spec fn dist(a: int, b: int) -> int {
    if a >= b {
        a - b
    } else {
        b - a
    }
}

/// The jump piece reaches `b` from `a`: one square one way, two the other.
pub open spec fn knight_jump(a: int, b: int) -> bool {
    &&& on_board(a)
    &&& on_board(b)
    &&& {
        let df = dist(file_of(a), file_of(b));
        let dr = dist(rank_of(a), rank_of(b));
        (df == 1 && dr == 2) || (df == 2 && dr == 1)
    }
}

/// The adjacency piece reaches `b` from `a`: any immediate neighbor.
pub open spec fn king_step(a: int, b: int) -> bool {
    &&& on_board(a)
    &&& on_board(b)
    &&& a != b
    &&& dist(file_of(a), file_of(b)) <= 1
    &&& dist(rank_of(a), rank_of(b)) <= 1
}

/// The single-step forward mover of side `c` steps from `a` to `b`: one rank
/// forward (up for white, down for black), staying on the same file or one
/// file aside.
pub open spec fn pawn_advance(c: Color, a: int, b: int) -> bool {
    &&& on_board(a)
    &&& on_board(b)
    &&& c.is_side()
    &&& rank_of(b) - rank_of(a) == if c == Color::White {
        1int
    } else {
        -1int
    }
    &&& dist(file_of(a), file_of(b)) <= 1
}

/// Adds the square at (`f`, `r`) to the bitboard, or leaves it unchanged when
/// the coordinates fall off the board.
fn add_sq(bb: u64, f: i32, r: i32) -> (res: u64)
    ensures
        forall|t: int| #[trigger]
            sq_in(res, t) <==> sq_in(bb, t) || (0 <= f < 8 && 0 <= r < 8 && t == sq_of(
                f as int,
                r as int,
            )),
{
    if 0 <= f && f < 8 && 0 <= r && r < 8 {
        let idx: u64 = (r * 8 + f) as u64;
        bb | (1u64 << idx)
    } else {
        bb
    }
}

/// All squares the jump piece reaches from `sq`: the table entry for `sq`.
pub fn knight_vector(sq: usize) -> (r: u64)
    requires
        sq < 64,
    ensures
        forall|t: int| #[trigger] sq_in(r, t) <==> knight_jump(sq as int, t),
{
    let f: i32 = (sq % 8) as i32;
    let rk: i32 = (sq / 8) as i32;
    let mut bb: u64 = 0;
    bb = add_sq(bb, f - 2, rk - 1);
    bb = add_sq(bb, f - 2, rk + 1);
    bb = add_sq(bb, f - 1, rk - 2);
    bb = add_sq(bb, f - 1, rk + 2);
    bb = add_sq(bb, f + 1, rk - 2);
    bb = add_sq(bb, f + 1, rk + 2);
    bb = add_sq(bb, f + 2, rk - 1);
    bb = add_sq(bb, f + 2, rk + 1);
    bb
}

/// All squares the adjacency piece reaches from `sq`: the table entry for
/// `sq`.
pub fn king_vector(sq: usize) -> (r: u64)
    requires
        sq < 64,
    ensures
        forall|t: int| #[trigger] sq_in(r, t) <==> king_step(sq as int, t),
{
    let f: i32 = (sq % 8) as i32;
    let rk: i32 = (sq / 8) as i32;
    let mut bb: u64 = 0;
    bb = add_sq(bb, f - 1, rk - 1);
    bb = add_sq(bb, f - 1, rk);
    bb = add_sq(bb, f - 1, rk + 1);
    bb = add_sq(bb, f, rk - 1);
    bb = add_sq(bb, f, rk + 1);
    bb = add_sq(bb, f + 1, rk - 1);
    bb = add_sq(bb, f + 1, rk);
    bb = add_sq(bb, f + 1, rk + 1);
    bb
}

/// All squares the forward mover of side `color` steps to from `sq` — the
/// forward push square and both diagonal squares; push/capture classification
/// is resolved at generation time.
pub fn pawn_vector(color: Color, sq: usize) -> (r: u64)
    requires
        color.is_side(),
        sq < 64,
    ensures
        forall|t: int| #[trigger] sq_in(r, t) <==> pawn_advance(color, sq as int, t),
{
    let f: i32 = (sq % 8) as i32;
    let rk: i32 = (sq / 8) as i32;
    let fwd: i32 = if matches!(color, Color::White) {
        rk + 1
    } else {
        rk - 1
    };
    let mut bb: u64 = 0;
    bb = add_sq(bb, f - 1, fwd);
    bb = add_sq(bb, f, fwd);
    bb = add_sq(bb, f + 1, fwd);
    bb
}

/// The process-wide immutable attack tables: for every square, the squares a
/// leaper there could reach on an otherwise empty board. Built once by
/// [`AttackTables::new`] and passed by reference; never mutated afterward.
pub struct AttackTables {
    /// Jump-piece entries.
    pub knight: [u64; 64],
    /// Adjacency-piece entries.
    pub king: [u64; 64],
    /// Forward-mover entries for white.
    pub white_pawn: [u64; 64],
    /// Forward-mover entries for black.
    pub black_pawn: [u64; 64],
}

impl AttackTables {
    /// Every entry matches the movement geometry of its piece.
    pub open spec fn wf(self) -> bool {
        &&& forall|i: int, t: int|
            0 <= i < 64 ==> (#[trigger] sq_in(self.knight@[i], t) <==> knight_jump(i, t))
        &&& forall|i: int, t: int|
            0 <= i < 64 ==> (#[trigger] sq_in(self.king@[i], t) <==> king_step(i, t))
        &&& forall|i: int, t: int|
            0 <= i < 64 ==> (#[trigger] sq_in(self.white_pawn@[i], t) <==> pawn_advance(
                Color::White,
                i,
                t,
            ))
        &&& forall|i: int, t: int|
            0 <= i < 64 ==> (#[trigger] sq_in(self.black_pawn@[i], t) <==> pawn_advance(
                Color::Black,
                i,
                t,
            ))
    }

    /// Precompute all four tables from pure geometry.
    pub fn new() -> (tables: AttackTables)
        ensures
            tables.wf(),
    {
        let mut tables = AttackTables {
            knight: [0u64; 64],
            king: [0u64; 64],
            white_pawn: [0u64; 64],
            black_pawn: [0u64; 64],
        };
        let mut i: usize = 0;
        while i < 64
            invariant
                i <= 64,
                forall|j: int, t: int|
                    0 <= j < i ==> (#[trigger] sq_in(tables.knight@[j], t) <==> knight_jump(j, t)),
                forall|j: int, t: int|
                    0 <= j < i ==> (#[trigger] sq_in(tables.king@[j], t) <==> king_step(j, t)),
                forall|j: int, t: int|
                    0 <= j < i ==> (#[trigger] sq_in(tables.white_pawn@[j], t) <==> pawn_advance(
                        Color::White,
                        j,
                        t,
                    )),
                forall|j: int, t: int|
                    0 <= j < i ==> (#[trigger] sq_in(tables.black_pawn@[j], t) <==> pawn_advance(
                        Color::Black,
                        j,
                        t,
                    )),
            decreases 64 - i,
        {
            tables.knight[i] = knight_vector(i);
            tables.king[i] = king_vector(i);
            tables.white_pawn[i] = pawn_vector(Color::White, i);
            tables.black_pawn[i] = pawn_vector(Color::Black, i);
            i = i + 1;
        }
        tables
    }
}

/// Leaper symmetry: the jump piece and the adjacency piece reach `j` from `i`
/// exactly when they reach `i` from `j`.
pub proof fn lemma_leaper_symmetry(i: int, j: int)
    ensures
        knight_jump(i, j) <==> knight_jump(j, i),
        king_step(i, j) <==> king_step(j, i),
{
}

/// Leaper table symmetry: square `j` appears in the table entry for square
/// `i` iff `i` appears in the entry for `j`, for both the jump-piece table
/// and the adjacency-piece table.
pub proof fn lemma_table_symmetry(tables: AttackTables, i: int, j: int)
    requires
        tables.wf(),
        0 <= i < 64,
        0 <= j < 64,
    ensures
        sq_in(tables.knight@[i], j) <==> sq_in(tables.knight@[j], i),
        sq_in(tables.king@[i], j) <==> sq_in(tables.king@[j], i),
{
}

} // verus!
