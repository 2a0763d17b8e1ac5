//! File and rank masks, used to split the forward mover's push targets from
//! its capture targets.

use vstd::prelude::*;

use crate::bitboards::{file_of, group_bitboard_lemmas, on_board, rank_of, sq_in, Bitboard};
use crate::board::idx_from_file_rank;

verus! {

broadcast use group_bitboard_lemmas;

/// The bitboard of all 8 squares on file `file`.
pub fn gen_file_mask(file: u8) -> (r: Bitboard)
    requires
        file < 8,
    ensures
        forall|t: int| #[trigger] sq_in(r, t) <==> on_board(t) && file_of(t) == file,
{
    let mut bb: u64 = 0;
    let mut rk: u8 = 0;
    while rk < 8
        invariant
            file < 8,
            rk <= 8,
            forall|t: int| #[trigger]
                sq_in(bb, t) <==> on_board(t) && file_of(t) == file && rank_of(t) < rk,
        decreases 8 - rk,
    {
        let idx = idx_from_file_rank(file, rk);
        bb = bb | (1u64 << (idx as u64));
        rk = rk + 1;
    }
    bb
}

/// The bitboard of all 8 squares on rank `rank`.
pub fn gen_rank_mask(rank: u8) -> (r: Bitboard)
    requires
        rank < 8,
    ensures
        forall|t: int| #[trigger] sq_in(r, t) <==> on_board(t) && rank_of(t) == rank,
{
    let mut bb: u64 = 0;
    let mut fl: u8 = 0;
    while fl < 8
        invariant
            rank < 8,
            fl <= 8,
            forall|t: int| #[trigger]
                sq_in(bb, t) <==> on_board(t) && rank_of(t) == rank && file_of(t) < fl,
        decreases 8 - fl,
    {
        let idx = idx_from_file_rank(fl, rank);
        bb = bb | (1u64 << (idx as u64));
        fl = fl + 1;
    }
    bb
}

} // verus!
