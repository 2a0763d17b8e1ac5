//! The packed move token.
//!
//! Bits 0-5 hold the from-square and bits 6-11 the to-square; the remaining
//! bits are reserved for future flags (captures, movers, promotions) and are
//! never populated by the generator here.

use vstd::prelude::*;

verus! {

/// An encoded (from, to) move: an opaque, freely copyable value type.
pub type Move = u32;

/// An ordered sequence of encoded moves; the order carries no meaning.
pub type MoveList = Vec<Move>;

/// The from-square packed in a move token.
pub open spec fn move_from_sq(m: u32) -> u32 {
    m & 63
}

/// The to-square packed in a move token.
pub open spec fn move_to_sq(m: u32) -> u32 {
    (m >> 6) & 63
}

/// The token packing `from` in bits 0-5 and `to` in bits 6-11.
pub open spec fn make_move(from: u32, to: u32) -> u32 {
    from | (to << 6)
}

/// Move-encoding round-trip: for every from- and to-square, decoding the
/// encoded pair gives the pair back, and the token equals `from + 64 * to`.
pub proof fn lemma_move_round_trip(from: u32, to: u32)
    by (bit_vector)
    requires
        from < 64,
        to < 64,
    ensures
        move_from_sq(make_move(from, to)) == from,
        move_to_sq(make_move(from, to)) == to,
        make_move(from, to) == from + 64 * to,
{
}

/// The token value of a (from, to) pair, as a function of the two square
/// indices.
pub open spec fn move_code(from: int, to: int) -> u32 {
    (from + 64 * to) as u32
}

/// A move token splits back into its from- and to-parts.
pub proof fn lemma_move_code_parts(f: int, t: int)
    by (nonlinear_arith)
    requires
        0 <= f < 64,
        0 <= t < 64,
    ensures
        move_code(f, t) == f + 64 * t,
        move_code(f, t) < 4096,
        (move_code(f, t) as int) % 64 == f,
        (move_code(f, t) as int) / 64 == t,
{
}

/// Pack a (from, to) pair into one move token.
pub fn new_move(from: u8, to: u8) -> (m: Move)
    requires
        from < 64,
        to < 64,
    ensures
        m == make_move(from as u32, to as u32),
        m == move_code(from as int, to as int),
        move_from_sq(m) == from,
        move_to_sq(m) == to,
{
    proof {
        lemma_move_round_trip(from as u32, to as u32);
        lemma_move_code_parts(from as int, to as int);
    }
    from as u32 | ((to as u32) << 6)
}

/// Unpack a move token into its (from, to) pair, ignoring any flag bits.
pub fn decode_move(m: Move) -> (r: (u8, u8))
    ensures
        r.0 as u32 == move_from_sq(m),
        r.1 as u32 == move_to_sq(m),
        r.0 < 64,
        r.1 < 64,
{
    proof {
        assert(m & 63 < 64 && (m >> 6) & 63 < 64) by (bit_vector);
    }
    ((m & 63) as u8, ((m >> 6) & 63) as u8)
}

} // verus!
