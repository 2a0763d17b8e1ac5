//! The bitboard type and its square-set model.
//!
//! A bitboard is a `u64` in which bit `i` flags board square `i`, with
//! `file = i % 8` and `rank = i / 8` (square 0 = file a / rank 1, square 63 =
//! file h / rank 8). The spec function [`sq_in`] is the model every contract
//! in this crate is stated over.

use vstd::prelude::*;

verus! {

/// A 64-bit board-set value; bit `i` stands for square `i`.
pub type Bitboard = u64;

/// Square `s` is a member of the bitboard `bb`.
pub open spec fn sq_in(bb: u64, s: int) -> bool {
    0 <= s < 64 && (bb >> (s as u64)) & 1u64 == 1u64
}

/// `s` is a valid square index.
pub open spec fn on_board(s: int) -> bool {
    0 <= s < 64
}

/// The file (column, 0-7) of square `s`.
pub open spec fn file_of(s: int) -> int {
    s % 8
}

/// The rank (row, 0-7) of square `s`.
pub open spec fn rank_of(s: int) -> int {
    s / 8
}

/// The square with file `f` and rank `r`.
pub open spec fn sq_of(f: int, r: int) -> int {
    8 * r + f
}

/// A square is its rank and file put back together, and both are in range.
pub broadcast proof fn lemma_sq_decompose(s: int)
    requires
        on_board(s),
    ensures
        #![trigger file_of(s)]
        #![trigger rank_of(s)]
        sq_of(file_of(s), rank_of(s)) == s,
        0 <= file_of(s) < 8,
        0 <= rank_of(s) < 8,
{
}

/// Rank and file of a composed square index.
pub broadcast proof fn lemma_sq_compose(f: int, r: int)
    requires
        0 <= f < 8,
        0 <= r < 8,
    ensures
        #![trigger sq_of(f, r)]
        file_of(sq_of(f, r)) == f,
        rank_of(sq_of(f, r)) == r,
        on_board(sq_of(f, r)),
{
    assert(file_of(8 * r + f) == f && rank_of(8 * r + f) == r) by (nonlinear_arith)
        requires
            0 <= f < 8,
            0 <= r < 8,
    ;
}

/// Membership in a union of bitboards.
pub broadcast proof fn lemma_sq_in_or(a: u64, b: u64, s: int)
    ensures
        #[trigger] sq_in(a | b, s) <==> sq_in(a, s) || sq_in(b, s),
{
    if 0 <= s < 64 {
        let u = s as u64;
        assert((((a | b) >> u) & 1u64 == 1u64) <==> (((a >> u) & 1u64 == 1u64) || ((b >> u)
            & 1u64 == 1u64))) by (bit_vector)
            requires
                u < 64u64,
        ;
    }
}

/// Membership in an intersection of bitboards.
pub broadcast proof fn lemma_sq_in_and(a: u64, b: u64, s: int)
    ensures
        #[trigger] sq_in(a & b, s) <==> sq_in(a, s) && sq_in(b, s),
{
    if 0 <= s < 64 {
        let u = s as u64;
        assert((((a & b) >> u) & 1u64 == 1u64) <==> (((a >> u) & 1u64 == 1u64) && ((b >> u)
            & 1u64 == 1u64))) by (bit_vector)
            requires
                u < 64u64,
        ;
    }
}

/// Membership in a complemented bitboard.
pub broadcast proof fn lemma_sq_in_not(a: u64, s: int)
    ensures
        #[trigger] sq_in(!a, s) <==> on_board(s) && !sq_in(a, s),
{
    if 0 <= s < 64 {
        let u = s as u64;
        assert((((!a) >> u) & 1u64 == 1u64) <==> !((a >> u) & 1u64 == 1u64)) by (bit_vector)
            requires
                u < 64u64,
        ;
    }
}

/// A single-square bitboard holds exactly that square.
pub broadcast proof fn lemma_sq_in_single(j: u64, s: int)
    requires
        j < 64,
    ensures
        #[trigger] sq_in(1u64 << j, s) <==> s == j,
{
    if 0 <= s < 64 {
        let u = s as u64;
        assert((((1u64 << j) >> u) & 1u64 == 1u64) <==> u == j) by (bit_vector)
            requires
                u < 64u64 && j < 64u64,
        ;
    }
}

/// The empty bitboard has no members.
pub broadcast proof fn lemma_sq_in_zero(s: int)
    ensures
        !(#[trigger] sq_in(0u64, s)),
{
    if 0 <= s < 64 {
        let u = s as u64;
        assert((0u64 >> u) & 1u64 == 0u64) by (bit_vector);
    }
}

pub broadcast group group_bitboard_lemmas {
    lemma_sq_decompose,
    lemma_sq_compose,
    lemma_sq_in_or,
    lemma_sq_in_and,
    lemma_sq_in_not,
    lemma_sq_in_single,
    lemma_sq_in_zero,
}

/// Number of members of `bb` with index below `n`.
pub open spec fn count_below(bb: u64, n: int) -> int
    decreases n,
{
    if n <= 0 {
        0
    } else {
        count_below(bb, n - 1) + if sq_in(bb, n - 1) {
            1int
        } else {
            0int
        }
    }
}

/// Number of members (set bits) of `bb`.
pub open spec fn bb_count(bb: u64) -> int {
    count_below(bb, 64)
}

/// Population count: how many squares the bitboard holds.
pub fn count(bb: u64) -> (r: i32)
    ensures
        r == bb_count(bb),
{
    let mut c: i32 = 0;
    let mut i: u64 = 0;
    while i < 64
        invariant
            0 <= i <= 64,
            c == count_below(bb, i as int),
            c <= i,
        decreases 64 - i,
    {
        if (bb >> i) & 1u64 == 1u64 {
            c = c + 1;
        }
        i = i + 1;
    }
    c
}

/// Removes the lowest member of `bb` and returns its index; on the empty
/// bitboard returns the sentinel 65 and leaves the bitboard unchanged.
pub fn pop_lsb(bb: &mut u64) -> (r: usize)
    ensures
        *old(bb) == 0 ==> r == 65 && *final(bb) == 0,
        *old(bb) != 0 ==> {
            &&& r < 64
            &&& sq_in(*old(bb), r as int)
            &&& forall|j: int| 0 <= j < r ==> !sq_in(*old(bb), j)
            &&& forall|j: int| #[trigger] sq_in(*final(bb), j) <==> sq_in(*old(bb), j) && j != r
            &&& *final(bb) < *old(bb)
        },
{
    let x = *bb;
    let tz = x.trailing_zeros();
    if tz >= 64 {
        return 65;
    }
    let k = tz as u64;
    *bb = x ^ (1u64 << k);
    proof {
        assert((x >> k) & 1u64 == 1u64);
        assert forall|j: int| 0 <= j < k implies !sq_in(x, j) by {
            assert((x >> (j as u64)) & 1u64 == 0u64);
        }
        assert forall|j: int| #[trigger] sq_in(x ^ (1u64 << k), j) <==> sq_in(x, j) && j != k by {
            if 0 <= j < 64 {
                let u = j as u64;
                assert((((x ^ (1u64 << k)) >> u) & 1u64 == 1u64) <==> (((x >> u) & 1u64 == 1u64)
                    && u != k)) by (bit_vector)
                    requires
                        u < 64u64 && k < 64u64 && (x >> k) & 1u64 == 1u64,
                ;
            }
        }
        assert((x ^ (1u64 << k)) < x) by (bit_vector)
            requires
                k < 64u64 && (x >> k) & 1u64 == 1u64,
        ;
    }
    tz as usize
}

} // verus!
