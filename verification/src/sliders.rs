//! Ray casting for the long-range pieces.
//!
//! A slider's attack set extends along each of its ray directions until the
//! board edge, or until the first occupied square — which is itself part of
//! the set (it blocks or is capturable), while nothing beyond it is.
//! [`rook_reaches`] and [`bishop_reaches`] state that directly: the target
//! shares a line with the origin and every square strictly between the two is
//! empty.

use vstd::prelude::*;

use crate::attack_vectors::dist;
use crate::bitboards::{file_of, group_bitboard_lemmas, on_board, rank_of, sq_in, sq_of};

verus! {

broadcast use group_bitboard_lemmas;

/// Square `u` lies strictly between `s` and `t` on a shared rank or file.
pub open spec fn between_orth(s: int, t: int, u: int) -> bool {
    &&& on_board(u)
    &&& {
        ||| (rank_of(u) == rank_of(s) && rank_of(s) == rank_of(t) && (file_of(s) < file_of(u)
            && file_of(u) < file_of(t) || file_of(t) < file_of(u) && file_of(u) < file_of(s)))
        ||| (file_of(u) == file_of(s) && file_of(s) == file_of(t) && (rank_of(s) < rank_of(u)
            && rank_of(u) < rank_of(t) || rank_of(t) < rank_of(u) && rank_of(u) < rank_of(s)))
    }
}

/// `s` and `t` share the diagonal that runs toward increasing file and rank.
pub open spec fn on_diag(s: int, t: int) -> bool {
    file_of(t) - file_of(s) == rank_of(t) - rank_of(s)
}

/// `s` and `t` share the diagonal that runs toward increasing file and
/// decreasing rank.
pub open spec fn on_antidiag(s: int, t: int) -> bool {
    file_of(t) - file_of(s) == rank_of(s) - rank_of(t)
}

/// Square `u` lies strictly between `s` and `t` on a shared diagonal.
pub open spec fn between_diag(s: int, t: int, u: int) -> bool {
    &&& on_board(u)
    &&& ((on_diag(s, u) && on_diag(s, t)) || (on_antidiag(s, u) && on_antidiag(s, t)))
    &&& (file_of(s) < file_of(u) && file_of(u) < file_of(t) || file_of(t) < file_of(u) && file_of(
        u,
    ) < file_of(s))
}

/// The long-range orthogonal piece at `s` attacks `t`, given the combined
/// occupancy `occ`: `t` shares the rank or file of `s` and every square
/// strictly between the two is empty. `t` itself may be occupied.
pub open spec fn rook_reaches(occ: u64, s: int, t: int) -> bool {
    &&& on_board(s)
    &&& on_board(t)
    &&& t != s
    &&& (rank_of(t) == rank_of(s) || file_of(t) == file_of(s))
    &&& forall|u: int| #[trigger] between_orth(s, t, u) ==> !sq_in(occ, u)
}

/// The long-range diagonal piece at `s` attacks `t`, given the combined
/// occupancy `occ`.
pub open spec fn bishop_reaches(occ: u64, s: int, t: int) -> bool {
    &&& on_board(s)
    &&& on_board(t)
    &&& t != s
    &&& (on_diag(s, t) || on_antidiag(s, t))
    &&& forall|u: int| #[trigger] between_diag(s, t, u) ==> !sq_in(occ, u)
}

/// The omnidirectional long-range piece at `s` attacks `t`: the union of the
/// two ray families from the same origin and occupancy.
pub open spec fn queen_reaches(occ: u64, s: int, t: int) -> bool {
    rook_reaches(occ, s, t) || bishop_reaches(occ, s, t)
}

/// The square `k` steps from `s` along direction (`df`, `dr`).
pub open spec fn ray_sq(s: int, df: int, dr: int, k: int) -> int {
    sq_of(file_of(s) + k * df, rank_of(s) + k * dr)
}

/// The `k`-th step of the ray from `s` along (`df`, `dr`) stays on the board.
pub open spec fn ray_in_bounds(s: int, df: int, dr: int, k: int) -> bool {
    &&& 0 <= file_of(s) + k * df < 8
    &&& 0 <= rank_of(s) + k * dr < 8
}

/// `t` is some step of the ray from `s` along (`df`, `dr`), with every
/// earlier step empty.
pub open spec fn ray_reaches(occ: u64, s: int, df: int, dr: int, t: int) -> bool {
    exists|k: int|
        1 <= k && (#[trigger] ray_sq(s, df, dr, k)) == t && ray_in_bounds(s, df, dr, k) && (
        forall|j: int| 1 <= j < k ==> !sq_in(occ, #[trigger] ray_sq(s, df, dr, j)))
}

/// Multiplying by a direction delta of -1, 0 or 1.
proof fn lemma_mul_small(k: int, d: int)
    by (nonlinear_arith)
    requires
        -1 <= d <= 1,
    ensures
        k * d == if d == 1 {
            k
        } else if d == 0 {
            0int
        } else {
            -k
        },
{
}

/// Walk one ray direction from `sq`, recording each traversed square and
/// stopping on (and including) the first occupied one.
fn ray_attacks(occ: u64, sq: usize, df: i32, dr: i32) -> (res: u64)
    requires
        sq < 64,
        -1 <= df <= 1,
        -1 <= dr <= 1,
        !(df == 0 && dr == 0),
    ensures
        forall|t: int| #[trigger]
            sq_in(res, t) <==> ray_reaches(occ, sq as int, df as int, dr as int, t),
{
    let ghost s = sq as int;
    let ghost dfi = df as int;
    let ghost dri = dr as int;
    let f0: i32 = (sq % 8) as i32;
    let r0: i32 = (sq / 8) as i32;
    let mut bb: u64 = 0;
    let mut f: i32 = f0 + df;
    let mut r: i32 = r0 + dr;
    let mut blocked = false;
    let ghost mut k: int = 1;
    while 0 <= f && f < 8 && 0 <= r && r < 8 && !blocked
        invariant
            sq < 64,
            -1 <= df <= 1,
            -1 <= dr <= 1,
            !(df == 0 && dr == 0),
            s == sq as int,
            dfi == df as int,
            dri == dr as int,
            f0 == file_of(s),
            r0 == rank_of(s),
            1 <= k <= 8,
            f == f0 + k * dfi,
            r == r0 + k * dri,
            forall|j: int| 1 <= j < k ==> ray_in_bounds(s, dfi, dri, j),
            !blocked ==> forall|j: int| 1 <= j < k ==> !sq_in(occ, #[trigger] ray_sq(s, dfi, dri, j)),
            blocked ==> k >= 2 && sq_in(occ, ray_sq(s, dfi, dri, k - 1)) && (forall|j: int|
                1 <= j < k - 1 ==> !sq_in(occ, #[trigger] ray_sq(s, dfi, dri, j))),
            forall|t: int| #[trigger]
                sq_in(bb, t) <==> exists|j: int|
                    1 <= j < k && t == (#[trigger] ray_sq(s, dfi, dri, j)),
        decreases 8 - k,
    {
        let idx: u64 = (r * 8 + f) as u64;
        proof {
            lemma_mul_small(k, dfi);
            lemma_mul_small(k, dri);
            assert(ray_sq(s, dfi, dri, k) == sq_of(f as int, r as int));
            assert(ray_in_bounds(s, dfi, dri, k));
        }
        bb = bb | (1u64 << idx);
        proof {
            assert forall|t: int| #[trigger]
                sq_in(bb, t) <==> (exists|j: int|
                    1 <= j < k + 1 && t == (#[trigger] ray_sq(s, dfi, dri, j))) by {
                if sq_in(bb, t) {
                    if t == idx {
                        assert(1 <= k < k + 1 && t == ray_sq(s, dfi, dri, k));
                    }
                }
            }
        }
        if (occ >> idx) & 1u64 == 1u64 {
            blocked = true;
        }
        f = f + df;
        r = r + dr;
        proof {
            lemma_mul_small(k + 1, dfi);
            lemma_mul_small(k + 1, dri);
            assert(k + 1 <= 8);
            k = k + 1;
        }
    }
    proof {
        assert forall|t: int| #[trigger]
            sq_in(bb, t) <==> ray_reaches(occ, s, dfi, dri, t) by {
            if sq_in(bb, t) {
                let j = choose|j: int| 1 <= j < k && t == ray_sq(s, dfi, dri, j);
                assert(ray_in_bounds(s, dfi, dri, j));
                assert forall|j2: int| 1 <= j2 < j implies !sq_in(
                    occ,
                    #[trigger] ray_sq(s, dfi, dri, j2),
                ) by {
                    if blocked {
                        assert(j2 < k - 1);
                    }
                }
                assert(ray_reaches(occ, s, dfi, dri, t));
            }
            if ray_reaches(occ, s, dfi, dri, t) {
                let k2 = choose|k2: int|
                    1 <= k2 && ray_sq(s, dfi, dri, k2) == t && ray_in_bounds(s, dfi, dri, k2) && (
                    forall|j: int| 1 <= j < k2 ==> !sq_in(occ, #[trigger] ray_sq(s, dfi, dri, j)));
                if k2 >= k {
                    if blocked {
                        assert(sq_in(occ, ray_sq(s, dfi, dri, k - 1)));
                        assert(1 <= k - 1 < k2);
                        assert(false);
                    } else {
                        lemma_mul_small(k, dfi);
                        lemma_mul_small(k, dri);
                        lemma_mul_small(k2, dfi);
                        lemma_mul_small(k2, dri);
                        assert(0 <= file_of(s) + k * dfi < 8);
                        assert(0 <= rank_of(s) + k * dri < 8);
                        assert(false);
                    }
                }
                assert(1 <= k2 < k && t == ray_sq(s, dfi, dri, k2));
                assert(sq_in(bb, t));
            }
        }
    }
    bb
}

/// The orthogonal attack set is exactly the union of the four orthogonal
/// rays.
proof fn lemma_rook_rays(occ: u64, s: int, t: int)
    requires
        on_board(s),
    ensures
        rook_reaches(occ, s, t) <==> (ray_reaches(occ, s, 1, 0, t) || ray_reaches(occ, s, -1, 0, t)
            || ray_reaches(occ, s, 0, 1, t) || ray_reaches(occ, s, 0, -1, t)),
{
    let fs = file_of(s);
    let rs = rank_of(s);
    if ray_reaches(occ, s, 1, 0, t) {
        let k = choose|k: int|
            1 <= k && (#[trigger] ray_sq(s, 1, 0, k)) == t && ray_in_bounds(s, 1, 0, k) && (
            forall|j: int| 1 <= j < k ==> !sq_in(occ, #[trigger] ray_sq(s, 1, 0, j)));
        assert forall|u: int| #[trigger] between_orth(s, t, u) implies !sq_in(occ, u) by {
            let j = file_of(u) - fs;
            assert(u == ray_sq(s, 1, 0, j));
        }
        assert(rook_reaches(occ, s, t));
    }
    if ray_reaches(occ, s, -1, 0, t) {
        let k = choose|k: int|
            1 <= k && (#[trigger] ray_sq(s, -1, 0, k)) == t && ray_in_bounds(s, -1, 0, k) && (
            forall|j: int| 1 <= j < k ==> !sq_in(occ, #[trigger] ray_sq(s, -1, 0, j)));
        assert forall|u: int| #[trigger] between_orth(s, t, u) implies !sq_in(occ, u) by {
            let j = fs - file_of(u);
            assert(u == ray_sq(s, -1, 0, j));
        }
        assert(rook_reaches(occ, s, t));
    }
    if ray_reaches(occ, s, 0, 1, t) {
        let k = choose|k: int|
            1 <= k && (#[trigger] ray_sq(s, 0, 1, k)) == t && ray_in_bounds(s, 0, 1, k) && (
            forall|j: int| 1 <= j < k ==> !sq_in(occ, #[trigger] ray_sq(s, 0, 1, j)));
        assert forall|u: int| #[trigger] between_orth(s, t, u) implies !sq_in(occ, u) by {
            let j = rank_of(u) - rs;
            assert(u == ray_sq(s, 0, 1, j));
        }
        assert(rook_reaches(occ, s, t));
    }
    if ray_reaches(occ, s, 0, -1, t) {
        let k = choose|k: int|
            1 <= k && (#[trigger] ray_sq(s, 0, -1, k)) == t && ray_in_bounds(s, 0, -1, k) && (
            forall|j: int| 1 <= j < k ==> !sq_in(occ, #[trigger] ray_sq(s, 0, -1, j)));
        assert forall|u: int| #[trigger] between_orth(s, t, u) implies !sq_in(occ, u) by {
            let j = rs - rank_of(u);
            assert(u == ray_sq(s, 0, -1, j));
        }
        assert(rook_reaches(occ, s, t));
    }
    if rook_reaches(occ, s, t) {
        let ft = file_of(t);
        let rt = rank_of(t);
        if rt == rs && ft > fs {
            let k = ft - fs;
            assert(ray_sq(s, 1, 0, k) == t);
            assert forall|j: int| 1 <= j < k implies !sq_in(occ, #[trigger] ray_sq(s, 1, 0, j)) by {
                assert(between_orth(s, t, sq_of(fs + j, rs)));
            }
            assert(ray_reaches(occ, s, 1, 0, t));
        } else if rt == rs && ft < fs {
            let k = fs - ft;
            assert(ray_sq(s, -1, 0, k) == t);
            assert forall|j: int| 1 <= j < k implies !sq_in(occ, #[trigger] ray_sq(s, -1, 0, j)) by {
                assert(between_orth(s, t, sq_of(fs - j, rs)));
            }
            assert(ray_reaches(occ, s, -1, 0, t));
        } else if ft == fs && rt > rs {
            let k = rt - rs;
            assert(ray_sq(s, 0, 1, k) == t);
            assert forall|j: int| 1 <= j < k implies !sq_in(occ, #[trigger] ray_sq(s, 0, 1, j)) by {
                assert(between_orth(s, t, sq_of(fs, rs + j)));
            }
            assert(ray_reaches(occ, s, 0, 1, t));
        } else {
            let k = rs - rt;
            assert(ft == fs && rt < rs);
            assert(ray_sq(s, 0, -1, k) == t);
            assert forall|j: int| 1 <= j < k implies !sq_in(occ, #[trigger] ray_sq(s, 0, -1, j)) by {
                assert(between_orth(s, t, sq_of(fs, rs - j)));
            }
            assert(ray_reaches(occ, s, 0, -1, t));
        }
    }
}

/// The diagonal attack set is exactly the union of the four diagonal rays.
proof fn lemma_bishop_rays(occ: u64, s: int, t: int)
    requires
        on_board(s),
    ensures
        bishop_reaches(occ, s, t) <==> (ray_reaches(occ, s, 1, 1, t) || ray_reaches(
            occ,
            s,
            -1,
            -1,
            t,
        ) || ray_reaches(occ, s, 1, -1, t) || ray_reaches(occ, s, -1, 1, t)),
{
    let fs = file_of(s);
    let rs = rank_of(s);
    if ray_reaches(occ, s, 1, 1, t) {
        let k = choose|k: int|
            1 <= k && (#[trigger] ray_sq(s, 1, 1, k)) == t && ray_in_bounds(s, 1, 1, k) && (
            forall|j: int| 1 <= j < k ==> !sq_in(occ, #[trigger] ray_sq(s, 1, 1, j)));
        assert forall|u: int| #[trigger] between_diag(s, t, u) implies !sq_in(occ, u) by {
            let j = file_of(u) - fs;
            assert(u == ray_sq(s, 1, 1, j));
        }
        assert(bishop_reaches(occ, s, t));
    }
    if ray_reaches(occ, s, -1, -1, t) {
        let k = choose|k: int|
            1 <= k && (#[trigger] ray_sq(s, -1, -1, k)) == t && ray_in_bounds(s, -1, -1, k) && (
            forall|j: int| 1 <= j < k ==> !sq_in(occ, #[trigger] ray_sq(s, -1, -1, j)));
        assert forall|u: int| #[trigger] between_diag(s, t, u) implies !sq_in(occ, u) by {
            let j = fs - file_of(u);
            assert(u == ray_sq(s, -1, -1, j));
        }
        assert(bishop_reaches(occ, s, t));
    }
    if ray_reaches(occ, s, 1, -1, t) {
        let k = choose|k: int|
            1 <= k && (#[trigger] ray_sq(s, 1, -1, k)) == t && ray_in_bounds(s, 1, -1, k) && (
            forall|j: int| 1 <= j < k ==> !sq_in(occ, #[trigger] ray_sq(s, 1, -1, j)));
        assert forall|u: int| #[trigger] between_diag(s, t, u) implies !sq_in(occ, u) by {
            let j = file_of(u) - fs;
            assert(u == ray_sq(s, 1, -1, j));
        }
        assert(bishop_reaches(occ, s, t));
    }
    if ray_reaches(occ, s, -1, 1, t) {
        let k = choose|k: int|
            1 <= k && (#[trigger] ray_sq(s, -1, 1, k)) == t && ray_in_bounds(s, -1, 1, k) && (
            forall|j: int| 1 <= j < k ==> !sq_in(occ, #[trigger] ray_sq(s, -1, 1, j)));
        assert forall|u: int| #[trigger] between_diag(s, t, u) implies !sq_in(occ, u) by {
            let j = fs - file_of(u);
            assert(u == ray_sq(s, -1, 1, j));
        }
        assert(bishop_reaches(occ, s, t));
    }
    if bishop_reaches(occ, s, t) {
        let ft = file_of(t);
        let rt = rank_of(t);
        if on_diag(s, t) && ft > fs {
            let k = ft - fs;
            assert(ray_sq(s, 1, 1, k) == t);
            assert forall|j: int| 1 <= j < k implies !sq_in(occ, #[trigger] ray_sq(s, 1, 1, j)) by {
                assert(between_diag(s, t, sq_of(fs + j, rs + j)));
            }
            assert(ray_reaches(occ, s, 1, 1, t));
        } else if on_diag(s, t) && ft < fs {
            let k = fs - ft;
            assert(ray_sq(s, -1, -1, k) == t);
            assert forall|j: int| 1 <= j < k implies !sq_in(
                occ,
                #[trigger] ray_sq(s, -1, -1, j),
            ) by {
                assert(between_diag(s, t, sq_of(fs - j, rs - j)));
            }
            assert(ray_reaches(occ, s, -1, -1, t));
        } else if on_antidiag(s, t) && ft > fs {
            let k = ft - fs;
            assert(ray_sq(s, 1, -1, k) == t);
            assert forall|j: int| 1 <= j < k implies !sq_in(occ, #[trigger] ray_sq(s, 1, -1, j)) by {
                assert(between_diag(s, t, sq_of(fs + j, rs - j)));
            }
            assert(ray_reaches(occ, s, 1, -1, t));
        } else {
            let k = fs - ft;
            assert(on_antidiag(s, t) && ft < fs);
            assert(ray_sq(s, -1, 1, k) == t);
            assert forall|j: int| 1 <= j < k implies !sq_in(occ, #[trigger] ray_sq(s, -1, 1, j)) by {
                assert(between_diag(s, t, sq_of(fs - j, rs + j)));
            }
            assert(ray_reaches(occ, s, -1, 1, t));
        }
    }
}

/// On an empty board a ray reaches the board edge: a slider attacks every
/// other square of its lines, nothing else.
pub proof fn lemma_empty_board_reach(s: int, t: int)
    ensures
        rook_reaches(0u64, s, t) <==> (on_board(s) && on_board(t) && t != s && (rank_of(t)
            == rank_of(s) || file_of(t) == file_of(s))),
        bishop_reaches(0u64, s, t) <==> (on_board(s) && on_board(t) && t != s && (on_diag(s, t)
            || on_antidiag(s, t))),
{
}

/// On a fully occupied board the long-range orthogonal piece attacks exactly
/// the adjacent squares of its rank and file.
pub proof fn lemma_full_board_reach(occ: u64, s: int, t: int)
    requires
        forall|u: int| on_board(u) ==> sq_in(occ, u),
    ensures
        rook_reaches(occ, s, t) <==> (on_board(s) && on_board(t) && (rank_of(t) == rank_of(s)
            && dist(file_of(t), file_of(s)) == 1 || file_of(t) == file_of(s) && dist(
            rank_of(t),
            rank_of(s),
        ) == 1)),
{
    let fs = file_of(s);
    let rs = rank_of(s);
    let ft = file_of(t);
    let rt = rank_of(t);
    if rook_reaches(occ, s, t) {
        if rt == rs && dist(ft, fs) >= 2 {
            let fm = if fs < ft {
                fs + 1
            } else {
                ft + 1
            };
            assert(between_orth(s, t, sq_of(fm, rs)));
            assert(false);
        }
        if ft == fs && dist(rt, rs) >= 2 {
            let rm = if rs < rt {
                rs + 1
            } else {
                rt + 1
            };
            assert(between_orth(s, t, sq_of(fs, rm)));
            assert(false);
        }
    }
    if on_board(s) && on_board(t) && (rt == rs && dist(ft, fs) == 1 || ft == fs && dist(rt, rs)
        == 1) {
        assert forall|u: int| #[trigger] between_orth(s, t, u) implies !sq_in(occ, u) by {
            assert(false);
        }
        assert(rook_reaches(occ, s, t));
    }
}

/// Blocker inclusion: a square on the origin's rank, file or diagonal whose
/// approach is clear is attacked, whether or not it is itself occupied — the
/// first occupied square of a ray is part of the attack set.
pub proof fn lemma_blocker_included(occ: u64, s: int, b: int)
    requires
        on_board(s),
        on_board(b),
        b != s,
        forall|u: int| #[trigger] between_orth(s, b, u) ==> !sq_in(occ, u),
        forall|u: int| #[trigger] between_diag(s, b, u) ==> !sq_in(occ, u),
    ensures
        rank_of(b) == rank_of(s) || file_of(b) == file_of(s) ==> rook_reaches(occ, s, b),
        on_diag(s, b) || on_antidiag(s, b) ==> bishop_reaches(occ, s, b),
{
}

/// Blocker exclusion: no square strictly beyond an occupied square of a ray
/// is attacked along that ray.
pub proof fn lemma_beyond_blocker_excluded(occ: u64, s: int, b: int, t: int)
    requires
        sq_in(occ, b),
    ensures
        between_orth(s, t, b) ==> !rook_reaches(occ, s, t),
        between_diag(s, t, b) ==> !bishop_reaches(occ, s, t),
{
}

impl crate::board::Board {
    /// Attack set of a long-range orthogonal piece standing on `index`,
    /// given this position's combined occupancy.
    pub fn get_rook_attacks(&self, index: usize) -> (r: u64)
        requires
            index < 64,
        ensures
            forall|t: int| #[trigger] sq_in(r, t) <==> rook_reaches(self.occ(), index as int, t),
    {
        let occ = self.get_occupied_squares();
        let east = ray_attacks(occ, index, 1, 0);
        let west = ray_attacks(occ, index, -1, 0);
        let north = ray_attacks(occ, index, 0, 1);
        let south = ray_attacks(occ, index, 0, -1);
        let res = east | west | north | south;
        proof {
            assert forall|t: int| #[trigger]
                sq_in(res, t) <==> rook_reaches(self.occ(), index as int, t) by {
                lemma_rook_rays(occ, index as int, t);
            }
        }
        res
    }

    /// Attack set of a long-range diagonal piece standing on `index`, given
    /// this position's combined occupancy.
    pub fn get_bishop_attacks(&self, index: usize) -> (r: u64)
        requires
            index < 64,
        ensures
            forall|t: int| #[trigger] sq_in(r, t) <==> bishop_reaches(self.occ(), index as int, t),
    {
        let occ = self.get_occupied_squares();
        let ne = ray_attacks(occ, index, 1, 1);
        let sw = ray_attacks(occ, index, -1, -1);
        let se = ray_attacks(occ, index, 1, -1);
        let nw = ray_attacks(occ, index, -1, 1);
        let res = ne | sw | se | nw;
        proof {
            assert forall|t: int| #[trigger]
                sq_in(res, t) <==> bishop_reaches(self.occ(), index as int, t) by {
                lemma_bishop_rays(occ, index as int, t);
            }
        }
        res
    }
}

} // verus!
