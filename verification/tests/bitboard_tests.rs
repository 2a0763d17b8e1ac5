use chess_core::bitboards::{count, pop_lsb};
use chess_core::board::{idx_from_file_rank, idx_to_file_rank};
use chess_core::pseudolegals::{gen_file_mask, gen_rank_mask};

fn bit(bb: u64, i: u64) -> bool {
    (bb >> i) & 1 == 1
}

#[test]
fn pop_lsb_empty_returns_sentinel() {
    let mut bb: u64 = 0;
    assert_eq!(pop_lsb(&mut bb), 65);
    assert_eq!(bb, 0);
}

#[test]
fn pop_lsb_returns_lowest_and_clears_it() {
    let mut bb: u64 = 0b1010_1000;
    assert_eq!(pop_lsb(&mut bb), 3);
    assert_eq!(bb, 0b1010_0000);
    assert_eq!(pop_lsb(&mut bb), 5);
    assert_eq!(pop_lsb(&mut bb), 7);
    assert_eq!(pop_lsb(&mut bb), 65);
    assert_eq!(bb, 0);
}

#[test]
fn pop_lsb_highest_bit() {
    let mut bb: u64 = 1u64 << 63;
    assert_eq!(pop_lsb(&mut bb), 63);
    assert_eq!(bb, 0);
}

#[test]
fn count_counts_set_bits() {
    assert_eq!(count(0), 0);
    assert_eq!(count(1), 1);
    assert_eq!(count(u64::MAX), 64);
    assert_eq!(count(0b1011), 3);
    assert_eq!(count(1u64 << 63), 1);
}

#[test]
fn idx_round_trips_through_file_rank() {
    for idx in 0u8..64 {
        let (f, r) = idx_to_file_rank(idx);
        assert!(f < 8 && r < 8);
        assert_eq!(f, idx % 8);
        assert_eq!(r, idx / 8);
        assert_eq!(idx_from_file_rank(f, r), idx);
    }
}

#[test]
fn file_mask_holds_exactly_its_file() {
    for file in 0u8..8 {
        let m = gen_file_mask(file);
        assert_eq!(count(m), 8);
        for sq in 0u64..64 {
            assert_eq!(bit(m, sq), sq % 8 == file as u64);
        }
    }
    assert_eq!(gen_file_mask(0), 0x0101_0101_0101_0101);
    assert_eq!(gen_file_mask(7), 0x8080_8080_8080_8080);
}

#[test]
fn rank_mask_holds_exactly_its_rank() {
    for rank in 0u8..8 {
        let m = gen_rank_mask(rank);
        assert_eq!(count(m), 8);
        for sq in 0u64..64 {
            assert_eq!(bit(m, sq), sq / 8 == rank as u64);
        }
    }
    assert_eq!(gen_rank_mask(0), 0xFF);
    assert_eq!(gen_rank_mask(7), 0xFF00_0000_0000_0000);
}
