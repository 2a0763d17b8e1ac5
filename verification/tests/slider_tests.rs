use chess_core::bitboards::count;
use chess_core::board::Board;
use chess_core::enums::{Color, PieceType};

fn bit(bb: u64, i: u64) -> bool {
    (bb >> i) & 1 == 1
}

#[test]
fn rook_on_empty_board_corner_attacks_fourteen() {
    let mut b = Board::get_empty_board();
    b.add_piece(Color::White, PieceType::Rook, 0);
    let att = b.get_rook_attacks(0);
    assert_eq!(count(att), 14);
    for f in 1u64..8 {
        assert!(bit(att, f));
    }
    for r in 1u64..8 {
        assert!(bit(att, 8 * r));
    }
}

#[test]
fn rook_on_full_board_attacks_two_adjacent() {
    let mut b = Board::get_empty_board();
    for sq in 0..64usize {
        let color = if sq % 2 == 0 { Color::White } else { Color::Black };
        b.add_piece(color, PieceType::Pawn, sq);
    }
    let att = b.get_rook_attacks(0);
    assert_eq!(count(att), 2);
    assert!(bit(att, 1));
    assert!(bit(att, 8));
}

#[test]
fn blocker_included_squares_beyond_excluded() {
    // A single blocker three squares east of the rook: the blocker's square
    // is attacked, every square beyond it on that ray is not.
    let mut b = Board::get_empty_board();
    b.add_piece(Color::White, PieceType::Rook, 0);
    b.add_piece(Color::Black, PieceType::Pawn, 3);
    let att = b.get_rook_attacks(0);
    assert!(bit(att, 1) && bit(att, 2) && bit(att, 3));
    for f in 4u64..8 {
        assert!(!bit(att, f));
    }
    // The other ray is unaffected: the whole file is still attacked.
    for r in 1u64..8 {
        assert!(bit(att, 8 * r));
    }
    assert_eq!(count(att), 10);
}

#[test]
fn blocker_color_does_not_matter_for_attacks() {
    let mut b = Board::get_empty_board();
    b.add_piece(Color::White, PieceType::Rook, 0);
    b.add_piece(Color::White, PieceType::Pawn, 3);
    let att = b.get_rook_attacks(0);
    assert!(bit(att, 3));
    assert!(!bit(att, 4));
}

#[test]
fn bishop_on_empty_board_center() {
    let mut b = Board::get_empty_board();
    b.add_piece(Color::White, PieceType::Bishop, 27);
    let att = b.get_bishop_attacks(27);
    assert_eq!(count(att), 13);
    for to in [0u64, 9, 18, 36, 45, 54, 63, 6, 13, 20, 34, 41, 48] {
        assert!(bit(att, to));
    }
}

#[test]
fn bishop_blocker_cuts_diagonal() {
    let mut b = Board::get_empty_board();
    b.add_piece(Color::White, PieceType::Bishop, 0);
    b.add_piece(Color::Black, PieceType::Knight, 27);
    let att = b.get_bishop_attacks(0);
    assert!(bit(att, 9) && bit(att, 18) && bit(att, 27));
    assert!(!bit(att, 36) && !bit(att, 45) && !bit(att, 54) && !bit(att, 63));
    assert_eq!(count(att), 3);
}

#[test]
fn corner_rays_toward_edge_contribute_nothing() {
    // A bishop on a1 has only the one northeast diagonal.
    let mut b = Board::get_empty_board();
    b.add_piece(Color::Black, PieceType::Bishop, 0);
    let att = b.get_bishop_attacks(0);
    assert_eq!(count(att), 7);
    for k in 1u64..8 {
        assert!(bit(att, 9 * k));
    }
}
