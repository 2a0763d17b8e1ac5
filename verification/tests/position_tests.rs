use chess_core::board::Board;
use chess_core::enums::{Color, PieceType};

fn bit(bb: u64, i: u64) -> bool {
    (bb >> i) & 1 == 1
}

/// Every square's mailbox entry agrees with the bitboards, and the two
/// sides' aggregates never intersect.
fn assert_synchronized(b: &Board) {
    assert_eq!(b.white_bb & b.black_bb, 0);
    let kinds = [
        PieceType::Pawn,
        PieceType::Knight,
        PieceType::Bishop,
        PieceType::Rook,
        PieceType::Queen,
        PieceType::King,
    ];
    let per_type = [
        &b.pawn_bbs,
        &b.knight_bbs,
        &b.bishop_bbs,
        &b.rook_bbs,
        &b.queen_bbs,
        &b.king_bbs,
    ];
    for sq in 0..64usize {
        let entry = b.mailbox[sq];
        for (k, kind) in kinds.iter().enumerate() {
            for (ci, color) in [Color::White, Color::Black].iter().enumerate() {
                let expected = entry.piece == *kind && entry.color == *color;
                assert_eq!(bit(per_type[k][ci], sq as u64), expected);
            }
        }
        assert_eq!(bit(b.white_bb, sq as u64), entry.color == Color::White);
        assert_eq!(bit(b.black_bb, sq as u64), entry.color == Color::Black);
    }
}

#[test]
fn empty_board_is_empty_and_synchronized() {
    let b = Board::get_empty_board();
    assert!(b.wtm);
    assert_eq!(b.reversables, 0);
    assert_eq!(b.halfmove_clock, 0);
    assert_eq!(b.castling_rights, 0b1111);
    assert_eq!(b.white_bb, 0);
    assert_eq!(b.black_bb, 0);
    for sq in 0..64usize {
        assert_eq!(b.mailbox[sq].piece, PieceType::Empty);
        assert_eq!(b.mailbox[sq].color, Color::Empty);
    }
    assert_synchronized(&b);
}

#[test]
fn add_piece_sets_both_representations() {
    let mut b = Board::get_empty_board();
    b.add_piece(Color::White, PieceType::Knight, 12);
    assert_eq!(b.mailbox[12].piece, PieceType::Knight);
    assert_eq!(b.mailbox[12].color, Color::White);
    assert!(bit(b.knight_bbs[0], 12));
    assert!(bit(b.white_bb, 12));
    assert!(!bit(b.black_bb, 12));
    assert_synchronized(&b);
}

#[test]
fn remove_piece_returns_occupant_and_clears() {
    let mut b = Board::get_empty_board();
    b.add_piece(Color::Black, PieceType::Queen, 33);
    let (c, p) = b.remove_piece(33);
    assert_eq!(c, Color::Black);
    assert_eq!(p, PieceType::Queen);
    assert_eq!(b.mailbox[33].piece, PieceType::Empty);
    assert_eq!(b.black_bb, 0);
    assert_eq!(b.queen_bbs[1], 0);
    assert_synchronized(&b);
}

#[test]
fn remove_piece_on_empty_square_is_noop() {
    let mut b = Board::get_empty_board();
    let (c, p) = b.remove_piece(20);
    assert_eq!(c, Color::Empty);
    assert_eq!(p, PieceType::Empty);
    assert_synchronized(&b);
}

#[test]
fn move_piece_relocates_and_captures() {
    let mut b = Board::get_empty_board();
    b.add_piece(Color::White, PieceType::Rook, 0);
    b.add_piece(Color::Black, PieceType::Pawn, 3);
    b.move_piece(0, 3);
    assert_eq!(b.mailbox[0].piece, PieceType::Empty);
    assert_eq!(b.mailbox[3].piece, PieceType::Rook);
    assert_eq!(b.mailbox[3].color, Color::White);
    assert_eq!(b.black_bb, 0);
    assert!(bit(b.rook_bbs[0], 3));
    assert_synchronized(&b);
}

#[test]
fn invariants_hold_through_operation_sequences() {
    let mut b = Board::get_empty_board();
    b.add_piece(Color::White, PieceType::Pawn, 8);
    assert_synchronized(&b);
    b.add_piece(Color::White, PieceType::King, 4);
    assert_synchronized(&b);
    b.add_piece(Color::Black, PieceType::King, 60);
    assert_synchronized(&b);
    b.add_piece(Color::Black, PieceType::Rook, 56);
    assert_synchronized(&b);
    b.move_piece(8, 16);
    assert_synchronized(&b);
    b.move_piece(56, 16);
    assert_synchronized(&b);
    let (c, p) = b.remove_piece(16);
    assert_eq!((c, p), (Color::Black, PieceType::Rook));
    assert_synchronized(&b);
    b.move_piece(4, 5);
    assert_synchronized(&b);
    b.remove_piece(60);
    assert_synchronized(&b);
    b.remove_piece(5);
    assert_synchronized(&b);
    assert_eq!(b.white_bb, 0);
    assert_eq!(b.black_bb, 0);
}

#[test]
fn occupied_squares_is_union_of_sides() {
    let mut b = Board::get_empty_board();
    b.add_piece(Color::White, PieceType::Bishop, 2);
    b.add_piece(Color::Black, PieceType::Knight, 57);
    assert_eq!(b.get_occupied_squares(), b.white_bb | b.black_bb);
    assert_eq!(b.get_occupied_squares(), (1u64 << 2) | (1u64 << 57));
}
