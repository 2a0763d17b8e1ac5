use chess_core::board::Board;
use chess_core::enums::{Color, PieceType};
use chess_core::fen::FenError;

const STARTING_FEN: &str = "rnbqkbnr/pppppppp/8/8/8/8/PPPPPPPP/RNBQKBNR w KQkq - 0 1";

#[test]
fn starting_position_loads() {
    let mut b = Board::get_empty_board();
    assert_eq!(b.load_fen(STARTING_FEN), Ok(()));
    assert!(b.wtm);
    // Ranks 1 and 8 hold the back ranks, 2 and 7 the pawns.
    assert_eq!(b.mailbox[0].piece, PieceType::Rook);
    assert_eq!(b.mailbox[0].color, Color::White);
    assert_eq!(b.mailbox[4].piece, PieceType::King);
    assert_eq!(b.mailbox[3].piece, PieceType::Queen);
    for sq in 8..16 {
        assert_eq!(b.mailbox[sq].piece, PieceType::Pawn);
        assert_eq!(b.mailbox[sq].color, Color::White);
    }
    for sq in 16..48 {
        assert_eq!(b.mailbox[sq].piece, PieceType::Empty);
    }
    for sq in 48..56 {
        assert_eq!(b.mailbox[sq].piece, PieceType::Pawn);
        assert_eq!(b.mailbox[sq].color, Color::Black);
    }
    assert_eq!(b.mailbox[60].piece, PieceType::King);
    assert_eq!(b.mailbox[60].color, Color::Black);
    assert_eq!(b.white_bb, 0xFFFF);
    assert_eq!(b.black_bb, 0xFFFF_0000_0000_0000);
}

#[test]
fn side_to_move_field_is_read() {
    let mut b = Board::get_empty_board();
    assert_eq!(b.load_fen("8/8/8/8/8/8/8/8 b - - 0 1"), Ok(()));
    assert!(!b.wtm);
    assert_eq!(b.white_bb | b.black_bb, 0);
    assert_eq!(b.load_fen("4k3/8/8/8/8/8/8/4K3 w"), Ok(()));
    assert!(b.wtm);
    assert_eq!(b.mailbox[4].piece, PieceType::King);
    assert_eq!(b.mailbox[60].piece, PieceType::King);
}

#[test]
fn loading_replaces_the_previous_position() {
    let mut b = Board::get_empty_board();
    b.add_piece(Color::White, PieceType::Queen, 27);
    b.reversables = 5;
    b.halfmove_clock = 9;
    assert_eq!(b.load_fen("8/8/8/8/8/8/8/n7 w - - 0 1"), Ok(()));
    assert_eq!(b.mailbox[27].piece, PieceType::Empty);
    assert_eq!(b.mailbox[0].piece, PieceType::Knight);
    assert_eq!(b.mailbox[0].color, Color::Black);
    assert_eq!(b.reversables, 0);
    assert_eq!(b.halfmove_clock, 0);
}

#[test]
fn bad_piece_letter_is_rejected() {
    let mut b = Board::get_empty_board();
    assert_eq!(b.load_fen("xnbqkbnr/8/8/8/8/8/8/8 w"), Err(FenError::BadPiece));
}

#[test]
fn too_many_files_is_rejected() {
    let mut b = Board::get_empty_board();
    assert_eq!(b.load_fen("rrrrrrrrr/8/8/8/8/8/8/8 w"), Err(FenError::OffBoard));
}

#[test]
fn too_many_ranks_is_rejected() {
    let mut b = Board::get_empty_board();
    assert_eq!(b.load_fen("8/8/8/8/8/8/8/8/r w"), Err(FenError::OffBoard));
}

#[test]
fn missing_side_to_move_is_rejected() {
    let mut b = Board::get_empty_board();
    assert_eq!(b.load_fen("8/8/8/8/8/8/8/8"), Err(FenError::MissingSideToMove));
    assert_eq!(b.load_fen("8/8/8/8/8/8/8/8 "), Err(FenError::MissingSideToMove));
}

#[test]
fn bad_side_to_move_is_rejected() {
    let mut b = Board::get_empty_board();
    assert_eq!(b.load_fen("8/8/8/8/8/8/8/8 x - - 0 1"), Err(FenError::BadSideToMove));
    assert_eq!(b.load_fen("8/8/8/8/8/8/8/8 wx"), Err(FenError::BadSideToMove));
}

#[test]
fn starting_position_generates_twenty_knight_and_pawn_targets() {
    let mut b = Board::get_empty_board();
    assert_eq!(b.load_fen(STARTING_FEN), Ok(()));
    // Eight pawns with one push each (no double-step here), two knights
    // with two free squares each.
    let moves = b.gen_moves(Color::White);
    assert_eq!(moves.len(), 12);
}
