use chess_core::bitboards::count;
use chess_core::board::Board;
use chess_core::enums::{Color, PieceType};
use chess_core::move_rep::decode_move;

fn bit(bb: u64, i: u64) -> bool {
    (bb >> i) & 1 == 1
}

fn decoded_pairs(moves: &[u32]) -> Vec<(u8, u8)> {
    moves.iter().map(|m| decode_move(*m)).collect()
}

#[test]
fn lone_knight_in_corner_generates_two_moves() {
    let mut b = Board::get_empty_board();
    b.add_piece(Color::White, PieceType::Knight, 0);
    let targets = b.get_knight_targets(Color::White);
    assert_eq!(count(targets), 2);
    assert!(bit(targets, 10) && bit(targets, 17));
    let moves = b.gen_moves(Color::White);
    assert_eq!(moves.len(), 2);
    let mut pairs = decoded_pairs(&moves);
    pairs.sort();
    assert_eq!(pairs, vec![(0, 10), (0, 17)]);
}

#[test]
fn lone_rook_with_one_enemy_generates_ten_moves() {
    let mut b = Board::get_empty_board();
    b.add_piece(Color::White, PieceType::Rook, 0);
    b.add_piece(Color::Black, PieceType::Pawn, 3);
    let moves = b.gen_moves(Color::White);
    assert_eq!(moves.len(), 10);
    let mut tos: Vec<u8> = decoded_pairs(&moves)
        .iter()
        .map(|(f, t)| {
            assert_eq!(*f, 0);
            *t
        })
        .collect();
    tos.sort();
    assert_eq!(tos, vec![1, 2, 3, 8, 16, 24, 32, 40, 48, 56]);
}

#[test]
fn own_pieces_are_not_capture_targets() {
    let mut b = Board::get_empty_board();
    b.add_piece(Color::White, PieceType::Rook, 0);
    b.add_piece(Color::White, PieceType::Pawn, 3);
    let targets = b.get_rook_targets(Color::White);
    assert!(bit(targets, 1) && bit(targets, 2));
    assert!(!bit(targets, 3));
}

#[test]
fn queen_targets_join_both_ray_families() {
    let mut b = Board::get_empty_board();
    b.add_piece(Color::Black, PieceType::Queen, 27);
    let targets = b.get_queen_targets(Color::Black);
    assert_eq!(count(targets), 27);
    let rook_part = b.get_rook_attacks(27);
    let bishop_part = b.get_bishop_attacks(27);
    assert_eq!(targets, rook_part | bishop_part);
}

#[test]
fn queen_moves_come_from_queen_squares() {
    // The omnidirectional piece's moves originate at the queen itself, not
    // at the one-family sliders.
    let mut b = Board::get_empty_board();
    b.add_piece(Color::White, PieceType::Queen, 0);
    b.add_piece(Color::White, PieceType::Rook, 7);
    let targets = b.get_queen_targets(Color::White);
    assert!(bit(targets, 9) && bit(targets, 8) && bit(targets, 1));
    assert!(!bit(targets, 7));
    let moves = b.gen_moves(Color::White);
    for (f, _t) in decoded_pairs(&moves) {
        assert!(f == 0 || f == 7);
    }
}

#[test]
fn king_moves_from_center() {
    let mut b = Board::get_empty_board();
    b.add_piece(Color::White, PieceType::King, 27);
    let targets = b.get_king_targets(Color::White);
    assert_eq!(count(targets), 8);
    let moves = b.gen_moves(Color::White);
    assert_eq!(moves.len(), 8);
}

#[test]
fn no_kings_generate_no_king_moves() {
    let b = Board::get_empty_board();
    assert_eq!(b.get_king_targets(Color::White), 0);
    assert_eq!(b.gen_moves(Color::White).len(), 0);
    assert_eq!(b.gen_moves(Color::Black).len(), 0);
}

#[test]
fn pawn_push_requires_empty_square() {
    let mut b = Board::get_empty_board();
    b.add_piece(Color::White, PieceType::Pawn, 8);
    b.add_piece(Color::Black, PieceType::Rook, 16);
    // The forward square is occupied: no push, and a straight-ahead enemy is
    // not capturable.
    let targets = b.get_pawn_targets(Color::White);
    assert_eq!(targets, 0);
    // An own piece ahead blocks the push as well.
    let mut b2 = Board::get_empty_board();
    b2.add_piece(Color::White, PieceType::Pawn, 8);
    b2.add_piece(Color::White, PieceType::Knight, 16);
    assert_eq!(b2.get_pawn_targets(Color::White), 0);
}

#[test]
fn pawn_captures_only_opponents_diagonally() {
    let mut b = Board::get_empty_board();
    b.add_piece(Color::White, PieceType::Pawn, 9);
    b.add_piece(Color::Black, PieceType::Knight, 16);
    b.add_piece(Color::White, PieceType::Knight, 18);
    let targets = b.get_pawn_targets(Color::White);
    // Push to 17, capture the enemy on 16; the own piece on 18 is excluded.
    assert_eq!(count(targets), 2);
    assert!(bit(targets, 17) && bit(targets, 16));
    assert!(!bit(targets, 18));
}

#[test]
fn black_pawn_moves_down_board() {
    let mut b = Board::get_empty_board();
    b.add_piece(Color::Black, PieceType::Pawn, 48);
    b.add_piece(Color::White, PieceType::Bishop, 41);
    let targets = b.get_pawn_targets(Color::Black);
    assert_eq!(count(targets), 2);
    assert!(bit(targets, 40) && bit(targets, 41));
}

#[test]
fn all_targets_union_every_piece_kind() {
    let mut b = Board::get_empty_board();
    b.add_piece(Color::White, PieceType::Knight, 0);
    b.add_piece(Color::White, PieceType::Pawn, 8);
    b.add_piece(Color::Black, PieceType::Rook, 63);
    let all = b.get_all_targets(Color::White);
    let by_kind = b.get_knight_targets(Color::White)
        | b.get_king_targets(Color::White)
        | b.get_bishop_targets(Color::White)
        | b.get_rook_targets(Color::White)
        | b.get_queen_targets(Color::White)
        | b.get_pawn_targets(Color::White);
    assert_eq!(all, by_kind);
    assert!(bit(all, 10) && bit(all, 17) && bit(all, 16));
}

#[test]
fn black_knight_in_far_corner_generates_two_moves() {
    let mut b = Board::get_empty_board();
    b.add_piece(Color::Black, PieceType::Knight, 63);
    let moves = b.gen_moves(Color::Black);
    let mut pairs = decoded_pairs(&moves);
    pairs.sort();
    assert_eq!(pairs, vec![(63, 46), (63, 53)]);
    assert_eq!(b.gen_moves(Color::White).len(), 0);
}

#[test]
fn generated_moves_have_no_duplicates() {
    let mut b = Board::get_empty_board();
    b.add_piece(Color::White, PieceType::Queen, 27);
    b.add_piece(Color::White, PieceType::Knight, 0);
    let moves = b.gen_moves(Color::White);
    let mut seen = moves.clone();
    seen.sort();
    seen.dedup();
    assert_eq!(seen.len(), moves.len());
}
