use chess_core::move_rep::{decode_move, new_move, Move};

#[test]
fn encode_decode_round_trips_for_all_pairs() {
    for from in 0u8..64 {
        for to in 0u8..64 {
            let m: Move = new_move(from, to);
            assert_eq!(decode_move(m), (from, to));
        }
    }
}

#[test]
fn encoding_layout_matches_bit_fields() {
    assert_eq!(new_move(0, 0), 0);
    assert_eq!(new_move(63, 0), 63);
    assert_eq!(new_move(0, 63), 63 << 6);
    assert_eq!(new_move(12, 34), 12 | (34 << 6));
    assert_eq!(new_move(12, 34), 12 + 64 * 34);
}

#[test]
fn decode_ignores_reserved_flag_bits() {
    let m: Move = new_move(5, 9) | (1 << 12);
    assert_eq!(decode_move(m), (5, 9));
}
