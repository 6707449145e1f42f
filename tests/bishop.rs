use chess_wasm::chess::{Chess, BISHOP, BLACK, BLACK_BISHOP, KING, PAWN};

#[test]
fn bishop_can_move_freely_if_king_is_not_checked() {
    let mut chess = Chess::new();

    let _ = chess.set(BISHOP, 52);
    let _ = chess.set(KING, 55);
    let _ = chess.set(BISHOP | BLACK, 86);

    let inner_moves = chess.inner_moves(52);
    let correct_moves = [69, 86, 67, 82, 97, 112, 35, 18, 1, 37, 22, 7];

    assert!(inner_moves.iter().eq(correct_moves.iter()));

    chess.clear();

    let _ = chess.set(BISHOP, 0);
    let _ = chess.set(KING, 1);
    let _ = chess.set(BISHOP | BLACK, 7);

    let inner_moves = chess.inner_moves(0);
    let correct_moves = [17, 34, 51, 68, 85, 102, 119];

    assert!(inner_moves.iter().eq(correct_moves.iter()));

    chess.clear();
    chess.set_turn(BLACK);

    let _ = chess.set(BISHOP, 103);
    let _ = chess.set(KING | BLACK, 81);
    let _ = chess.set(BISHOP | BLACK, 36);

    let inner_moves = chess.inner_moves(36);
    let correct_moves = [53, 70, 87, 51, 66, 19, 2, 21, 6];
    assert!(inner_moves.iter().eq(correct_moves.iter()));

    chess.clear();
    chess.set_turn(BLACK);

    let _ = chess.set(BISHOP, 103);
    let _ = chess.set(KING | BLACK, 81);
    let _ = chess.set(BISHOP | BLACK, 36);

    let inner_moves = chess.inner_moves(36);
    let correct_moves = [53, 70, 87, 51, 66, 19, 2, 21, 6];
    assert!(inner_moves.iter().eq(correct_moves.iter()));

    chess.clear();
    chess.set_turn(BLACK);

    let _ = chess.set(BISHOP, 0);
    let _ = chess.set(KING | BLACK, 7);
    let _ = chess.set(BISHOP | BLACK, 112);

    let inner_moves = chess.inner_moves(112);
    let correct_moves = [97, 82, 67, 52, 37, 22];

    assert!(inner_moves.iter().eq(correct_moves.iter()));
}

#[test]
fn bishop_can_not_move_because_king_is_checked() {
    let mut chess = Chess::new();

    let _ = chess.set(BISHOP, 117);
    let _ = chess.set(KING, 112);
    let _ = chess.set(BLACK_BISHOP, 97);

    let inner_moves = chess.inner_moves(117);

    assert!(inner_moves.len() == 0);

    chess.clear();

    let _ = chess.set(BISHOP, 119);
    let _ = chess.set(KING, 7);
    let _ = chess.set(BISHOP | BLACK, 22);

    let inner_moves = chess.inner_moves(119 as u8);
    assert!(inner_moves.len() == 0);

    chess.clear();

    let _ = chess.set(BISHOP, 67);
    let _ = chess.set(KING, 0);
    let _ = chess.set(BISHOP | BLACK, 17);

    let inner_moves = chess.inner_moves(67 as u8);
    assert!(inner_moves.len() == 0);

    chess.clear();

    //======= BLACK =======
    chess.set_turn(BLACK);

    let _ = chess.set(BISHOP, 0);
    let _ = chess.set(KING | BLACK, 17);
    let _ = chess.set(BISHOP | BLACK, 51);

    let inner_moves = chess.inner_moves(51);
    assert!(inner_moves.len() == 0);

    chess.clear();
    chess.set_turn(BLACK);

    let _ = chess.set(BISHOP, 67);
    let _ = chess.set(KING | BLACK, 112);
    let _ = chess.set(BISHOP | BLACK, 100);

    let inner_moves = chess.inner_moves(100);
    assert!(inner_moves.len() == 0);

    chess.clear();
    chess.set_turn(BLACK);

    let _ = chess.set(BISHOP, 118);
    let _ = chess.set(KING | BLACK, 16);
    let _ = chess.set(BISHOP | BLACK, 21);

    let inner_moves = chess.inner_moves(21);
    assert!(inner_moves.len() == 0);
}

#[test]
fn bishop_can_take_enemy_piece_to_stop_check() {
    let mut chess = Chess::new();

    let _ = chess.set(BISHOP, 2);
    let _ = chess.set(KING, 0);
    let _ = chess.set(BISHOP | BLACK, 17);

    let inner_moves = chess.inner_moves(2 as u8);
    let correct_moves = [17];

    assert!(inner_moves.iter().eq(correct_moves.iter()));

    chess.clear();

    let _ = chess.set(BISHOP, 99);
    let _ = chess.set(KING, 37);
    let _ = chess.set(BISHOP | BLACK, 54);

    let inner_moves = chess.inner_moves(99 as u8);
    let correct_moves = [54];

    assert!(inner_moves.iter().eq(correct_moves.iter()));

    // ====== BLACK =====

    chess.clear();
    chess.set_turn(BLACK);

    let _ = chess.set(BISHOP, 32);
    let _ = chess.set(KING | BLACK, 66);
    let _ = chess.set(BISHOP | BLACK, 17);

    let inner_moves = chess.inner_moves(17);
    let correct_moves = [32];

    assert!(inner_moves.iter().eq(correct_moves.iter()));

    chess.clear();
    chess.set_turn(BLACK);

    let _ = chess.set(BISHOP, 67);
    let _ = chess.set(KING | BLACK, 7);
    let _ = chess.set(BISHOP | BLACK, 118);

    let inner_moves = chess.inner_moves(118);
    let correct_moves = [67];

    assert!(inner_moves.iter().eq(correct_moves.iter()));
}

#[test]
fn bishop_can_move_freely_if_king_is_shielded_from_check() {
    let mut chess = Chess::new();
    let _ = chess.set(BISHOP, 51);
    let _ = chess.set(KING, 7);
    let _ = chess.set(PAWN, 37);
    let _ = chess.set(BISHOP | BLACK, 67);

    let inner_moves = chess.inner_moves(51);
    let correct_moves = [68, 85, 102, 119, 66, 81, 96, 34, 17, 0, 36, 21, 6];

    assert!(inner_moves.iter().eq(correct_moves.iter()));

    chess.clear();

    let _ = chess.set(BISHOP, 118);
    let _ = chess.set(KING, 119);
    let _ = chess.set(PAWN, 102);
    let _ = chess.set(BISHOP | BLACK, 85);

    let inner_moves = chess.inner_moves(118);
    let correct_moves = [101, 84, 67, 50, 33, 16, 103];

    assert!(inner_moves.iter().eq(correct_moves.iter()));

    chess.clear();

    let _ = chess.set(BISHOP, 66);
    let _ = chess.set(KING, 17);
    let _ = chess.set(PAWN, 34);
    let _ = chess.set(BISHOP | BLACK, 51);

    let inner_moves = chess.inner_moves(66);
    let correct_moves = [83, 100, 117, 81, 96, 49, 32, 51];

    assert!(inner_moves.iter().eq(correct_moves.iter()));

    // ==== BLACK ====
    chess.clear();
    chess.set_turn(BLACK);

    let _ = chess.set(BISHOP, 64);
    let _ = chess.set(KING | BLACK, 4);
    let _ = chess.set(PAWN | BLACK, 19);
    let _ = chess.set(BISHOP | BLACK, 84);

    let inner_moves = chess.inner_moves(84);
    let correct_moves = [101, 118, 99, 114, 67, 50, 33, 16, 69, 54, 39];

    assert!(inner_moves.iter().eq(correct_moves.iter()));

    chess.clear();
    chess.set_turn(BLACK);

    let _ = chess.set(BISHOP, 53);
    let _ = chess.set(KING | BLACK, 87);
    let _ = chess.set(PAWN | BLACK, 70);
    let _ = chess.set(BISHOP | BLACK, 98);

    let inner_moves = chess.inner_moves(98);
    let correct_moves = [115, 113, 81, 64, 83, 68, 53];

    assert!(inner_moves.iter().eq(correct_moves.iter()));
}

#[test]
fn pawn_valid_moves() {
    let mut chess = Chess::new();

    // a black pawn reaching the first rank: one destination, for all four promotions
    chess.set_turn(BLACK);
    let _ = chess.set(chess_wasm::chess::BLACK_PAWN, 98);
    let inner_moves = chess.inner_moves(98);
    let correct_moves = [114];

    assert!(inner_moves.iter().eq(correct_moves.iter()));

    chess.clear();

    // off its starting rank a pawn steps once
    chess.set_turn(BLACK);
    let _ = chess.set(chess_wasm::chess::BLACK_PAWN, 2);
    let inner_moves = chess.inner_moves(2);
    let correct_moves = [18];
    assert!(inner_moves.iter().eq(correct_moves.iter()));

    chess.clear();

    let _ = chess.set(PAWN, 34);
    let inner_moves = chess.inner_moves(34);
    let correct_moves = [18];
    assert!(inner_moves.iter().eq(correct_moves.iter()));

    chess.clear();

    let _ = chess.set(PAWN, 23);
    let inner_moves = chess.inner_moves(23);
    let correct_moves = [7];
    assert!(inner_moves.iter().eq(correct_moves.iter()));

    chess.clear();

    // from its starting rank a pawn may also step twice
    let _ = chess.set(PAWN, 98);
    let inner_moves = chess.inner_moves(98);
    let correct_moves = [82, 66];
    assert!(inner_moves.iter().eq(correct_moves.iter()));
}
