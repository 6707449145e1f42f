use chess_wasm::chess::{Chess, BLACK, WHITE};
use chess_wasm::errors::MoveError;

#[test]
fn castling_rights_from_fen() {
    let mut chess = Chess::new();

    let _ = chess.load_fen("r3k2r/8/8/8/8/8/8/R3K2R w - - 0 1".to_string());

    assert_eq!((false, false), chess.get_castling_rights());
}

#[test]
fn castling_rights_after_king_moves() {
    let mut chess = Chess::new();

    let _ = chess.load_fen("r3k2r/8/8/8/8/8/8/R3K2R w QqkK - 0 1".to_string());

    let _ = chess.move_piece("Ke2");

    assert_eq!((false, false, true, true), chess.get_castling_rights_tests());

    let _ = chess.move_piece("Kf7");

    assert_eq!((false, false, false, false), chess.get_castling_rights_tests());
}

#[test]
fn castling_rights_after_rook_moves() {
    let mut chess = Chess::new();

    let _ = chess.load_fen("r3k2r/8/8/8/8/8/8/R3K2R w QqkK - 0 1".to_string());

    let _ = chess.move_piece("Rh2");

    assert_eq!((false, true, true, true), chess.get_castling_rights_tests());

    let _ = chess.move_piece("Rh2");

    assert_eq!((false, true, false, true), chess.get_castling_rights_tests());

    let _ = chess.move_piece("Rb1");

    assert_eq!((false, false, false, true), chess.get_castling_rights_tests());

    let _ = chess.move_piece("Rb8");

    assert_eq!((false, false, false, false), chess.get_castling_rights_tests());
}

#[test]
fn cannot_castle_if_checked() {
    let mut chess = Chess::new();

    let fen = "r3k2r/8/1b6/6q1/8/1B5B/8/R3K2R w KQkq - 0 1".to_string();

    let _ = chess.load_fen(fen.clone());

    assert_eq!(chess.move_piece("O-O"), Err(MoveError::IllegalKingSideCastle));

    assert_eq!(chess.move_piece("O-O-O"), Err(MoveError::IllegalQueenSideCastle));

    assert_eq!(chess.get_fen(), fen);

    chess.set_turn(BLACK);

    assert_eq!(chess.move_piece("O-O"), Err(MoveError::IllegalKingSideCastle));

    assert_eq!(chess.move_piece("O-O-O"), Err(MoveError::IllegalQueenSideCastle));

    chess.set_turn(WHITE);
    assert_eq!(chess.get_fen(), fen);
}

#[test]
fn castling_is_played_when_legal() {
    let mut chess = Chess::new();

    let _ = chess.load_fen("r3k2r/8/8/8/8/8/8/R3K2R w KQkq - 0 1".to_string());

    assert_eq!(chess.move_piece("O-O"), Ok("O-O".to_string()));
    assert_eq!(chess.get_fen(), "r3k2r/8/8/8/8/8/8/R4RK1 b kq - 1 1");

    assert_eq!(chess.move_piece("O-O-O"), Ok("O-O-O".to_string()));
    assert_eq!(chess.get_fen(), "2kr3r/8/8/8/8/8/8/R4RK1 w - - 2 2");
}

#[test]
fn castling_without_right_is_refused() {
    let mut chess = Chess::new();

    let _ = chess.load_fen("r3k2r/8/8/8/8/8/8/R3K2R w Qkq - 0 1".to_string());

    assert_eq!(chess.move_piece("O-O"), Err(MoveError::IllegalKingSideCastle));
    assert_eq!(chess.get_fen(), "r3k2r/8/8/8/8/8/8/R3K2R w Qkq - 0 1");
}

#[test]
fn castling_blocked_by_a_piece() {
    let mut chess = Chess::new();

    let _ = chess.load_fen("r3k2r/8/8/8/8/8/8/RN2K2R w KQkq - 0 1".to_string());

    assert_eq!(chess.move_piece("O-O-O"), Err(MoveError::IllegalQueenSideCastle));
    assert_eq!(chess.moves("e1"), ["Kf1", "Kd1", "Ke2", "Kd2", "Kf2", "O-O"]);
}
