use chess_wasm::chess::Chess;
use chess_wasm::errors::MoveError;

#[test]
fn move_works() {
    let fen = "rnbqkbnr/pppppppp/8/8/8/8/PPPPPPPP/RNBQKBNR w KQkq - 0 1".to_string();
    let next_fen = "rnbqkbnr/pppppppp/8/8/4P3/8/PPPP1PPP/RNBQKBNR b KQkq e3 0 1".to_string();

    let mut chess = Chess::new();
    let _ = chess.load_fen(fen);

    assert_eq!(chess.move_piece("e4"), Ok("e4".to_string()));

    assert_eq!(chess.get_fen(), next_fen);
}

#[test]
fn checkmate() {
    let fen = "7k/3R4/3p2Q1/6Q1/2N1N3/8/8/3R3K w - - 0 1".to_string();
    let next_fen = "3R3k/8/3p2Q1/6Q1/2N1N3/8/8/3R3K b - - 1 1".to_string();

    let mut chess = Chess::new();
    let _ = chess.load_fen(fen);

    assert_eq!(chess.move_piece("Rd8"), Ok("Rd8#".to_string()));

    assert!(chess.is_checkmate());

    assert_eq!(chess.get_fen(), next_fen);
}

#[test]
fn white_en_passant() {
    let fen = "rnbqkbnr/pp3ppp/2pp4/4pP2/4P3/8/PPPP2PP/RNBQKBNR w KQkq e6 0 1".to_string();
    let next_fen = "rnbqkbnr/pp3ppp/2ppP3/8/4P3/8/PPPP2PP/RNBQKBNR b KQkq - 0 1".to_string();

    let mut chess = Chess::new();
    let _ = chess.load_fen(fen);

    assert_eq!(chess.move_piece("fxe6"), Ok("fxe6".to_string()));

    assert_eq!(chess.get_fen(), next_fen);
}

#[test]
fn black_en_passant() {
    let fen = "rnbqkbnr/pppp2pp/8/4p3/4Pp2/2PP4/PP3PPP/RNBQKBNR b KQkq e3 0 1".to_string();
    let next_fen = "rnbqkbnr/pppp2pp/8/4p3/8/2PPp3/PP3PPP/RNBQKBNR w KQkq - 0 2".to_string();

    let mut chess = Chess::new();
    let _ = chess.load_fen(fen);

    assert_eq!(chess.move_piece("fxe3"), Ok("fxe3".to_string()));

    assert_eq!(chess.get_fen(), next_fen);
}

#[test]
fn pinning_disambiguates_notation() {
    let fen = "r2qkbnr/ppp2ppp/2n5/1B2pQ2/4P3/8/PPP2PPP/RNB1K2R b KQkq - 3 7".to_string();
    let next_fen = "r2qkb1r/ppp1nppp/2n5/1B2pQ2/4P3/8/PPP2PPP/RNB1K2R w KQkq - 4 8".to_string();

    let mut chess = Chess::new();

    let _ = chess.load_fen(fen.clone());
    assert_eq!(chess.move_piece("Ne7"), Ok("Ne7".to_string()));
    assert_eq!(chess.get_fen(), next_fen);

    chess.clear();

    let _ = chess.load_fen(fen);
    // Nge7 should be the same as Ne7
    assert_eq!(chess.move_piece("Nge7"), Ok("Nge7".to_string()));
    assert_eq!(chess.get_fen(), next_fen);
}

#[test]
fn illegal_move() {
    let fen = "rnbqkbnr/pppppppp/8/8/8/8/PPPPPPPP/RNBQKBNR w KQkq - 0 1".to_string();

    let mut chess = Chess::new();
    let _ = chess.load_fen(fen);

    assert_eq!(chess.move_piece("e5"), Err(MoveError::InvalidPieceToMove));
}

#[test]
fn cannot_promote_if_pawn_not_in_correct_position() {
    let fen = "rnbqkbnr/pppppppp/8/8/8/8/PPPPPPPP/RNBQKBNR w KQkq - 0 1".to_string();
    let next_fen = "rnbqkbnr/pppppppp/8/8/8/8/PPPPPPPP/RNBQKBNR w KQkq - 0 1".to_string();

    let mut chess = Chess::new();
    let _ = chess.load_fen(fen);

    assert_eq!(chess.move_piece("e4=Q"), Err(MoveError::InvalidPromotion));
    assert_eq!(chess.get_fen(), next_fen);
}

#[test]
fn move_promotion() {
    let fen = "8/1k5P/8/8/8/8/8/1K6 w - - 0 1".to_string();
    let next_fen = "7N/1k6/8/8/8/8/8/1K6 b - - 0 1".to_string();

    let mut chess = Chess::new();
    let _ = chess.load_fen(fen);

    assert_eq!(chess.move_piece("h8=N"), Ok("h8=N".to_string()));
    assert!(chess.is_draw());
    assert_eq!(chess.get_fen(), next_fen);
}

#[test]
fn pawn_reaching_last_rank_needs_a_promotion() {
    let mut chess = Chess::new();
    let _ = chess.load_fen("8/1k5P/8/8/8/8/8/1K6 w - - 0 1".to_string());

    assert_eq!(chess.move_piece("h8"), Err(MoveError::InvalidPromotion));
    assert_eq!(chess.move_piece("h8=K"), Err(MoveError::InvalidPromotion));
    assert_eq!(chess.get_fen(), "8/1k5P/8/8/8/8/8/1K6 w - - 0 1");
    assert_eq!(chess.move_piece("h8=Q"), Ok("h8=Q".to_string()));
    assert_eq!(chess.get_fen(), "7Q/1k6/8/8/8/8/8/1K6 b - - 0 1");
}

#[test]
fn capture_mark_onto_empty_square_is_refused() {
    let mut chess = Chess::new();
    let _ = chess.load_fen("rnbqkbnr/pppppppp/8/8/8/8/PPPPPPPP/RNBQKBNR w KQkq - 0 1".to_string());

    assert_eq!(chess.move_piece("Nxf3"), Err(MoveError::IllegalCapture));
}

#[test]
fn ambiguous_notation_is_refused() {
    let mut chess = Chess::new();
    let _ = chess.load_fen("4k3/8/8/8/8/8/4K3/R6R w - - 0 1".to_string());

    assert_eq!(chess.move_piece("Rd1"), Err(MoveError::AmbiguousMoveNotation));
    assert_eq!(chess.move_piece("Rhd1"), Ok("Rhd1".to_string()));
    assert_eq!(chess.get_fen(), "4k3/8/8/8/8/8/4K3/R2R4 b - - 1 1");
}

#[test]
fn garbage_notation_is_refused() {
    let mut chess = Chess::new();
    let _ = chess.load_fen("rnbqkbnr/pppppppp/8/8/8/8/PPPPPPPP/RNBQKBNR w KQkq - 0 1".to_string());

    assert_eq!(chess.move_piece("hello"), Err(MoveError::InvalidNotation));
    assert_eq!(chess.move_piece(""), Err(MoveError::InvalidNotation));
    assert_eq!(chess.move_piece("e9"), Err(MoveError::InvalidNotation));
}

#[test]
fn check_mark_is_appended() {
    let mut chess = Chess::new();
    let _ = chess.load_fen("4k3/8/8/8/8/8/8/R3K3 w - - 0 1".to_string());

    assert_eq!(chess.move_piece("Ra8"), Ok("Ra8+".to_string()));
}

#[test]
fn undo_restores_the_position() {
    let fen = "rnbqkbnr/pp3ppp/2pp4/4pP2/4P3/8/PPPP2PP/RNBQKBNR w KQkq e6 0 1".to_string();

    let mut chess = Chess::new();
    let _ = chess.load_fen(fen.clone());

    assert_eq!(chess.move_piece("fxe6"), Ok("fxe6".to_string()));
    chess.undo();
    assert_eq!(chess.get_fen(), fen);
    assert!(!chess.is_threefold_repetition());

    let _ = chess.load_fen("r3k2r/8/8/8/8/8/8/R3K2R w KQkq - 5 9".to_string());
    assert_eq!(chess.move_piece("O-O"), Ok("O-O".to_string()));
    chess.undo();
    assert_eq!(chess.get_fen(), "r3k2r/8/8/8/8/8/8/R3K2R w KQkq - 5 9");
}
