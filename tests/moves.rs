use chess_wasm::chess::Chess;

fn compare_vec(a: &Vec<String>, b: &Vec<String>) -> bool {
    let mut a = a.clone();
    let mut b = b.clone();
    a.sort();
    b.sort();
    a == b
}

#[test]
fn moves_for_pawn() {
    let fen = "rnbqkbnr/pppppppp/8/8/8/8/PPPPPPPP/RNBQKBNR w KQkq - 0 1".to_string();

    let mut chess = Chess::new();
    let _ = chess.load_fen(fen);

    let moves = ["e3", "e4"];

    assert_eq!(chess.moves("e2"), moves);
}

#[test]
fn moves_for_pinned_piece() {
    let fen = "rnbqk1nr/pppp1ppp/4p3/8/1b1P4/2N5/PPP1PPPP/R1BQKBNR w KQkq - 2 3".to_string();

    let mut chess = Chess::new();
    let _ = chess.load_fen(fen);

    let moves: [&str; 0] = [];

    assert_eq!(chess.moves("c3"), moves);
}

#[test]
fn moves_for_promotion() {
    let fen = "8/k7/8/8/8/8/7p/K7 b - - 0 1".to_string();

    let mut chess = Chess::new();
    let _ = chess.load_fen(fen);

    // one move per promotion kind, the checking ones marked
    let moves = ["h1=Q+", "h1=R+", "h1=B", "h1=N"];

    assert_eq!(chess.moves("h2"), moves);
}

#[test]
fn castling() {
    let fen = "r1bq1rk1/1pp2ppp/p1np1n2/2b1p3/2B1P3/2NP1N2/PPPBQPPP/R3K2R w KQ - 0 8".to_string();

    let mut chess = Chess::new();
    let _ = chess.load_fen(fen);

    let moves = ["Kf1", "Kd1", "O-O", "O-O-O"];

    assert_eq!(chess.moves("e1"), moves);
}

#[test]
fn no_castling() {
    let fen = "r1bq1rk1/1pp2ppp/p1np1n2/2b1p3/2B1P3/2NP1N2/PPPBQPPP/R3K2R w - - 0 8".to_string();

    let mut chess = Chess::new();
    let _ = chess.load_fen(fen);

    let moves = ["Kf1", "Kd1"];

    assert_eq!(chess.moves("e1"), moves);
}

#[test]
fn king_trapped_cant_move() {
    let fen = "8/7K/8/8/1R6/k7/1R1p4/8 b - - 0 1".to_string();

    let mut chess = Chess::new();
    let _ = chess.load_fen(fen);

    let moves: [&str; 0] = [];

    assert_eq!(chess.moves("a3"), moves);
}

#[test]
fn knight_moves() {
    let fen = "rnbqkbnr/pppppppp/8/8/8/8/PPPPPPPP/RNBQKBNR w KQkq - 0 1".to_string();

    let mut chess = Chess::new();
    let _ = chess.load_fen(fen);

    let moves = ["Na3".to_string(), "Nc3".to_string()].to_vec();

    assert!(compare_vec(&chess.moves("b1"), &moves));
}

#[test]
fn en_passant() {
    let fen = "rnbq1rk1/4bpp1/p2p1n1p/Ppp1p3/2B1P3/2NP1N1P/1PP2PP1/R1BQ1RK1 w - b6 0 10".to_string();

    let mut chess = Chess::new();
    let _ = chess.load_fen(fen);

    let moves = ["axb6".to_string()].to_vec();

    assert!(compare_vec(&chess.moves("a5"), &moves));
}

#[test]
fn queen() {
    let fen = "5rk1/1p3rp1/p1n1p3/2p1p2p/2PpP1qP/P2P2P1/1P2QP1K/3R1R2 w - - 0 23".to_string();

    let mut chess = Chess::new();
    let _ = chess.load_fen(fen);

    let moves = [
        "Qd2".to_string(),
        "Qc2".to_string(),
        "Qe1".to_string(),
        "Qe3".to_string(),
        "Qf3".to_string(),
        "Qxg4".to_string(),
    ]
    .to_vec();

    assert!(compare_vec(&chess.moves("e2"), &moves));
}

#[test]
fn moves_disambiguate_by_file_then_rank() {
    let mut chess = Chess::new();
    let _ = chess.load_fen("4k3/8/8/8/8/8/4K3/R6R w - - 0 1".to_string());
    let moves = chess.moves("a1");
    assert!(moves.contains(&"Rad1".to_string()));
    assert!(moves.contains(&"Ra8+".to_string()));

    let _ = chess.load_fen("4k3/8/8/8/R7/8/8/R3K3 w - - 0 1".to_string());
    let moves = chess.moves("a1");
    assert!(moves.contains(&"R1a2".to_string()));
}

#[test]
fn moves_of_an_empty_or_unknown_square() {
    let mut chess = Chess::new();
    let _ = chess.load_fen("rnbqkbnr/pppppppp/8/8/8/8/PPPPPPPP/RNBQKBNR w KQkq - 0 1".to_string());
    assert!(chess.moves("e4").is_empty());
    assert!(chess.moves("z9").is_empty());
    assert!(chess.moves("e7").is_empty());
}
