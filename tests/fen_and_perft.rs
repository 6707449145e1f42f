use chess_wasm::chess::Chess;
use chess_wasm::chess2::{Chess as Engine, Color, Move, SquareCoordinate as Square};
use chess_wasm::errors::MoveError;

#[test]
fn perft_kiwipete() {
    let mut chess = Chess::new();
    let fen = "r3k2r/p1ppqpb1/bn2pnp1/3PN3/1p2P3/2N2Q1p/PPPBBPPP/R3K2R w KQkq - 0 1";
    let _ = chess.load_fen(fen.to_string());

    assert_eq!(chess.perft(0), 1);
    assert_eq!(chess.perft(1), 48);
    assert_eq!(chess.perft(2), 2039);
    assert_eq!(chess.perft(3), 97862);
    assert_eq!(chess.get_fen(), fen);
}

#[test]
fn perft_initial_position() {
    let mut chess = Chess::new();
    let _ = chess.load_fen("rnbqkbnr/pppppppp/8/8/8/8/PPPPPPPP/RNBQKBNR w KQkq - 0 1".to_string());

    assert_eq!(chess.perft(1), 20);
    assert_eq!(chess.perft(2), 400);
    assert_eq!(chess.perft(3), 8902);
}

#[test]
fn fen_round_trip() {
    let fens = [
        "rnbqkbnr/pppppppp/8/8/8/8/PPPPPPPP/RNBQKBNR w KQkq - 0 1",
        "r3k2r/p1ppqpb1/bn2pnp1/3PN3/1p2P3/2N2Q1p/PPPBBPPP/R3K2R w KQkq - 0 1",
        "rnbqkbnr/pp3ppp/2pp4/4pP2/4P3/8/PPPP2PP/RNBQKBNR w KQkq e6 0 1",
        "8/pp3p1k/2p2q1p/3r1P2/5R2/7P/P1P1QP2/7K b - - 2 30",
        "4k3/8/8/8/8/8/8/4K3 b - - 123 4567",
    ];
    let mut chess = Chess::new();
    for fen in fens.iter() {
        assert_eq!(chess.load_fen(fen.to_string()), Ok(()));
        assert_eq!(chess.get_fen(), fen.to_string());
    }
}

#[test]
fn invalid_fen_is_refused() {
    let mut chess = Chess::new();
    let fen = "rnbqkbnr/pppppppp/8/8/8/8/PPPPPPPP/RNBQKBNR w KQkq - 0 1";
    let _ = chess.load_fen(fen.to_string());

    let bad = [
        "",
        "rnbqkbnr/pppppppp/8/8/8/8/PPPPPPPP w KQkq - 0 1",
        "rnbqkbnr/pppppppp/9/8/8/8/PPPPPPPP/RNBQKBNR w KQkq - 0 1",
        "rnbqkbnr/pppppppp/8/8/8/8/PPPPPPPP/RNBQKBNX w KQkq - 0 1",
        "rnbqkbnr/pppppppp/8/8/8/8/PPPPPPPP/RNBQKBNR x KQkq - 0 1",
        "rnbqkbnr/pppppppp/8/8/8/8/PPPPPPPP/RNBQKBNR w KQkz - 0 1",
        "rnbqkbnr/pppppppp/8/8/8/8/PPPPPPPP/RNBQKBNR w KQkq z9 0 1",
        "rnbqkbnr/pppppppp/8/8/8/8/PPPPPPPP/RNBQKBNR w KQkq - x 1",
        "8/8/8/8/8/8/8/8 w K - 0 1",
    ];
    for b in bad.iter() {
        assert_eq!(chess.load_fen(b.to_string()), Err(MoveError::InvalidFen), "{}", b);
        assert_eq!(chess.get_fen(), fen);
    }
}

#[test]
fn new_game_is_empty_with_white_to_move() {
    let chess = Chess::new();
    assert_eq!(chess.get_fen(), "8/8/8/8/8/8/8/8 w KQkq - 0 0");
    assert_eq!(chess.turn(), 'w');
}

#[test]
fn make_then_undo_restores_everything() {
    let mut chess = Chess::new();
    let fen = "r3k2r/p1ppqpb1/bn2pnp1/3PN3/1p2P3/2N2Q1p/PPPBBPPP/R3K2R w KQkq - 0 1";
    let _ = chess.load_fen(fen.to_string());
    for san in ["O-O", "O-O-O", "Bxa6", "d6", "Nxf7", "g4", "a4"].iter() {
        assert!(chess.move_piece(san).is_ok(), "{}", san);
        chess.undo();
        assert_eq!(chess.get_fen(), fen, "{}", san);
        assert!(!chess.is_threefold_repetition());
    }
}

#[test]
fn castling_rights_only_shrink() {
    let mut chess = Chess::new();
    let _ = chess.load_fen("r3k2r/8/8/8/8/8/8/R3K2R w KQkq - 0 1".to_string());
    let mut prev = chess.get_castling_rights_tests();
    for san in ["Ra2", "Ra7", "Ra1", "Ra8", "Kd1"].iter() {
        let _ = chess.move_piece(san);
        let now = chess.get_castling_rights_tests();
        assert!(!now.0 || prev.0);
        assert!(!now.1 || prev.1);
        assert!(!now.2 || prev.2);
        assert!(!now.3 || prev.3);
        prev = now;
    }
    assert_eq!(prev, (false, false, true, false));
}

#[test]
fn king_registry_follows_the_king() {
    let mut engine = Engine::new();
    let _ = engine.load_fen("4k3/8/8/8/8/8/8/4K3 w - - 0 1");
    assert_eq!(engine.kings.white, Some(Square::E1.to_index()));
    let _ = engine.make_move(Move { from: Square::E1, to: Square::D2, promotion_piece: None });
    assert_eq!(engine.kings.white, Some(Square::D2.to_index()));
    assert_eq!(engine.kings.black, Some(Square::E8.to_index()));
    let _ = engine.undo_move();
    assert_eq!(engine.kings.white, Some(Square::E1.to_index()));
}

#[test]
fn attack_queries_leave_the_position_alone() {
    let mut engine = Engine::new();
    let fen = "rnb1kbnr/pppp1ppp/8/8/4Pp1q/2N5/PPPP2PP/R1BQKBNR w KQkq - 2 4";
    let _ = engine.load_fen(fen);
    assert_eq!(engine.is_attacked(Square::E1), Ok(true));
    assert_eq!(engine.is_attacked(Square::B3), Ok(false));
    assert_eq!(engine.in_check(), Ok(true));
    assert_eq!(engine.get_fen(), fen);
    assert_eq!(engine.turn, Color::WHITE);
}

#[test]
fn legal_moves_are_those_leaving_the_king_safe() {
    let mut engine = Engine::new();
    let _ = engine.load_fen("rnbqk1nr/pppp1ppp/4p3/8/1b1P4/2N5/PPP1PPPP/R1BQKBNR w KQkq - 2 3");
    // the knight on c3 is pinned, the pawn on a2 is free
    assert_eq!(engine.moves_for_square(Square::C3).map(|m| m.len()), Ok(0));
    assert_eq!(engine.moves_for_square(Square::A2).map(|m| m.len()), Ok(2));
    assert!(engine.moves_for_square(Square::E4).is_err());
}

#[test]
fn index_and_notation_helpers() {
    let mut chess = Chess::new();
    let _ = chess.load_fen("rnbqkbnr/pppppppp/8/8/8/8/PPPPPPPP/RNBQKBNR w KQkq - 0 1".to_string());

    assert_eq!(chess.convert_algebraic_notation_to_index("a8"), Some(0));
    assert_eq!(chess.convert_algebraic_notation_to_index("e2"), Some(52));
    assert_eq!(chess.convert_algebraic_notation_to_index("e9"), None);
    assert_eq!(chess.convert_index_algebraic_notation(100), Some("e2".to_string()));
    assert_eq!(chess.convert_index_algebraic_notation(8), None);
    assert_eq!(chess.inner_moves(100), vec![84, 68]);
    assert_eq!(chess.inner_moves(8), Vec::<u8>::new());
    assert!(chess.is_attacked(35));
    assert!(!chess.is_attacked(68));
    assert!(!chess.is_attacked(200));
}
