use chess_wasm::chess2::{Chess, ChessError, Color, Move, Piece, PieceType, SquareCoordinate as Square};

#[test]
fn board_set_and_get_pieces() {
    let mut chess = Chess::new();

    assert_eq!(
        chess.set(Square::__BAD_COORD, PieceType::KING, Color::WHITE),
        Err(ChessError::InvalidIndex(Square::__BAD_COORD.to_index()))
    );

    assert_eq!(chess.get(Square::E1), Ok(None));

    let _ = chess.set(Square::E1, PieceType::KING, Color::WHITE);

    assert_eq!(
        chess.get(Square::E1),
        Ok(Some(Piece { piece_type: PieceType::KING, color: Color::WHITE }))
    );

    let _ = chess.remove(Square::E1);

    assert_eq!(chess.get(Square::E1), Ok(None));
}

#[test]
fn make_move() {
    let mut chess = Chess::new();

    let _ = chess.set(Square::E8, PieceType::KING, Color::BLACK);

    assert_eq!(
        chess.get(Square::E8),
        Ok(Some(Piece { piece_type: PieceType::KING, color: Color::BLACK }))
    );

    assert_eq!(
        chess.make_move(Move { from: Square::E8, to: Square::E7, promotion_piece: None }),
        Ok(())
    );

    assert_eq!(
        chess.make_move(Move { from: Square::E3, to: Square::E7, promotion_piece: None }),
        Err(ChessError::InvalidMove(Square::E3.to_index(), Square::E7.to_index()))
    );
}

#[test]
fn en_passant_move() {
    let mut chess = Chess::new();

    let _ = chess.set(Square::E2, PieceType::PAWN, Color::WHITE);

    assert_eq!(
        chess.make_move(Move { from: Square::E2, to: Square::E4, promotion_piece: None }),
        Ok(())
    );

    assert_eq!(chess.en_passant_sq, Some(Square::E3));

    assert_eq!(
        chess.make_move(Move { from: Square::E4, to: Square::E5, promotion_piece: None }),
        Ok(())
    );

    assert_eq!(chess.en_passant_sq, None);
}

#[test]
fn en_passant_capture() {
    let mut chess = Chess::new();

    let _ = chess.set(Square::E5, PieceType::PAWN, Color::WHITE);
    let _ = chess.set(Square::D5, PieceType::PAWN, Color::BLACK);

    chess.en_passant_sq = Some(Square::D6);

    assert_eq!(
        chess.make_move(Move { from: Square::E5, to: Square::D6, promotion_piece: None }),
        Ok(())
    );

    assert_eq!(chess.get(Square::D5), Ok(None));
    assert_eq!(chess.en_passant_sq, None);
    assert_eq!(
        chess.white_captures,
        vec![Piece { piece_type: PieceType::PAWN, color: Color::BLACK }]
    )
}

#[test]
fn undo_normal_move() {
    let mut chess = Chess::new();

    let _ = chess.set(Square::E1, PieceType::KING, Color::WHITE);

    let _ = chess.make_move(Move { from: Square::E1, to: Square::E2, promotion_piece: None });

    assert_eq!(chess.undo_move(), Ok(()));

    assert_eq!(chess.get(Square::E2), Ok(None));

    assert_eq!(
        chess.get(Square::E1),
        Ok(Some(Piece { piece_type: PieceType::KING, color: Color::WHITE }))
    );
}

#[test]
fn undo_en_passant_capture() {
    let mut chess = Chess::new();

    let _ = chess.set(Square::E5, PieceType::PAWN, Color::WHITE);
    let _ = chess.set(Square::D5, PieceType::PAWN, Color::BLACK);

    chess.en_passant_sq = Some(Square::D6);

    assert_eq!(
        chess.make_move(Move { from: Square::E5, to: Square::D6, promotion_piece: None }),
        Ok(())
    );

    assert_eq!(chess.undo_move(), Ok(()));

    assert_eq!(chess.get(Square::D6), Ok(None));
    assert_eq!(
        chess.get(Square::D5),
        Ok(Some(Piece { piece_type: PieceType::PAWN, color: Color::BLACK }))
    );
    assert_eq!(
        chess.get(Square::E5),
        Ok(Some(Piece { piece_type: PieceType::PAWN, color: Color::WHITE }))
    );
}

#[test]
fn undo_en_passant_move() {
    let mut chess = Chess::new();

    let _ = chess.set(Square::E2, PieceType::PAWN, Color::WHITE);

    assert_eq!(
        chess.make_move(Move { from: Square::E2, to: Square::E4, promotion_piece: None }),
        Ok(())
    );

    assert_eq!(chess.en_passant_sq, Some(Square::E3));

    assert_eq!(chess.undo_move(), Ok(()));

    assert_eq!(chess.get(Square::E4), Ok(None));

    assert_eq!(
        chess.get(Square::E2),
        Ok(Some(Piece { piece_type: PieceType::PAWN, color: Color::WHITE }))
    );

    assert_eq!(chess.en_passant_sq, None);
}

#[test]
fn undo_capture() {
    let mut chess = Chess::new();

    let _ = chess.set(Square::F1, PieceType::BISHOP, Color::WHITE);
    let _ = chess.set(Square::C4, PieceType::QUEEN, Color::BLACK);

    assert_eq!(
        chess.make_move(Move { from: Square::F1, to: Square::C4, promotion_piece: None }),
        Ok(())
    );

    assert_eq!(
        chess.white_captures,
        vec![Piece { piece_type: PieceType::QUEEN, color: Color::BLACK }]
    );

    assert_eq!(
        chess.get(Square::C4),
        Ok(Some(Piece { piece_type: PieceType::BISHOP, color: Color::WHITE }))
    );

    assert_eq!(chess.undo_move(), Ok(()));

    assert_eq!(chess.white_captures, vec![]);

    assert_eq!(
        chess.get(Square::F1),
        Ok(Some(Piece { piece_type: PieceType::BISHOP, color: Color::WHITE }))
    );

    assert_eq!(
        chess.get(Square::C4),
        Ok(Some(Piece { piece_type: PieceType::QUEEN, color: Color::BLACK }))
    );
}

#[test]
fn undo_kingside_castle() {
    let mut chess = Chess::new();

    let _ = chess.set(Square::E1, PieceType::KING, Color::WHITE);
    let _ = chess.set(Square::H1, PieceType::ROOK, Color::WHITE);

    assert_eq!(
        chess.make_move(Move { from: Square::E1, to: Square::G1, promotion_piece: None }),
        Ok(())
    );

    assert_eq!(chess.undo_move(), Ok(()));

    assert_eq!(
        chess.get(Square::E1),
        Ok(Some(Piece { piece_type: PieceType::KING, color: Color::WHITE }))
    );

    assert_eq!(
        chess.get(Square::H1),
        Ok(Some(Piece { piece_type: PieceType::ROOK, color: Color::WHITE }))
    );

    assert_eq!(chess.get(Square::G1), Ok(None));
    assert_eq!(chess.get(Square::F1), Ok(None));
    assert_eq!(chess.castling_rights.white.kingside, true);
    assert_eq!(chess.castling_rights.white.queenside, true);
}

#[test]
fn undo_queenside_castle() {
    let mut chess = Chess::new();

    let _ = chess.set(Square::E8, PieceType::KING, Color::BLACK);
    let _ = chess.set(Square::A8, PieceType::ROOK, Color::BLACK);

    assert_eq!(
        chess.make_move(Move { from: Square::E8, to: Square::C8, promotion_piece: None }),
        Ok(())
    );

    assert_eq!(chess.undo_move(), Ok(()));

    assert_eq!(
        chess.get(Square::E8),
        Ok(Some(Piece { piece_type: PieceType::KING, color: Color::BLACK }))
    );

    assert_eq!(
        chess.get(Square::A8),
        Ok(Some(Piece { piece_type: PieceType::ROOK, color: Color::BLACK }))
    );

    assert_eq!(chess.get(Square::C8), Ok(None));
    assert_eq!(chess.get(Square::D8), Ok(None));
    assert_eq!(chess.castling_rights.black.kingside, true);
    assert_eq!(chess.castling_rights.black.queenside, true);
}

#[test]
fn undo_kingside_promotion() {
    let mut chess = Chess::new();

    let _ = chess.set(Square::E7, PieceType::PAWN, Color::WHITE);

    assert_eq!(
        chess.make_move(Move {
            from: Square::E7,
            to: Square::E8,
            promotion_piece: Some(Piece { piece_type: PieceType::QUEEN, color: Color::WHITE })
        }),
        Ok(())
    );

    assert_eq!(chess.undo_move(), Ok(()));

    assert_eq!(
        chess.get(Square::E7),
        Ok(Some(Piece { piece_type: PieceType::PAWN, color: Color::WHITE }))
    );

    assert_eq!(chess.get(Square::E8), Ok(None));
}

#[test]
fn castle_kingside_successfully() {
    let mut chess = Chess::new();

    let _ = chess.set(Square::E1, PieceType::KING, Color::WHITE);
    let _ = chess.set(Square::H1, PieceType::ROOK, Color::WHITE);

    assert_eq!(
        chess.make_move(Move { from: Square::E1, to: Square::G1, promotion_piece: None }),
        Ok(())
    );

    assert_eq!(chess.get(Square::H1), Ok(None));

    assert_eq!(
        chess.get(Square::G1),
        Ok(Some(Piece { piece_type: PieceType::KING, color: Color::WHITE }))
    );

    assert_eq!(
        chess.get(Square::F1),
        Ok(Some(Piece { piece_type: PieceType::ROOK, color: Color::WHITE }))
    );

    assert_eq!(chess.castling_rights.white.kingside, false);
    assert_eq!(chess.castling_rights.white.queenside, false);
}

#[test]
fn castle_queenside_successfully() {
    let mut chess = Chess::new();

    let _ = chess.set(Square::E8, PieceType::KING, Color::BLACK);
    let _ = chess.set(Square::A8, PieceType::ROOK, Color::BLACK);

    assert_eq!(
        chess.make_move(Move { from: Square::E8, to: Square::C8, promotion_piece: None }),
        Ok(())
    );

    assert_eq!(chess.get(Square::A8), Ok(None));

    assert_eq!(
        chess.get(Square::C8),
        Ok(Some(Piece { piece_type: PieceType::KING, color: Color::BLACK }))
    );

    assert_eq!(
        chess.get(Square::D8),
        Ok(Some(Piece { piece_type: PieceType::ROOK, color: Color::BLACK }))
    );

    assert_eq!(chess.castling_rights.black.queenside, false);
    assert_eq!(chess.castling_rights.black.kingside, false);
}

#[test]
fn cannot_castle_if_rook_not_in_correct_square() {
    let mut chess = Chess::new();

    let _ = chess.set(Square::E1, PieceType::KING, Color::WHITE);
    let _ = chess.set(Square::H1, PieceType::ROOK, Color::WHITE);
    let _ = chess.set(Square::A1, PieceType::ROOK, Color::WHITE);

    let _ = chess.make_move(Move { from: Square::H1, to: Square::H2, promotion_piece: None });

    assert_eq!(chess.castling_rights.white.queenside, true);
    assert_eq!(chess.castling_rights.white.kingside, false);

    let _ = chess.make_move(Move { from: Square::A1, to: Square::D1, promotion_piece: None });

    assert_eq!(chess.castling_rights.white.queenside, false);
    assert_eq!(chess.castling_rights.white.kingside, false);
}

#[test]
fn mod_promotion() {
    let mut chess = Chess::new();

    let _ = chess.set(Square::E7, PieceType::PAWN, Color::WHITE);

    assert_eq!(
        chess.make_move(Move {
            from: Square::E7,
            to: Square::E8,
            promotion_piece: Some(Piece { piece_type: PieceType::QUEEN, color: Color::WHITE })
        }),
        Ok(())
    );

    assert_eq!(
        chess.get(Square::E8),
        Ok(Some(Piece { piece_type: PieceType::QUEEN, color: Color::WHITE }))
    );

    assert_eq!(chess.get(Square::E7), Ok(None))
}

#[test]
fn promotion_without_a_piece_is_refused() {
    let mut chess = Chess::new();

    let _ = chess.set(Square::E7, PieceType::PAWN, Color::WHITE);

    assert_eq!(
        chess.make_move(Move { from: Square::E7, to: Square::E8, promotion_piece: None }),
        Err(ChessError::InvalidPromotion)
    );
    assert_eq!(
        chess.make_move(Move { from: Square::__BAD_COORD, to: Square::E8, promotion_piece: None }),
        Err(ChessError::InvalidIndex(200))
    );
}

#[test]
fn square_coordinates() {
    assert_eq!(Square::E4.to_index(), 68);
    assert_eq!(Square::E4.rank(), 4);
    assert_eq!(Square::E4.file(), 4);
    assert_eq!(Square::E4.above(), Ok(Square::E5));
    assert_eq!(Square::E4.below(), Ok(Square::E3));
    assert_eq!(Square::E4.left(), Ok(Square::D4));
    assert_eq!(Square::E4.right(), Ok(Square::F4));
    assert_eq!(Square::E4.upper_left(), Ok(Square::D5));
    assert_eq!(Square::E4.upper_right(), Ok(Square::F5));
    assert_eq!(Square::E4.lower_left(), Ok(Square::D3));
    assert_eq!(Square::E4.lower_right(), Ok(Square::F3));
    assert_eq!(Square::E4.subtract(2), Ok(Square::C4));
    assert_eq!(Square::H1.right(), Err(ChessError::InvalidIndex(120)));
    assert_eq!(Square::A8.above(), Err(ChessError::InvalidIndex(0)));
    assert_eq!(Square::A1.lower_left(), Err(ChessError::InvalidIndex(127)));
    assert_eq!(chess_wasm::chess2::utils::is_valid(0x88), Err(ChessError::InvalidIndex(0x88)));
    assert_eq!(chess_wasm::chess2::utils::is_valid(119), Ok(119));
}

#[test]
fn piece_and_color_values() {
    assert_eq!(Color::WHITE.to_value(), 0);
    assert_eq!(Color::BLACK.to_value(), 128);
    assert_eq!(PieceType::QUEEN.to_value(), 16);
    assert_eq!(PieceType::from_value(8), Some(PieceType::ROOK));
    assert_eq!(PieceType::from_value(3), None);
    assert_eq!(PieceType::from_string('N'), Some(PieceType::KNIGHT));
    assert_eq!(chess_wasm::chess2::MoveType::EnPassantCapture.to_value(), 4);
}

#[test]
fn engine_lists_and_plays_legal_moves() {
    let mut chess = Chess::new();
    let _ = chess.load_fen("rnbqkbnr/pppppppp/8/8/8/8/PPPPPPPP/RNBQKBNR w KQkq - 0 1");

    assert_eq!(chess.moves().len(), 20);

    assert_eq!(
        chess.play_move(Move { from: Square::E2, to: Square::E5, promotion_piece: None }),
        Err(ChessError::InvalidMove(Square::E2.to_index(), Square::E5.to_index()))
    );
    assert_eq!(
        chess.play_move(Move { from: Square::E2, to: Square::E4, promotion_piece: None }),
        Ok(())
    );
    assert_eq!(chess.get_fen(), "rnbqkbnr/pppppppp/8/8/4P3/8/PPPP1PPP/RNBQKBNR b KQkq e3 0 1");
    assert_eq!(chess.turn, Color::BLACK);
    assert_eq!(chess.moves().len(), 20);
}
