use vstd::prelude::*;

verus! {

/// What can go wrong on the board: a bad square, an illegal move, a bad piece.
#[derive(Debug, PartialEq, Eq, Clone)]
pub enum ChessError {
    IllegalKingSideCastle,
    IllegalQueenSideCastle,
    IllegalCapture,
    UnknownPiece,
    AmbiguousMoveNotation,
    InvalidMove(usize, usize),
    InvalidPromotion,
    InvalidIndex(usize),
    InvalidPieceType,
    UnknownError(String),
}

impl ChessError {
    /// The message that describes the error.
    pub fn message(&self) -> (r: String) {
        match self {
            ChessError::IllegalKingSideCastle => "Illegal king side castle".to_string(),
            ChessError::IllegalQueenSideCastle => "Illegal queen side castle".to_string(),
            ChessError::IllegalCapture => "Illegal capture".to_string(),
            ChessError::UnknownPiece => "Unknown PieceType".to_string(),
            ChessError::AmbiguousMoveNotation => "Ambiguous move notation".to_string(),
            ChessError::InvalidMove(_, _) => "Invalid move".to_string(),
            ChessError::InvalidPromotion => "Invalid promotion".to_string(),
            ChessError::InvalidIndex(_) => "Invalid index".to_string(),
            ChessError::InvalidPieceType => "Invalid PieceType type".to_string(),
            ChessError::UnknownError(s) => s.clone(),
        }
    }
}

} // verus!
