use vstd::prelude::*;

verus! {

/// Why a move written in algebraic notation, or a position, was refused.
#[derive(Debug, PartialEq, Eq, Clone, Copy, Structural)]
pub enum MoveError {
    IllegalKingSideCastle,
    IllegalQueenSideCastle,
    IllegalCapture,
    UnknownPiece,
    AmbiguousMoveNotation,
    InvalidPieceToMove,
    InvalidPromotion,
    /// The text is not a move in algebraic notation.
    InvalidNotation,
    /// The text is not a valid FEN position.
    InvalidFen,
}

impl MoveError {
    /// The message that describes the error.
    pub fn message(&self) -> (r: &'static str) {
        match self {
            MoveError::IllegalKingSideCastle => "Illegal king side castle",
            MoveError::IllegalQueenSideCastle => "Illegal queen side castle",
            MoveError::IllegalCapture => "Illegal capture",
            MoveError::UnknownPiece => "Unknown piece",
            MoveError::AmbiguousMoveNotation => "Ambiguous move notation",
            MoveError::InvalidPieceToMove => "Can't find piece to move",
            MoveError::InvalidPromotion => "Invalid promotion",
            MoveError::InvalidNotation => "Invalid move notation",
            MoveError::InvalidFen => "Invalid FEN",
        }
    }
}

} // verus!
