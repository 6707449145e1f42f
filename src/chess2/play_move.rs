use vstd::prelude::*;
use super::piece::Piece;
use super::square::SquareCoordinate;

verus! {

/// How a move changes the board beyond moving one piece.
#[derive(Clone, PartialEq, Eq, Structural, Copy, Debug)]
pub enum MoveType {
    Normal,
    EnPassantMove,
    Capture,
    EnPassantCapture,
    CastleKingside,
    CastleQueenside,
    Promotion,
}

impl MoveType {
    /// The bit that stands for this kind of move.
    pub fn to_value(&self) -> (r: u8)
        ensures
            *self == MoveType::Normal ==> r == 0,
            *self == MoveType::EnPassantMove ==> r == 1,
            *self == MoveType::Capture ==> r == 2,
            *self == MoveType::EnPassantCapture ==> r == 4,
            *self == MoveType::CastleKingside ==> r == 8,
            *self == MoveType::CastleQueenside ==> r == 16,
            *self == MoveType::Promotion ==> r == 32,
    {
        match self {
            MoveType::Normal => 0,
            MoveType::EnPassantMove => 1,
            MoveType::Capture => 2,
            MoveType::EnPassantCapture => 4,
            MoveType::CastleKingside => 8,
            MoveType::CastleQueenside => 16,
            MoveType::Promotion => 32,
        }
    }
}

/// A move as a player states it: from, to, and the piece a pawn becomes.
#[derive(Debug, Clone, Copy, PartialEq, Eq, Structural)]
pub struct Move {
    pub from: SquareCoordinate,
    pub to: SquareCoordinate,
    pub promotion_piece: Option<Piece>,
}

/// A move resolved against a position: its kind, and what stood on every slot it writes,
/// so that it can be taken back exactly.
///
/// `aux_sq`/`aux_piece` is the en-passant victim's slot, or the castling rook's corner;
/// `rook_sq`/`rook_piece` is the castling rook's new slot. For other kinds both repeat `to`.
#[derive(Clone, Copy, Debug, PartialEq, Eq, Structural)]
pub struct InternalMove {
    pub move_type: MoveType,
    pub from_sq: usize,
    pub from_piece: Piece,
    pub to_sq: usize,
    pub to_piece: Option<Piece>,
    pub promotion_piece: Option<Piece>,
    pub aux_sq: usize,
    pub aux_piece: Option<Piece>,
    pub rook_sq: usize,
    pub rook_piece: Option<Piece>,
}

} // verus!
