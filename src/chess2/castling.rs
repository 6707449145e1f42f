use vstd::prelude::*;
use super::board::Board;
use super::constants::Color;
use super::piece::{is_piece, Piece, PieceType};
use super::Kings;

verus! {

/// The two castling rights of one side.
#[derive(Clone, Copy, Debug, PartialEq, Eq, Structural)]
pub struct Castling {
    pub kingside: bool,
    pub queenside: bool,
}

/// The castling rights of both sides.
#[derive(Clone, Copy, Debug, PartialEq, Eq, Structural)]
pub struct CastlingRights {
    pub white: Castling,
    pub black: Castling,
}

pub open spec fn holds(b: Seq<super::square::Square>, i: int, t: PieceType, c: Color) -> bool {
    b[i].piece == Some(Piece { piece_type: t, color: c })
}

/// The rights that survive a position: a right stays only while its king is on its home
/// square (e1, e8) and its rook on its corner (h1, a1, h8, a8).
pub open spec fn updated_rights(r: CastlingRights, k: Kings, b: Seq<super::square::Square>) -> CastlingRights {
    CastlingRights {
        white: Castling {
            kingside: r.white.kingside && k.white == Some(116usize) && holds(b, 119, PieceType::ROOK, Color::WHITE),
            queenside: r.white.queenside && k.white == Some(116usize) && holds(b, 112, PieceType::ROOK, Color::WHITE),
        },
        black: Castling {
            kingside: r.black.kingside && k.black == Some(4usize) && holds(b, 7, PieceType::ROOK, Color::BLACK),
            queenside: r.black.queenside && k.black == Some(4usize) && holds(b, 0, PieceType::ROOK, Color::BLACK),
        },
    }
}

/// Every right of `a` is also a right of `b`.
pub open spec fn rights_within(a: CastlingRights, b: CastlingRights) -> bool {
    &&& a.white.kingside ==> b.white.kingside
    &&& a.white.queenside ==> b.white.queenside
    &&& a.black.kingside ==> b.black.kingside
    &&& a.black.queenside ==> b.black.queenside
}


impl CastlingRights {
    pub open spec fn new_spec() -> CastlingRights {
        CastlingRights {
            white: Castling { kingside: true, queenside: true },
            black: Castling { kingside: true, queenside: true },
        }
    }

    /// All four rights.
    pub fn new() -> (r: Self)
        ensures
            r == Self::new_spec(),
    {
        Self {
            white: Castling { kingside: true, queenside: true },
            black: Castling { kingside: true, queenside: true },
        }
    }

    /// Drops each right whose king has left its home square or whose rook has left its corner.
    pub fn update(&mut self, kings: &Kings, board: &Board)
        requires
            board.wf(),
        ensures
            *final(self) == updated_rights(*old(self), *kings, board._board@),
    {
        if !(kings.white == Some(116usize)) {
            self.white.kingside = false;
            self.white.queenside = false;
        }
        if !(kings.black == Some(4usize)) {
            self.black.kingside = false;
            self.black.queenside = false;
        }
        if !is_piece(board._board[119].piece, PieceType::ROOK, Color::WHITE) {
            self.white.kingside = false;
        }
        if !is_piece(board._board[112].piece, PieceType::ROOK, Color::WHITE) {
            self.white.queenside = false;
        }
        if !is_piece(board._board[7].piece, PieceType::ROOK, Color::BLACK) {
            self.black.kingside = false;
        }
        if !is_piece(board._board[0].piece, PieceType::ROOK, Color::BLACK) {
            self.black.queenside = false;
        }
    }
}

} // verus!
