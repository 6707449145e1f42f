use vstd::prelude::*;
use super::constants::Color;

verus! {

/// A piece: its kind and its colour.
#[derive(Debug, Clone, Copy, PartialEq, Eq, Structural)]
pub struct Piece {
    pub piece_type: PieceType,
    pub color: Color,
}

/// The six kinds of piece.
#[allow(non_camel_case_types)]
#[derive(Debug, Clone, Copy, PartialEq, Eq, Structural, Hash)]
pub enum PieceType {
    PAWN,
    KNIGHT,
    BISHOP,
    ROOK,
    QUEEN,
    KING,
}

/// The bit that stands for each kind in the packed encoding.
pub open spec fn type_value(t: PieceType) -> u8 {
    match t {
        PieceType::PAWN => 1,
        PieceType::KNIGHT => 2,
        PieceType::BISHOP => 4,
        PieceType::ROOK => 8,
        PieceType::QUEEN => 16,
        PieceType::KING => 32,
    }
}

/// The letter of a kind in algebraic notation, upper case.
pub open spec fn type_letter(t: PieceType) -> char {
    match t {
        PieceType::PAWN => 'P',
        PieceType::KNIGHT => 'N',
        PieceType::BISHOP => 'B',
        PieceType::ROOK => 'R',
        PieceType::QUEEN => 'Q',
        PieceType::KING => 'K',
    }
}

/// The kind whose upper-case letter is `c`.
pub open spec fn type_of_letter(c: char) -> Option<PieceType> {
    if c == 'P' {
        Some(PieceType::PAWN)
    } else if c == 'N' {
        Some(PieceType::KNIGHT)
    } else if c == 'B' {
        Some(PieceType::BISHOP)
    } else if c == 'R' {
        Some(PieceType::ROOK)
    } else if c == 'Q' {
        Some(PieceType::QUEEN)
    } else if c == 'K' {
        Some(PieceType::KING)
    } else {
        None
    }
}

/// Whether `p` is a piece of kind `t` and colour `c`.
pub fn is_piece(p: Option<Piece>, t: PieceType, c: Color) -> (r: bool)
    ensures
        r == (p == Some(Piece { piece_type: t, color: c })),
{
    match p {
        Some(q) => q.piece_type == t && q.color == c,
        None => false,
    }
}

impl PieceType {
    /// The bit of this kind in the packed encoding.
    pub fn to_value(&self) -> (r: u8)
        ensures
            r == type_value(*self),
    {
        match self {
            PieceType::PAWN => 1,
            PieceType::KNIGHT => 2,
            PieceType::BISHOP => 4,
            PieceType::ROOK => 8,
            PieceType::QUEEN => 16,
            PieceType::KING => 32,
        }
    }

    /// The kind whose bit is `value`, if any.
    pub fn from_value(value: u8) -> (r: Option<PieceType>)
        ensures
            r matches Some(t) ==> type_value(t) == value,
            r is None <==> !(value == 1 || value == 2 || value == 4 || value == 8 || value == 16
                || value == 32),
    {
        match value {
            1 => Some(PieceType::PAWN),
            2 => Some(PieceType::KNIGHT),
            4 => Some(PieceType::BISHOP),
            8 => Some(PieceType::ROOK),
            16 => Some(PieceType::QUEEN),
            32 => Some(PieceType::KING),
            _ => None,
        }
    }

    /// The kind named by an upper-case letter (`P`, `N`, `B`, `R`, `Q`, `K`).
    pub fn from_string(c: char) -> (r: Option<PieceType>)
        ensures
            r == type_of_letter(c),
    {
        if c == 'P' {
            Some(PieceType::PAWN)
        } else if c == 'N' {
            Some(PieceType::KNIGHT)
        } else if c == 'B' {
            Some(PieceType::BISHOP)
        } else if c == 'R' {
            Some(PieceType::ROOK)
        } else if c == 'Q' {
            Some(PieceType::QUEEN)
        } else if c == 'K' {
            Some(PieceType::KING)
        } else {
            None
        }
    }

    /// The upper-case letter of this kind.
    pub fn letter(&self) -> (r: char)
        ensures
            r == type_letter(*self),
    {
        match self {
            PieceType::PAWN => 'P',
            PieceType::KNIGHT => 'N',
            PieceType::BISHOP => 'B',
            PieceType::ROOK => 'R',
            PieceType::QUEEN => 'Q',
            PieceType::KING => 'K',
        }
    }
}

} // verus!
