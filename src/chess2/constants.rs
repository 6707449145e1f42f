use vstd::prelude::*;

verus! {

pub const BOARD_SIZE: usize = 128;

pub const COLOR_MASK: u8 = 128;

/// The two sides; White moves first.
#[allow(non_camel_case_types)]
#[derive(Debug, Copy, Clone, PartialEq, Eq, Structural)]
pub enum Color {
    WHITE,
    BLACK,
}

pub open spec fn opposite(c: Color) -> Color {
    match c {
        Color::WHITE => Color::BLACK,
        Color::BLACK => Color::WHITE,
    }
}

impl Color {
    /// The colour bit of the packed piece encoding: 0 for White, 128 for Black.
    pub fn to_value(&self) -> (r: u8)
        ensures
            *self == Color::WHITE ==> r == 0,
            *self == Color::BLACK ==> r == 128,
    {
        match self {
            Color::WHITE => 0,
            Color::BLACK => 128,
        }
    }

    /// The other side.
    pub fn opponent(&self) -> (r: Color)
        ensures
            r == opposite(*self),
    {
        match self {
            Color::WHITE => Color::BLACK,
            Color::BLACK => Color::WHITE,
        }
    }
}

/// Step (0x88 index offset) of the pawn's forward move for each colour.
pub open spec fn forward(c: Color) -> int {
    match c {
        Color::WHITE => -16,
        Color::BLACK => 16,
    }
}

pub open spec fn bishop_deltas() -> Seq<int> {
    seq![17, 15, -17, -15]
}

pub open spec fn rook_deltas() -> Seq<int> {
    seq![16, -16, 1, -1]
}

pub open spec fn queen_deltas() -> Seq<int> {
    seq![16, -16, 1, -1, 17, 15, -17, -15]
}

pub open spec fn knight_deltas() -> Seq<int> {
    seq![14, 31, 18, 33, -14, -31, -18, -33]
}

/// One-square king steps; castling (two squares) is treated apart.
pub open spec fn king_deltas() -> Seq<int> {
    seq![1, 16, 17, 15, -1, -16, -17, -15]
}

pub fn knight_delta(i: usize) -> (d: i8)
    requires
        i < 8,
    ensures
        d == knight_deltas()[i as int],
{
    match i {
        0 => 14,
        1 => 31,
        2 => 18,
        3 => 33,
        4 => -14,
        5 => -31,
        6 => -18,
        _ => -33,
    }
}

pub fn king_delta(i: usize) -> (d: i8)
    requires
        i < 8,
    ensures
        d == king_deltas()[i as int],
{
    match i {
        0 => 1,
        1 => 16,
        2 => 17,
        3 => 15,
        4 => -1,
        5 => -16,
        6 => -17,
        _ => -15,
    }
}

pub fn queen_delta(i: usize) -> (d: i8)
    requires
        i < 8,
    ensures
        d == queen_deltas()[i as int],
        i < 4 ==> d == rook_deltas()[i as int],
        i >= 4 ==> d == bishop_deltas()[i - 4],
{
    match i {
        0 => 16,
        1 => -16,
        2 => 1,
        3 => -1,
        4 => 17,
        5 => 15,
        6 => -17,
        _ => -15,
    }
}

} // verus!
