use vstd::prelude::*;
use super::errors::ChessError;
use super::piece::Piece;
use super::utils::{is_valid, on_board, ChessResult};

verus! {

/// A square of the board together with what stands on it.
#[derive(Debug, Clone, Copy)]
pub struct Square {
    pub piece: Option<Piece>,
}

/// The 64 squares of the board, plus one marker that names no square.
#[allow(non_camel_case_types)]
#[derive(Clone, Copy, PartialEq, Eq, Structural, Debug)]
pub enum SquareCoordinate {
    A8,
    B8,
    C8,
    D8,
    E8,
    F8,
    G8,
    H8,
    A7,
    B7,
    C7,
    D7,
    E7,
    F7,
    G7,
    H7,
    A6,
    B6,
    C6,
    D6,
    E6,
    F6,
    G6,
    H6,
    A5,
    B5,
    C5,
    D5,
    E5,
    F5,
    G5,
    H5,
    A4,
    B4,
    C4,
    D4,
    E4,
    F4,
    G4,
    H4,
    A3,
    B3,
    C3,
    D3,
    E3,
    F3,
    G3,
    H3,
    A2,
    B2,
    C2,
    D2,
    E2,
    F2,
    G2,
    H2,
    A1,
    B1,
    C1,
    D1,
    E1,
    F1,
    G1,
    H1,
    __BAD_COORD,
}

/// The 0x88 index of a square (`16 * (8 - rank) + file`); the marker maps to 200.
pub open spec fn sq_index(sq: SquareCoordinate) -> int {
    match sq {
        SquareCoordinate::A8 => 0,
        SquareCoordinate::B8 => 1,
        SquareCoordinate::C8 => 2,
        SquareCoordinate::D8 => 3,
        SquareCoordinate::E8 => 4,
        SquareCoordinate::F8 => 5,
        SquareCoordinate::G8 => 6,
        SquareCoordinate::H8 => 7,
        SquareCoordinate::A7 => 16,
        SquareCoordinate::B7 => 17,
        SquareCoordinate::C7 => 18,
        SquareCoordinate::D7 => 19,
        SquareCoordinate::E7 => 20,
        SquareCoordinate::F7 => 21,
        SquareCoordinate::G7 => 22,
        SquareCoordinate::H7 => 23,
        SquareCoordinate::A6 => 32,
        SquareCoordinate::B6 => 33,
        SquareCoordinate::C6 => 34,
        SquareCoordinate::D6 => 35,
        SquareCoordinate::E6 => 36,
        SquareCoordinate::F6 => 37,
        SquareCoordinate::G6 => 38,
        SquareCoordinate::H6 => 39,
        SquareCoordinate::A5 => 48,
        SquareCoordinate::B5 => 49,
        SquareCoordinate::C5 => 50,
        SquareCoordinate::D5 => 51,
        SquareCoordinate::E5 => 52,
        SquareCoordinate::F5 => 53,
        SquareCoordinate::G5 => 54,
        SquareCoordinate::H5 => 55,
        SquareCoordinate::A4 => 64,
        SquareCoordinate::B4 => 65,
        SquareCoordinate::C4 => 66,
        SquareCoordinate::D4 => 67,
        SquareCoordinate::E4 => 68,
        SquareCoordinate::F4 => 69,
        SquareCoordinate::G4 => 70,
        SquareCoordinate::H4 => 71,
        SquareCoordinate::A3 => 80,
        SquareCoordinate::B3 => 81,
        SquareCoordinate::C3 => 82,
        SquareCoordinate::D3 => 83,
        SquareCoordinate::E3 => 84,
        SquareCoordinate::F3 => 85,
        SquareCoordinate::G3 => 86,
        SquareCoordinate::H3 => 87,
        SquareCoordinate::A2 => 96,
        SquareCoordinate::B2 => 97,
        SquareCoordinate::C2 => 98,
        SquareCoordinate::D2 => 99,
        SquareCoordinate::E2 => 100,
        SquareCoordinate::F2 => 101,
        SquareCoordinate::G2 => 102,
        SquareCoordinate::H2 => 103,
        SquareCoordinate::A1 => 112,
        SquareCoordinate::B1 => 113,
        SquareCoordinate::C1 => 114,
        SquareCoordinate::D1 => 115,
        SquareCoordinate::E1 => 116,
        SquareCoordinate::F1 => 117,
        SquareCoordinate::G1 => 118,
        SquareCoordinate::H1 => 119,
        SquareCoordinate::__BAD_COORD => 200,
    }
}

/// The square whose 0x88 index is `idx`, or the marker when `idx` is off the board.
pub open spec fn coord_of(idx: int) -> SquareCoordinate {
    if 0 <= idx < 256 {
        coord_of_byte(idx as u8)
    } else {
        SquareCoordinate::__BAD_COORD
    }
}

pub open spec fn coord_of_byte(idx: u8) -> SquareCoordinate {
    match idx {
        0 => SquareCoordinate::A8,
        1 => SquareCoordinate::B8,
        2 => SquareCoordinate::C8,
        3 => SquareCoordinate::D8,
        4 => SquareCoordinate::E8,
        5 => SquareCoordinate::F8,
        6 => SquareCoordinate::G8,
        7 => SquareCoordinate::H8,
        16 => SquareCoordinate::A7,
        17 => SquareCoordinate::B7,
        18 => SquareCoordinate::C7,
        19 => SquareCoordinate::D7,
        20 => SquareCoordinate::E7,
        21 => SquareCoordinate::F7,
        22 => SquareCoordinate::G7,
        23 => SquareCoordinate::H7,
        32 => SquareCoordinate::A6,
        33 => SquareCoordinate::B6,
        34 => SquareCoordinate::C6,
        35 => SquareCoordinate::D6,
        36 => SquareCoordinate::E6,
        37 => SquareCoordinate::F6,
        38 => SquareCoordinate::G6,
        39 => SquareCoordinate::H6,
        48 => SquareCoordinate::A5,
        49 => SquareCoordinate::B5,
        50 => SquareCoordinate::C5,
        51 => SquareCoordinate::D5,
        52 => SquareCoordinate::E5,
        53 => SquareCoordinate::F5,
        54 => SquareCoordinate::G5,
        55 => SquareCoordinate::H5,
        64 => SquareCoordinate::A4,
        65 => SquareCoordinate::B4,
        66 => SquareCoordinate::C4,
        67 => SquareCoordinate::D4,
        68 => SquareCoordinate::E4,
        69 => SquareCoordinate::F4,
        70 => SquareCoordinate::G4,
        71 => SquareCoordinate::H4,
        80 => SquareCoordinate::A3,
        81 => SquareCoordinate::B3,
        82 => SquareCoordinate::C3,
        83 => SquareCoordinate::D3,
        84 => SquareCoordinate::E3,
        85 => SquareCoordinate::F3,
        86 => SquareCoordinate::G3,
        87 => SquareCoordinate::H3,
        96 => SquareCoordinate::A2,
        97 => SquareCoordinate::B2,
        98 => SquareCoordinate::C2,
        99 => SquareCoordinate::D2,
        100 => SquareCoordinate::E2,
        101 => SquareCoordinate::F2,
        102 => SquareCoordinate::G2,
        103 => SquareCoordinate::H2,
        112 => SquareCoordinate::A1,
        113 => SquareCoordinate::B1,
        114 => SquareCoordinate::C1,
        115 => SquareCoordinate::D1,
        116 => SquareCoordinate::E1,
        117 => SquareCoordinate::F1,
        118 => SquareCoordinate::G1,
        119 => SquareCoordinate::H1,
        _ => SquareCoordinate::__BAD_COORD,
    }
}


/// What stepping `delta` indices from `sq` gives: the square reached, or the error.
pub open spec fn shift_result(sq: SquareCoordinate, delta: int) -> Result<SquareCoordinate, ChessError> {
    let t = sq_index(sq) + delta;
    if on_board(t) {
        Ok(coord_of(t))
    } else if t < 0 {
        Err(ChessError::InvalidIndex(sq_index(sq) as usize))
    } else {
        Err(ChessError::InvalidIndex(t as usize))
    }
}

/// Rank 1 to 8 of an on-board index.
pub open spec fn rank_of(idx: int) -> int {
    8 - idx / 16
}

/// File 0 (a) to 7 (h) of an on-board index.
pub open spec fn file_of(idx: int) -> int {
    idx % 16
}

pub proof fn lemma_coord_round_trip(idx: int)
    requires
        on_board(idx),
    ensures
        sq_index(coord_of(idx)) == idx,
        coord_of(idx) != SquareCoordinate::__BAD_COORD,
{
}

pub proof fn lemma_index_round_trip(sq: SquareCoordinate)
    ensures
        sq != SquareCoordinate::__BAD_COORD ==> on_board(sq_index(sq)) && coord_of(sq_index(sq)) == sq,
        sq == SquareCoordinate::__BAD_COORD ==> !on_board(sq_index(sq)),
{
}

/// The square whose 0x88 index is `idx`; the marker when `idx` names no square.
pub fn to_coordinate(idx: u8) -> (r: SquareCoordinate)
    ensures
        r == coord_of(idx as int),
{
    match idx {
        0 => SquareCoordinate::A8,
        1 => SquareCoordinate::B8,
        2 => SquareCoordinate::C8,
        3 => SquareCoordinate::D8,
        4 => SquareCoordinate::E8,
        5 => SquareCoordinate::F8,
        6 => SquareCoordinate::G8,
        7 => SquareCoordinate::H8,
        16 => SquareCoordinate::A7,
        17 => SquareCoordinate::B7,
        18 => SquareCoordinate::C7,
        19 => SquareCoordinate::D7,
        20 => SquareCoordinate::E7,
        21 => SquareCoordinate::F7,
        22 => SquareCoordinate::G7,
        23 => SquareCoordinate::H7,
        32 => SquareCoordinate::A6,
        33 => SquareCoordinate::B6,
        34 => SquareCoordinate::C6,
        35 => SquareCoordinate::D6,
        36 => SquareCoordinate::E6,
        37 => SquareCoordinate::F6,
        38 => SquareCoordinate::G6,
        39 => SquareCoordinate::H6,
        48 => SquareCoordinate::A5,
        49 => SquareCoordinate::B5,
        50 => SquareCoordinate::C5,
        51 => SquareCoordinate::D5,
        52 => SquareCoordinate::E5,
        53 => SquareCoordinate::F5,
        54 => SquareCoordinate::G5,
        55 => SquareCoordinate::H5,
        64 => SquareCoordinate::A4,
        65 => SquareCoordinate::B4,
        66 => SquareCoordinate::C4,
        67 => SquareCoordinate::D4,
        68 => SquareCoordinate::E4,
        69 => SquareCoordinate::F4,
        70 => SquareCoordinate::G4,
        71 => SquareCoordinate::H4,
        80 => SquareCoordinate::A3,
        81 => SquareCoordinate::B3,
        82 => SquareCoordinate::C3,
        83 => SquareCoordinate::D3,
        84 => SquareCoordinate::E3,
        85 => SquareCoordinate::F3,
        86 => SquareCoordinate::G3,
        87 => SquareCoordinate::H3,
        96 => SquareCoordinate::A2,
        97 => SquareCoordinate::B2,
        98 => SquareCoordinate::C2,
        99 => SquareCoordinate::D2,
        100 => SquareCoordinate::E2,
        101 => SquareCoordinate::F2,
        102 => SquareCoordinate::G2,
        103 => SquareCoordinate::H2,
        112 => SquareCoordinate::A1,
        113 => SquareCoordinate::B1,
        114 => SquareCoordinate::C1,
        115 => SquareCoordinate::D1,
        116 => SquareCoordinate::E1,
        117 => SquareCoordinate::F1,
        118 => SquareCoordinate::G1,
        119 => SquareCoordinate::H1,
        _ => SquareCoordinate::__BAD_COORD,
    }
}

impl SquareCoordinate {
    /// The 0x88 index of the square (A8 = 0, B8 = 1, ..., H1 = 119).
    pub fn to_index(&self) -> (r: usize)
        ensures
            r == sq_index(*self),
    {
        match self {
            SquareCoordinate::A8 => 0,
            SquareCoordinate::B8 => 1,
            SquareCoordinate::C8 => 2,
            SquareCoordinate::D8 => 3,
            SquareCoordinate::E8 => 4,
            SquareCoordinate::F8 => 5,
            SquareCoordinate::G8 => 6,
            SquareCoordinate::H8 => 7,
            SquareCoordinate::A7 => 16,
            SquareCoordinate::B7 => 17,
            SquareCoordinate::C7 => 18,
            SquareCoordinate::D7 => 19,
            SquareCoordinate::E7 => 20,
            SquareCoordinate::F7 => 21,
            SquareCoordinate::G7 => 22,
            SquareCoordinate::H7 => 23,
            SquareCoordinate::A6 => 32,
            SquareCoordinate::B6 => 33,
            SquareCoordinate::C6 => 34,
            SquareCoordinate::D6 => 35,
            SquareCoordinate::E6 => 36,
            SquareCoordinate::F6 => 37,
            SquareCoordinate::G6 => 38,
            SquareCoordinate::H6 => 39,
            SquareCoordinate::A5 => 48,
            SquareCoordinate::B5 => 49,
            SquareCoordinate::C5 => 50,
            SquareCoordinate::D5 => 51,
            SquareCoordinate::E5 => 52,
            SquareCoordinate::F5 => 53,
            SquareCoordinate::G5 => 54,
            SquareCoordinate::H5 => 55,
            SquareCoordinate::A4 => 64,
            SquareCoordinate::B4 => 65,
            SquareCoordinate::C4 => 66,
            SquareCoordinate::D4 => 67,
            SquareCoordinate::E4 => 68,
            SquareCoordinate::F4 => 69,
            SquareCoordinate::G4 => 70,
            SquareCoordinate::H4 => 71,
            SquareCoordinate::A3 => 80,
            SquareCoordinate::B3 => 81,
            SquareCoordinate::C3 => 82,
            SquareCoordinate::D3 => 83,
            SquareCoordinate::E3 => 84,
            SquareCoordinate::F3 => 85,
            SquareCoordinate::G3 => 86,
            SquareCoordinate::H3 => 87,
            SquareCoordinate::A2 => 96,
            SquareCoordinate::B2 => 97,
            SquareCoordinate::C2 => 98,
            SquareCoordinate::D2 => 99,
            SquareCoordinate::E2 => 100,
            SquareCoordinate::F2 => 101,
            SquareCoordinate::G2 => 102,
            SquareCoordinate::H2 => 103,
            SquareCoordinate::A1 => 112,
            SquareCoordinate::B1 => 113,
            SquareCoordinate::C1 => 114,
            SquareCoordinate::D1 => 115,
            SquareCoordinate::E1 => 116,
            SquareCoordinate::F1 => 117,
            SquareCoordinate::G1 => 118,
            SquareCoordinate::H1 => 119,
            SquareCoordinate::__BAD_COORD => 200,
        }
    }

    /// The rank, 1 to 8, of a square of the board.
    pub fn rank(&self) -> (r: u8)
        requires
            *self != SquareCoordinate::__BAD_COORD,
        ensures
            r == rank_of(sq_index(*self)),
            1 <= r <= 8,
    {
        proof { lemma_index_round_trip(*self); }
        let idx = self.to_index() as u8;
        assert(idx >> 4 == idx / 16) by (bit_vector);
        8 - (idx >> 4)
    }

    /// The file, 0 (a) to 7 (h), of a square of the board.
    pub fn file(&self) -> (r: u8)
        requires
            *self != SquareCoordinate::__BAD_COORD,
        ensures
            r == file_of(sq_index(*self)),
            r < 8,
    {
        proof { lemma_index_round_trip(*self); }
        let idx = self.to_index() as u8;
        assert(idx & 7 == idx % 8) by (bit_vector);
        idx & 7
    }

    /// The square `delta` index steps away; an `InvalidIndex` error when that falls off the
    /// board (carrying the index reached, or this square's index when it would be negative).
    fn shifted(&self, delta: i16) -> (r: ChessResult<SquareCoordinate>)
        requires
            -256 < delta < 256,
        ensures
            r == shift_result(*self, delta as int),
    {
        let idx = self.to_index();
        let t = idx as i16 + delta;
        if t < 0 {
            Err(ChessError::InvalidIndex(idx))
        } else {
            let v = is_valid(t as usize);
            match v {
                Ok(i) => {
                    proof { lemma_coord_round_trip(i as int); }
                    Ok(to_coordinate(i as u8))
                },
                Err(e) => Err(e),
            }
        }
    }

    /// The square one rank up (towards rank 8), or an `InvalidIndex` error off the board.
    pub fn above(&self) -> (r: ChessResult<Self>)
        ensures
            r == shift_result(*self, -16),
    {
        self.shifted(-16)
    }

    /// The square one rank down (towards rank 1), or an `InvalidIndex` error off the board.
    pub fn below(&self) -> (r: ChessResult<Self>)
        ensures
            r == shift_result(*self, 16),
    {
        self.shifted(16)
    }

    /// The square one file left, or an `InvalidIndex` error off the board.
    pub fn left(&self) -> (r: ChessResult<Self>)
        ensures
            r == shift_result(*self, -1),
    {
        self.shifted(-1)
    }

    /// The square one file right, or an `InvalidIndex` error off the board.
    pub fn right(&self) -> (r: ChessResult<Self>)
        ensures
            r == shift_result(*self, 1),
    {
        self.shifted(1)
    }

    /// The square up and left, or an `InvalidIndex` error off the board.
    pub fn upper_left(&self) -> (r: ChessResult<Self>)
        ensures
            r == shift_result(*self, -17),
    {
        self.shifted(-17)
    }

    /// The square up and right, or an `InvalidIndex` error off the board.
    pub fn upper_right(&self) -> (r: ChessResult<Self>)
        ensures
            r == shift_result(*self, -15),
    {
        self.shifted(-15)
    }

    /// The square down and left, or an `InvalidIndex` error off the board.
    pub fn lower_left(&self) -> (r: ChessResult<Self>)
        ensures
            r == shift_result(*self, 15),
    {
        self.shifted(15)
    }

    /// The square down and right, or an `InvalidIndex` error off the board.
    pub fn lower_right(&self) -> (r: ChessResult<Self>)
        ensures
            r == shift_result(*self, 17),
    {
        self.shifted(17)
    }

    /// The square `rhs` index steps before this one, or an `InvalidIndex` error off the board.
    pub fn subtract(&self, rhs: usize) -> (r: ChessResult<Self>)
        ensures
            r == shift_result(*self, -(rhs as int)),
    {
        if rhs >= 256 {
            Err(ChessError::InvalidIndex(self.to_index()))
        } else {
            self.shifted(-(rhs as i16))
        }
    }
}

} // verus!
