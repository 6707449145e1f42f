use vstd::prelude::*;
use super::errors::ChessError;

verus! {

pub type ChessResult<T> = core::result::Result<T, ChessError>;

/// Whether `idx` names a square of the 0x88 board: the rank bits stay below 8 and
/// bit 3 of the file is clear.
pub open spec fn on_board(idx: int) -> bool {
    0 <= idx < 128 && idx % 16 < 8
}

pub proof fn lemma_0x88(idx: usize)
    requires
        idx < 256,
    ensures
        (idx & 0x88 == 0) <==> on_board(idx as int),
{
    assert((idx & 0x88 == 0) <==> (idx < 128 && idx % 16 < 8)) by (bit_vector)
        requires
            idx < 256,
    ;
}

/// `Ok(idx)` when `idx` is on the 0x88 board, else `InvalidIndex(idx)`.
pub fn is_valid(idx: usize) -> (r: ChessResult<usize>)
    ensures
        on_board(idx as int) ==> r == Ok::<usize, ChessError>(idx),
        !on_board(idx as int) ==> r == Err::<usize, ChessError>(ChessError::InvalidIndex(idx)),
{
    if idx < 256 && idx & 0x88 == 0 {
        proof { lemma_0x88(idx); }
        Ok(idx)
    } else {
        proof { if idx < 256 { lemma_0x88(idx); } }
        Err(ChessError::InvalidIndex(idx))
    }
}

} // verus!

verus! {

/// Whether `idx` names a square of the board, by the 0x88 test.
pub fn is_on_board(idx: usize) -> (r: bool)
    ensures
        r == on_board(idx as int),
{
    if idx < 256 {
        proof { lemma_0x88(idx); }
        idx & 0x88 == 0
    } else {
        false
    }
}

} // verus!
