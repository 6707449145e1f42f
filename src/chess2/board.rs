use vstd::prelude::*;
use super::constants::{Color, BOARD_SIZE};
use super::piece::{Piece, PieceType};
use super::square::{sq_index, Square, SquareCoordinate};
use super::utils::{is_valid, on_board, ChessResult};
use super::errors::ChessError;

verus! {

/// The 128 slots of the 0x88 mailbox; only the 64 on-board slots ever hold a piece.
#[derive(Debug)]
pub struct Board {
    pub _board: Vec<Square>,
}

impl Board {
    /// The board is 128 slots long.
    pub open spec fn wf(&self) -> bool {
        self._board@.len() == 128
    }

    /// What stands on slot `i`.
    pub open spec fn at(&self, i: int) -> Option<Piece> {
        self._board@[i].piece
    }

    /// An empty board.
    pub fn new() -> (r: Self)
        ensures
            r.wf(),
            forall|i: int| 0 <= i < 128 ==> #[trigger] r._board@[i].piece is None,
    {
        let mut v: Vec<Square> = Vec::new();
        while v.len() < BOARD_SIZE
            invariant
                v@.len() <= 128,
                forall|i: int| 0 <= i < v@.len() ==> #[trigger] v@[i].piece is None,
            decreases 128 - v@.len(),
        {
            v.push(Square { piece: None });
        }
        Board { _board: v }
    }

    /// What stands on `sq`, or an `InvalidIndex` error when `sq` is no square of the board.
    pub fn get(&self, sq: SquareCoordinate) -> (r: ChessResult<Option<Piece>>)
        requires
            self.wf(),
        ensures
            on_board(sq_index(sq)) ==> r == Ok::<Option<Piece>, ChessError>(self.at(sq_index(sq))),
            !on_board(sq_index(sq)) ==> r == Err::<Option<Piece>, ChessError>(
                ChessError::InvalidIndex(sq_index(sq) as usize),
            ),
    {
        let idx = self.is_valid(sq.to_index())?;
        Ok(self._board[idx].piece)
    }

    /// Puts a piece of `piece_type` and `color` on `sq`; returns it with the slot's index.
    pub fn set(&mut self, sq: SquareCoordinate, piece_type: PieceType, color: Color) -> (r:
        ChessResult<(Piece, usize)>)
        requires
            old(self).wf(),
        ensures
            final(self).wf(),
            on_board(sq_index(sq)) ==> r == Ok::<(Piece, usize), ChessError>(
                (Piece { piece_type, color }, sq_index(sq) as usize),
            ) && final(self)._board@ == old(self)._board@.update(
                sq_index(sq),
                Square { piece: Some(Piece { piece_type, color }) },
            ),
            !on_board(sq_index(sq)) ==> r == Err::<(Piece, usize), ChessError>(
                ChessError::InvalidIndex(sq_index(sq) as usize),
            ) && final(self)._board@ == old(self)._board@,
    {
        let idx = self.is_valid(sq.to_index())?;
        let piece = Piece { piece_type, color };
        self._board.set(idx, Square { piece: Some(piece) });
        Ok((piece, idx))
    }

    /// Empties `sq`.
    pub fn remove(&mut self, sq: SquareCoordinate) -> (r: ChessResult<()>)
        requires
            old(self).wf(),
        ensures
            final(self).wf(),
            on_board(sq_index(sq)) ==> r == Ok::<(), ChessError>(()) && final(self)._board@
                == old(self)._board@.update(sq_index(sq), Square { piece: None }),
            !on_board(sq_index(sq)) ==> r == Err::<(), ChessError>(
                ChessError::InvalidIndex(sq_index(sq) as usize),
            ) && final(self)._board@ == old(self)._board@,
    {
        let idx = self.is_valid(sq.to_index())?;
        self._board.set(idx, Square { piece: None });
        Ok(())
    }

    /// `Ok(idx)` when `idx` is a square of the board, else `InvalidIndex(idx)`.
    pub fn is_valid(&self, idx: usize) -> (r: ChessResult<usize>)
        ensures
            on_board(idx as int) ==> r == Ok::<usize, ChessError>(idx),
            !on_board(idx as int) ==> r == Err::<usize, ChessError>(ChessError::InvalidIndex(idx)),
    {
        is_valid(idx)
    }
}

} // verus!
