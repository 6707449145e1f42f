use vstd::prelude::*;
use super::castling::CastlingRights;
use super::constants::Color;
use super::piece::Piece;
use super::play_move::InternalMove;
use super::square::SquareCoordinate;
use super::Kings;

verus! {

/// What a move needs to be taken back: the move itself and the state it overwrote.
#[derive(Clone, Copy, Debug)]
pub struct HistoryEntry {
    pub player_move: InternalMove,
    pub turn: Color,
    pub kings: Kings,
    pub castling_rights: CastlingRights,
    pub en_passant_sq: Option<SquareCoordinate>,
    pub half_moves: u32,
    pub full_moves: u32,
    /// The piece the move captured, if any (kept in the mover's capture list).
    pub captured: Option<Piece>,
}

/// The stack of moves made, last on top.
#[derive(Debug)]
pub struct MoveHistory {
    pub entries: Vec<HistoryEntry>,
}

impl MoveHistory {
    pub fn new() -> (r: Self)
        ensures
            r.entries@.len() == 0,
    {
        Self { entries: Vec::new() }
    }

    pub fn push(&mut self, entry: HistoryEntry)
        ensures
            final(self).entries@ == old(self).entries@.push(entry),
    {
        self.entries.push(entry);
    }

    pub fn pop(&mut self) -> (r: Option<HistoryEntry>)
        ensures
            old(self).entries@.len() == 0 ==> r is None && final(self).entries@ == old(self).entries@,
            old(self).entries@.len() > 0 ==> r == Some(old(self).entries@.last())
                && final(self).entries@ == old(self).entries@.drop_last(),
    {
        self.entries.pop()
    }
}

} // verus!
