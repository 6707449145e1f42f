use vstd::prelude::*;
use super::attack::{attacked, is_attacked_by};
use super::constants::{opposite, Color};
use super::errors::ChessError;
use super::history::MoveHistory;
use super::movegen::{king_attacked, legal, listed, move_of, promo_piece, Target};
use super::piece::{is_piece, Piece, PieceType};
use super::square::{lemma_coord_round_trip, sq_index, to_coordinate, Square};
use super::utils::{is_on_board, on_board, ChessResult};
use super::{find_king, king_slot_ok, offboard_empty, Chess, ChessView, Kings, Move, SquareCoordinate};

verus! {

/// The kind a promotion piece names.
pub open spec fn kind_of(p: Option<Piece>) -> Option<PieceType> {
    match p {
        Some(q) => Some(q.piece_type),
        None => None,
    }
}

/// The moves of `r` are exactly the legal moves from `from` in `v`.
pub open spec fn lists_legal_from(v: ChessView, from: int, r: Seq<Move>) -> bool {
    &&& forall|j: int| 0 <= j < r.len() ==> legal(v, from, sq_index(#[trigger] r[j].to), kind_of(r[j].promotion_piece))
        && r[j] == move_of(from, sq_index(r[j].to), kind_of(r[j].promotion_piece), v.turn)
    &&& forall|to: int, pr: Option<PieceType>| #[trigger] legal(v, from, to, pr) ==> exists|j: int|
        0 <= j < r.len() && r[j] == move_of(from, to, pr, v.turn)
}

impl Chess {
    /// The registry entry of colour `c` after a direct edit of the board.
    fn refresh_king(&self, slot: Option<usize>, c: Color) -> (r: Option<usize>)
        requires
            self.board.wf(),
            offboard_empty(self.board._board@),
            slot matches Some(s) ==> on_board(s as int),
        ensures
            king_slot_ok(self.board._board@, r, c),
    {
        match slot {
            Some(s) => {
                if is_piece(self.board._board[s].piece, PieceType::KING, c) {
                    Some(s)
                } else {
                    find_king(&self.board, c)
                }
            },
            None => find_king(&self.board, c),
        }
    }

    /// What stands on `sq` (`None` for an empty square), or `InvalidIndex` off the board.
    pub fn get(&self, sq: SquareCoordinate) -> (r: ChessResult<Option<Piece>>)
        requires
            self.wf(),
        ensures
            on_board(sq_index(sq)) ==> r == Ok::<Option<Piece>, ChessError>(self@.board[sq_index(sq)].piece),
            !on_board(sq_index(sq)) ==> r == Err::<Option<Piece>, ChessError>(
                ChessError::InvalidIndex(sq_index(sq) as usize),
            ),
    {
        self.board.get(sq)
    }

    /// Puts a piece on `sq` and keeps the king registry right; a king placed this way
    /// becomes its side's registered king. Editing the board forgets the moves made so far.
    pub fn set(&mut self, sq: SquareCoordinate, piece: PieceType, color: Color) -> (r: ChessResult<(Piece, usize)>)
        requires
            old(self).wf(),
        ensures
            final(self).wf(),
            on_board(sq_index(sq)) ==> {
                &&& r == Ok::<(Piece, usize), ChessError>((Piece { piece_type: piece, color }, sq_index(sq) as usize))
                &&& final(self)@.board == old(self)@.board.update(
                    sq_index(sq),
                    Square { piece: Some(Piece { piece_type: piece, color }) },
                )
                &&& final(self)@.history.len() == 0
                &&& piece == PieceType::KING && color == Color::WHITE ==> final(self)@.kings.white == Some(sq_index(sq) as usize)
                &&& piece == PieceType::KING && color == Color::BLACK ==> final(self)@.kings.black == Some(sq_index(sq) as usize)
                &&& final(self)@.turn == old(self)@.turn
                &&& final(self)@.castling_rights == old(self)@.castling_rights
                &&& final(self)@.en_passant_sq == old(self)@.en_passant_sq
            },
            !on_board(sq_index(sq)) ==> r == Err::<(Piece, usize), ChessError>(
                ChessError::InvalidIndex(sq_index(sq) as usize),
            ) && final(self)@ == old(self)@,
    {
        let idx = sq.to_index();
        if !is_on_board(idx) {
            return Err(ChessError::InvalidIndex(idx));
        }
        let p = Piece { piece_type: piece, color };
        self.board._board.set(idx, Square { piece: Some(p) });
        let nw = if piece == PieceType::KING && color == Color::WHITE {
            Some(idx)
        } else {
            self.refresh_king(self.kings.white, Color::WHITE)
        };
        let nb = if piece == PieceType::KING && color == Color::BLACK {
            Some(idx)
        } else {
            self.refresh_king(self.kings.black, Color::BLACK)
        };
        self.kings = Kings { white: nw, black: nb };
        self.history = MoveHistory::new();
        assert(self@.history =~= Seq::empty());
        Ok((p, idx))
    }

    /// Empties `sq` and keeps the king registry right. Editing the board forgets the moves
    /// made so far.
    pub fn remove(&mut self, sq: SquareCoordinate) -> (r: ChessResult<()>)
        requires
            old(self).wf(),
        ensures
            final(self).wf(),
            on_board(sq_index(sq)) ==> {
                &&& r == Ok::<(), ChessError>(())
                &&& final(self)@.board == old(self)@.board.update(sq_index(sq), Square { piece: None })
                &&& final(self)@.history.len() == 0
                &&& final(self)@.turn == old(self)@.turn
                &&& final(self)@.castling_rights == old(self)@.castling_rights
                &&& final(self)@.en_passant_sq == old(self)@.en_passant_sq
            },
            !on_board(sq_index(sq)) ==> r == Err::<(), ChessError>(
                ChessError::InvalidIndex(sq_index(sq) as usize),
            ) && final(self)@ == old(self)@,
    {
        let idx = sq.to_index();
        if !is_on_board(idx) {
            return Err(ChessError::InvalidIndex(idx));
        }
        self.board._board.set(idx, Square { piece: None });
        let nw = self.refresh_king(self.kings.white, Color::WHITE);
        let nb = self.refresh_king(self.kings.black, Color::BLACK);
        self.kings = Kings { white: nw, black: nb };
        self.history = MoveHistory::new();
        assert(self@.history =~= Seq::empty());
        Ok(())
    }

    /// Whether the side to move has its king attacked (false when it has no king).
    pub fn in_check(&self) -> (r: ChessResult<bool>)
        requires
            self.wf(),
        ensures
            r == Ok::<bool, ChessError>(king_attacked(self@, self@.turn)),
    {
        Ok(self.king_in_danger(self.turn))
    }

    /// Whether a piece of the side not to move attacks `from`; `InvalidIndex` off the board.
    pub fn is_attacked(&self, from: SquareCoordinate) -> (r: ChessResult<bool>)
        requires
            self.wf(),
        ensures
            on_board(sq_index(from)) ==> r == Ok::<bool, ChessError>(
                attacked(self@.board, sq_index(from), opposite(self@.turn)),
            ),
            !on_board(sq_index(from)) ==> r == Err::<bool, ChessError>(
                ChessError::InvalidIndex(sq_index(from) as usize),
            ),
    {
        let idx = from.to_index();
        if !is_on_board(idx) {
            return Err(ChessError::InvalidIndex(idx));
        }
        Ok(is_attacked_by(&self.board, idx, self.turn.opponent()))
    }

    fn targets_to_moves(from: usize, ts: &Vec<Target>, c: Color) -> (r: Vec<Move>)
        requires
            on_board(from as int),
            forall|i: int| 0 <= i < ts@.len() ==> on_board(#[trigger] ts@[i].0 as int),
        ensures
            r@.len() == ts@.len(),
            forall|i: int| 0 <= i < ts@.len() ==> r@[i] == move_of(from as int, #[trigger] ts@[i].0 as int, ts@[i].1, c),
    {
        let mut r: Vec<Move> = Vec::new();
        let mut i: usize = 0;
        proof { lemma_coord_round_trip(from as int); }
        while i < ts.len()
            invariant
                on_board(from as int),
                forall|k: int| 0 <= k < ts@.len() ==> on_board(#[trigger] ts@[k].0 as int),
                i <= ts@.len(),
                r@.len() == i,
                forall|k: int| 0 <= k < i ==> r@[k] == move_of(from as int, #[trigger] ts@[k].0 as int, ts@[k].1, c),
            decreases ts@.len() - i,
        {
            let (to, pr) = ts[i];
            assert(on_board(ts@[i as int].0 as int));
            let promo = match pr {
                Some(t) => Some(Piece { piece_type: t, color: c }),
                None => None,
            };
            r.push(Move { from: to_coordinate(from as u8), to: to_coordinate(to as u8), promotion_piece: promo });
            i += 1;
        }
        r
    }

    /// Every legal move of the side to move, as moves a player states. The state is left
    /// as it was.
    pub fn moves(&mut self) -> (r: Vec<Move>)
        requires
            old(self).wf(),
        ensures
            final(self).wf(),
            final(self)@ == old(self)@,
            r@.no_duplicates(),
            forall|j: int| 0 <= j < r@.len() ==> legal(
                old(self)@,
                sq_index(#[trigger] r@[j].from),
                sq_index(r@[j].to),
                kind_of(r@[j].promotion_piece),
            ) && r@[j] == move_of(sq_index(r@[j].from), sq_index(r@[j].to), kind_of(r@[j].promotion_piece), old(self)@.turn),
            forall|from: int, to: int, pr: Option<PieceType>| #[trigger] legal(old(self)@, from, to, pr) ==> exists|j: int|
                0 <= j < r@.len() && r@[j] == move_of(from, to, pr, old(self)@.turn),
    {
        let ghost v = self@;
        let ms = self.legal_moves();
        let c = self.turn;
        let mut r: Vec<Move> = Vec::new();
        let mut i: usize = 0;
        while i < ms.len()
            invariant
                self.wf(),
                self@ == v,
                c == v.turn,
                forall|k: int| 0 <= k < ms@.len() ==> legal(v, ms@[k].0 as int, ms@[k].1 as int, ms@[k].2),
                i <= ms@.len(),
                r@.len() == i,
                forall|k: int| 0 <= k < i ==> r@[k] == move_of(#[trigger] ms@[k].0 as int, ms@[k].1 as int, ms@[k].2, c),
            decreases ms@.len() - i,
        {
            let (from, to, pr) = ms[i];
            proof {
                assert(legal(v, from as int, to as int, pr));
                super::movegen::lemma_pseudo_move_ok(v, from as int, to as int, pr);
                lemma_coord_round_trip(from as int);
                lemma_coord_round_trip(to as int);
            }
            let promo = match pr {
                Some(t) => Some(Piece { piece_type: t, color: c }),
                None => None,
            };
            r.push(Move { from: to_coordinate(from as u8), to: to_coordinate(to as u8), promotion_piece: promo });
            i += 1;
        }
        proof {
            assert forall|j: int| 0 <= j < r@.len() implies legal(v, sq_index(#[trigger] r@[j].from), sq_index(r@[j].to), kind_of(r@[j].promotion_piece))
                && r@[j] == move_of(sq_index(r@[j].from), sq_index(r@[j].to), kind_of(r@[j].promotion_piece), v.turn) by {
                assert(legal(v, ms@[j].0 as int, ms@[j].1 as int, ms@[j].2));
                super::movegen::lemma_pseudo_move_ok(v, ms@[j].0 as int, ms@[j].1 as int, ms@[j].2);
                lemma_coord_round_trip(ms@[j].0 as int);
                lemma_coord_round_trip(ms@[j].1 as int);
            }
            assert forall|a: int, b: int| 0 <= a < r@.len() && 0 <= b < r@.len() && a != b implies r@[a] != r@[b] by {
                assert(legal(v, ms@[a].0 as int, ms@[a].1 as int, ms@[a].2));
                assert(legal(v, ms@[b].0 as int, ms@[b].1 as int, ms@[b].2));
                super::movegen::lemma_pseudo_move_ok(v, ms@[a].0 as int, ms@[a].1 as int, ms@[a].2);
                super::movegen::lemma_pseudo_move_ok(v, ms@[b].0 as int, ms@[b].1 as int, ms@[b].2);
                lemma_coord_round_trip(ms@[a].0 as int);
                lemma_coord_round_trip(ms@[a].1 as int);
                lemma_coord_round_trip(ms@[b].0 as int);
                lemma_coord_round_trip(ms@[b].1 as int);
                if r@[a] == r@[b] {
                    assert(ms@[a].2 == ms@[b].2);
                    assert(ms@[a] == ms@[b]);
                }
            }
            assert forall|from: int, to: int, pr: Option<PieceType>| #[trigger] legal(v, from, to, pr) implies exists|j: int|
                0 <= j < r@.len() && r@[j] == move_of(from, to, pr, v.turn) by {
                assert(super::movegen::listed3(ms@, from, to, pr));
                let k = choose|k: int| 0 <= k < ms@.len() && ms@[k].0 as int == from && ms@[k].1 as int == to && ms@[k].2 == pr;
                assert(r@[k] == move_of(ms@[k].0 as int, ms@[k].1 as int, ms@[k].2, c));
            }
        }
        r
    }

    /// Plays `m` if it is a legal move of the side to move (a promoting pawn becomes the
    /// kind `m` names, in the mover's colour); otherwise changes nothing and returns
    /// `InvalidMove`.
    pub fn play_move(&mut self, m: Move) -> (r: ChessResult<()>)
        requires
            old(self).wf(),
        ensures
            final(self).wf(),
            r is Ok <==> legal(old(self)@, sq_index(m.from), sq_index(m.to), kind_of(m.promotion_piece)),
            r is Ok ==> final(self)@ == super::make_view(
                old(self)@,
                super::internal_of(
                    old(self)@,
                    sq_index(m.from),
                    sq_index(m.to),
                    promo_piece(kind_of(m.promotion_piece), old(self)@.turn),
                ),
            ),
            r is Err ==> final(self)@ == old(self)@ && r == Err::<(), ChessError>(
                ChessError::InvalidMove(sq_index(m.from) as usize, sq_index(m.to) as usize),
            ),
    {
        let ghost v = self@;
        let from = m.from.to_index();
        let to = m.to.to_index();
        let kind = match m.promotion_piece {
            Some(p) => Some(p.piece_type),
            None => None,
        };
        if !is_on_board(from) {
            return Err(ChessError::InvalidMove(from, to));
        }
        let ts = self.legal_targets(from);
        let mut found = false;
        let mut i: usize = 0;
        while i < ts.len()
            invariant
                self.wf(),
                self@ == v,
                on_board(from as int),
                forall|k: int| 0 <= k < ts@.len() ==> legal(v, from as int, ts@[k].0 as int, ts@[k].1),
                i <= ts@.len(),
                found ==> legal(v, from as int, to as int, kind),
                !found ==> forall|k: int| 0 <= k < i ==> !(#[trigger] ts@[k].0 == to && ts@[k].1 == kind),
            decreases ts@.len() - i,
        {
            let (t, pr) = ts[i];
            let same = match (pr, kind) {
                (None, None) => true,
                (Some(a), Some(b)) => a == b,
                _ => false,
            };
            if t == to && same {
                assert(legal(v, from as int, ts@[i as int].0 as int, ts@[i as int].1));
                found = true;
            }
            i += 1;
        }
        if !found {
            proof {
                if legal(v, from as int, to as int, kind) {
                    assert(listed(ts@, to as int, kind));
                    let k = choose|k: int| 0 <= k < ts@.len() && ts@[k].0 as int == to && ts@[k].1 == kind;
                    assert(ts@[k].0 == to && ts@[k].1 == kind);
                }
            }
            return Err(ChessError::InvalidMove(from, to));
        }
        let promo = match kind {
            Some(t) => Some(Piece { piece_type: t, color: self.turn }),
            None => None,
        };
        proof { super::movegen::lemma_pseudo_move_ok(v, from as int, to as int, kind); }
        let _ = self.play(from, to, promo);
        Ok(())
    }

    /// All legal moves of the piece on `sq`; an error for a square off the board or an
    /// empty one. The state is left as it was.
    pub fn moves_for_square(&mut self, sq: SquareCoordinate) -> (r: ChessResult<Vec<Move>>)
        requires
            old(self).wf(),
        ensures
            final(self).wf(),
            final(self)@ == old(self)@,
            !on_board(sq_index(sq)) ==> r == Err::<Vec<Move>, ChessError>(ChessError::InvalidIndex(sq_index(sq) as usize)),
            on_board(sq_index(sq)) && old(self)@.board[sq_index(sq)].piece is None ==> r is Err,
            on_board(sq_index(sq)) && old(self)@.board[sq_index(sq)].piece is Some ==> (r matches Ok(ms)
                && lists_legal_from(old(self)@, sq_index(sq), ms@)),
    {
        let ghost v = self@;
        let idx = sq.to_index();
        if !is_on_board(idx) {
            return Err(ChessError::InvalidIndex(idx));
        }
        if self.board._board[idx].piece.is_none() {
            return Err(ChessError::UnknownError("Can't generate moves for empty square".to_string()));
        }
        let ts = self.legal_targets(idx);
        proof {
            assert forall|i: int| 0 <= i < ts@.len() implies on_board(#[trigger] ts@[i].0 as int) by {
                super::movegen::lemma_pseudo_move_ok(v, idx as int, ts@[i].0 as int, ts@[i].1);
            }
        }
        let ms = Self::targets_to_moves(idx, &ts, self.turn);
        proof {
            assert forall|j: int| 0 <= j < ms@.len() implies legal(v, idx as int, sq_index(#[trigger] ms@[j].to), kind_of(ms@[j].promotion_piece))
                && ms@[j] == move_of(idx as int, sq_index(ms@[j].to), kind_of(ms@[j].promotion_piece), v.turn) by {
                assert(legal(v, idx as int, ts@[j].0 as int, ts@[j].1));
                assert(ms@[j] == move_of(idx as int, ts@[j].0 as int, ts@[j].1, v.turn));
                lemma_coord_round_trip(ts@[j].0 as int);
            }
            assert forall|to: int, pr: Option<PieceType>| #[trigger] legal(v, idx as int, to, pr) implies exists|j: int|
                0 <= j < ms@.len() && ms@[j] == move_of(idx as int, to, pr, v.turn) by {
                assert(listed(ts@, to, pr));
                let i = choose|i: int| 0 <= i < ts@.len() && ts@[i].0 as int == to && ts@[i].1 == pr;
                assert(ms@[i] == move_of(idx as int, ts@[i].0 as int, ts@[i].1, v.turn));
            }
        }
        Ok(ms)
    }
}

} // verus!
