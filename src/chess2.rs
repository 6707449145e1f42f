pub mod api;
pub mod attack;
pub mod board;
pub mod castling;
pub mod constants;
pub mod errors;
pub mod fen;
pub mod history;
pub mod movegen;
pub mod perft;
pub mod piece;
pub mod play_move;
pub mod square;
pub mod utils;

use vstd::prelude::*;
use board::Board;
use castling::{updated_rights, CastlingRights};
pub use constants::Color;
use constants::{forward, opposite};
pub use errors::ChessError;
use history::{HistoryEntry, MoveHistory};
pub use piece::{Piece, PieceType};
pub use play_move::{InternalMove, Move, MoveType};
pub use square::SquareCoordinate;
use square::{coord_of, lemma_coord_round_trip, lemma_index_round_trip, sq_index, to_coordinate, Square};
use utils::{is_on_board, on_board, ChessResult};
use piece::is_piece;

verus! {

/// Where each side's king stands, when it is on the board.
#[derive(Clone, Copy, Debug)]
pub struct Kings {
    pub white: Option<usize>,
    pub black: Option<usize>,
}

/// The part of a position that decides a repetition: placement, side to move,
/// castling rights and en-passant target (not the clocks).
#[derive(Debug)]
pub struct Position {
    pub board: Vec<Square>,
    pub turn: Color,
    pub castling_rights: CastlingRights,
    pub en_passant_sq: Option<SquareCoordinate>,
}

pub struct PositionView {
    pub board: Seq<Square>,
    pub turn: Color,
    pub castling_rights: CastlingRights,
    pub en_passant_sq: Option<SquareCoordinate>,
}

impl View for Position {
    type V = PositionView;

    open spec fn view(&self) -> PositionView {
        PositionView {
            board: self.board@,
            turn: self.turn,
            castling_rights: self.castling_rights,
            en_passant_sq: self.en_passant_sq,
        }
    }
}

/// One game: the board and everything else a move reads or changes.
#[derive(Debug)]
pub struct Chess {
    pub board: Board,
    pub turn: Color,
    pub kings: Kings,
    pub castling_rights: CastlingRights,
    pub history: MoveHistory,
    pub white_captures: Vec<Piece>,
    pub black_captures: Vec<Piece>,
    pub half_moves: u32,
    pub full_moves: u32,
    pub en_passant_sq: Option<SquareCoordinate>,
    /// The repetition ledger: the key of every position reached since the game was set up.
    pub positions: Vec<Position>,
}

/// The mathematical state of a game.
pub struct ChessView {
    pub board: Seq<Square>,
    pub turn: Color,
    pub kings: Kings,
    pub castling_rights: CastlingRights,
    pub history: Seq<HistoryEntry>,
    pub white_captures: Seq<Piece>,
    pub black_captures: Seq<Piece>,
    pub half_moves: u32,
    pub full_moves: u32,
    pub en_passant_sq: Option<SquareCoordinate>,
    pub positions: Seq<PositionView>,
}

impl View for Chess {
    type V = ChessView;

    open spec fn view(&self) -> ChessView {
        ChessView {
            board: self.board._board@,
            turn: self.turn,
            kings: self.kings,
            castling_rights: self.castling_rights,
            history: self.history.entries@,
            white_captures: self.white_captures@,
            black_captures: self.black_captures@,
            half_moves: self.half_moves,
            full_moves: self.full_moves,
            en_passant_sq: self.en_passant_sq,
            positions: self.positions@.map_values(|p: Position| p@),
        }
    }
}

pub open spec fn holds(b: Seq<Square>, i: int, t: PieceType, c: Color) -> bool {
    b[i].piece == Some(Piece { piece_type: t, color: c })
}

pub open spec fn is_empty(b: Seq<Square>, i: int) -> bool {
    b[i].piece is None
}

/// `p` is a piece of the side other than `c`.
pub open spec fn enemy_of(p: Option<Piece>, c: Color) -> bool {
    p matches Some(q) && q.color != c
}

/// A king registry entry is right when it names a slot holding that king, and is empty
/// only when no such king is on the board.
pub open spec fn king_slot_ok(b: Seq<Square>, slot: Option<usize>, c: Color) -> bool {
    match slot {
        Some(s) => on_board(s as int) && holds(b, s as int, PieceType::KING, c),
        None => forall|i: int| 0 <= i < 128 ==> !#[trigger] holds(b, i, PieceType::KING, c),
    }
}

pub open spec fn kings_wf(b: Seq<Square>, k: Kings) -> bool {
    king_slot_ok(b, k.white, Color::WHITE) && king_slot_ok(b, k.black, Color::BLACK)
}

/// Slots outside the 64 squares stay empty.
pub open spec fn offboard_empty(b: Seq<Square>) -> bool {
    forall|i: int| 0 <= i < 128 && !on_board(i) ==> #[trigger] b[i].piece is None
}

pub open spec fn basic_wf(v: ChessView) -> bool {
    &&& v.board.len() == 128
    &&& offboard_empty(v.board)
    &&& kings_wf(v.board, v.kings)
    &&& v.en_passant_sq matches Some(sq) ==> on_board(sq_index(sq))
}

/// A slot on rank 8 or rank 1.
pub open spec fn last_rank(i: int) -> bool {
    i < 8 || i >= 112
}

/// The kind of the move from `from` to `to` in `v`.
pub open spec fn move_kind(v: ChessView, from: int, to: int) -> MoveType {
    let p = v.board[from].piece.unwrap();
    if p.piece_type == PieceType::KING && to == from + 2 {
        MoveType::CastleKingside
    } else if p.piece_type == PieceType::KING && to == from - 2 {
        MoveType::CastleQueenside
    } else if p.piece_type == PieceType::PAWN && last_rank(to) {
        MoveType::Promotion
    } else if p.piece_type == PieceType::PAWN && v.en_passant_sq == Some(coord_of(to)) {
        MoveType::EnPassantCapture
    } else if p.piece_type == PieceType::PAWN && (to == from + 32 || to == from - 32) {
        MoveType::EnPassantMove
    } else if enemy_of(v.board[to].piece, p.color) {
        MoveType::Capture
    } else {
        MoveType::Normal
    }
}

/// The second slot a move empties: the en-passant victim or the castling rook's corner.
pub open spec fn aux_of(kind: MoveType, to: int, c: Color) -> int {
    match kind {
        MoveType::EnPassantCapture => to - forward(c),
        MoveType::CastleKingside => to + 1,
        MoveType::CastleQueenside => to - 2,
        _ => to,
    }
}

/// Where a castling rook lands.
pub open spec fn rook_of(kind: MoveType, to: int) -> int {
    match kind {
        MoveType::CastleKingside => to - 1,
        MoveType::CastleQueenside => to + 1,
        _ => to,
    }
}

pub open spec fn is_promotion_kind(t: PieceType) -> bool {
    t == PieceType::QUEEN || t == PieceType::ROOK || t == PieceType::BISHOP || t == PieceType::KNIGHT
}

/// The move from `from` to `to` can be made in `v`: both are squares, a piece stands on
/// `from`, a pawn reaching the last rank names what it becomes, and the other slots the
/// move touches are on the board.
pub open spec fn move_ok(v: ChessView, from: int, to: int, promo: Option<Piece>) -> bool {
    &&& on_board(from)
    &&& on_board(to)
    &&& v.board[from].piece is Some
    &&& move_kind(v, from, to) == MoveType::Promotion ==> (promo matches Some(p) && is_promotion_kind(p.piece_type))
    &&& on_board(aux_of(move_kind(v, from, to), to, v.board[from].piece.unwrap().color))
    &&& on_board(rook_of(move_kind(v, from, to), to))
}

/// The error a move that cannot be made gets.
pub open spec fn move_error(v: ChessView, from: int, to: int) -> ChessError {
    if !on_board(from) {
        ChessError::InvalidIndex(from as usize)
    } else if !on_board(to) {
        ChessError::InvalidIndex(to as usize)
    } else if v.board[from].piece is Some && move_kind(v, from, to) == MoveType::Promotion {
        ChessError::InvalidPromotion
    } else {
        ChessError::InvalidMove(from as usize, to as usize)
    }
}

/// The move from `from` to `to` resolved against `v`, with what stood on each slot it writes.
pub open spec fn internal_of(v: ChessView, from: int, to: int, promo: Option<Piece>) -> InternalMove {
    let p = v.board[from].piece.unwrap();
    let kind = move_kind(v, from, to);
    let aux = aux_of(kind, to, p.color);
    let rook = rook_of(kind, to);
    InternalMove {
        move_type: kind,
        from_sq: from as usize,
        from_piece: p,
        to_sq: to as usize,
        to_piece: v.board[to].piece,
        promotion_piece: if kind == MoveType::Promotion { promo } else { None },
        aux_sq: aux as usize,
        aux_piece: v.board[aux].piece,
        rook_sq: rook as usize,
        rook_piece: v.board[rook].piece,
    }
}

/// The piece that lands on the target slot.
pub open spec fn placed_piece(m: InternalMove) -> Piece {
    if m.move_type == MoveType::Promotion {
        Piece { piece_type: m.promotion_piece.unwrap().piece_type, color: m.from_piece.color }
    } else {
        m.from_piece
    }
}

pub open spec fn is_castle(k: MoveType) -> bool {
    k == MoveType::CastleKingside || k == MoveType::CastleQueenside
}

/// The board after the move: the mover leaves `from`, an en-passant victim is removed,
/// the mover (or what it promotes to) lands on `to`, a castling rook jumps over the king.
pub open spec fn after_board(b: Seq<Square>, m: InternalMove) -> Seq<Square> {
    let b1 = b.update(m.from_sq as int, Square { piece: None });
    let b2 = if m.move_type == MoveType::EnPassantCapture {
        b1.update(m.aux_sq as int, Square { piece: None })
    } else {
        b1
    };
    let b3 = b2.update(m.to_sq as int, Square { piece: Some(placed_piece(m)) });
    if is_castle(m.move_type) {
        b3.update(m.aux_sq as int, Square { piece: None }).update(
            m.rook_sq as int,
            Square { piece: Some(Piece { piece_type: PieceType::ROOK, color: m.from_piece.color }) },
        )
    } else {
        b3
    }
}

/// The board with every slot the move wrote given back what stood there before.
pub open spec fn restore_board(b: Seq<Square>, m: InternalMove) -> Seq<Square> {
    b.update(m.rook_sq as int, Square { piece: m.rook_piece }).update(
        m.aux_sq as int,
        Square { piece: m.aux_piece },
    ).update(m.to_sq as int, Square { piece: m.to_piece }).update(
        m.from_sq as int,
        Square { piece: Some(m.from_piece) },
    )
}

/// The piece the move takes, if any.
pub open spec fn captured_of(m: InternalMove) -> Option<Piece> {
    if m.move_type == MoveType::EnPassantCapture {
        m.aux_piece
    } else if enemy_of(m.to_piece, m.from_piece.color) {
        m.to_piece
    } else {
        None
    }
}

pub open spec fn sat_inc(x: u32) -> u32 {
    if x < u32::MAX {
        (x + 1) as u32
    } else {
        x
    }
}

/// `i` is the lowest slot holding the king of colour `c`.
pub open spec fn is_first_king(b: Seq<Square>, c: Color, i: int) -> bool {
    &&& 0 <= i < 128
    &&& holds(b, i, PieceType::KING, c)
    &&& forall|j: int| 0 <= j < i ==> !#[trigger] holds(b, j, PieceType::KING, c)
}

/// The lowest slot holding the king of colour `c`, if any.
pub open spec fn first_king(b: Seq<Square>, c: Color) -> Option<usize> {
    if exists|i: int| is_first_king(b, c, i) {
        Some((choose|i: int| is_first_king(b, c, i)) as usize)
    } else {
        None
    }
}

/// How a king registry entry follows a move: to the target when that colour's king moved,
/// kept while its king stays or while that colour has no king, otherwise the lowest slot
/// that still holds such a king.
pub open spec fn king_after_spec(old: Option<usize>, b: Seq<Square>, m: InternalMove, c: Color) -> Option<usize> {
    if m.from_piece == (Piece { piece_type: PieceType::KING, color: c }) {
        Some(m.to_sq)
    } else if old matches Some(s) && holds(b, s as int, PieceType::KING, c) {
        old
    } else if old is None {
        None
    } else {
        first_king(b, c)
    }
}

pub open spec fn key_of(w: ChessView) -> PositionView {
    PositionView {
        board: w.board,
        turn: w.turn,
        castling_rights: w.castling_rights,
        en_passant_sq: w.en_passant_sq,
    }
}

pub open spec fn entry_of(v: ChessView, m: InternalMove) -> HistoryEntry {
    HistoryEntry {
        player_move: m,
        turn: v.turn,
        kings: v.kings,
        castling_rights: v.castling_rights,
        en_passant_sq: v.en_passant_sq,
        half_moves: v.half_moves,
        full_moves: v.full_moves,
        captured: captured_of(m),
    }
}

/// The state after the resolved move `m`, before the repetition ledger records it.
pub open spec fn moved_view(v: ChessView, m: InternalMove) -> ChessView {
    let c = m.from_piece.color;
    let cap = captured_of(m);
    let b = after_board(v.board, m);
    let kings = Kings {
        white: king_after_spec(v.kings.white, b, m, Color::WHITE),
        black: king_after_spec(v.kings.black, b, m, Color::BLACK),
    };
    ChessView {
        board: b,
        turn: opposite(v.turn),
        kings,
        castling_rights: updated_rights(v.castling_rights, kings, b),
        en_passant_sq: if m.move_type == MoveType::EnPassantMove {
            Some(coord_of((m.from_sq + m.to_sq) / 2))
        } else {
            None::<SquareCoordinate>
        },
        half_moves: if m.from_piece.piece_type == PieceType::PAWN || cap is Some {
            0
        } else {
            sat_inc(v.half_moves)
        },
        full_moves: if v.turn == Color::BLACK { sat_inc(v.full_moves) } else { v.full_moves },
        white_captures: if cap is Some && c == Color::WHITE {
            v.white_captures.push(cap.unwrap())
        } else {
            v.white_captures
        },
        black_captures: if cap is Some && c == Color::BLACK {
            v.black_captures.push(cap.unwrap())
        } else {
            v.black_captures
        },
        history: v.history.push(entry_of(v, m)),
        positions: v.positions,
    }
}

/// The state after the resolved move `m`: the board shows it, the registry follows the
/// kings, rights that lost their king or rook are dropped, the en-passant target is set
/// by a double push only, the clocks advance, the side to move changes, the move is put
/// on the history stack and the new position is counted in the repetition ledger.
pub open spec fn make_view(v: ChessView, m: InternalMove) -> ChessView {
    let w = moved_view(v, m);
    ChessView { positions: v.positions.push(key_of(w)), ..w }
}

/// `w` is `v` after the resolved move `m`.
pub open spec fn made(v: ChessView, m: InternalMove, w: ChessView) -> bool {
    w == make_view(v, m)
}

/// `v` with its last move taken back; `v` itself when no move was made.
pub open spec fn undone(v: ChessView) -> ChessView {
    if v.history.len() == 0 {
        v
    } else {
        let e = v.history.last();
        let m = e.player_move;
        let c = m.from_piece.color;
        ChessView {
            board: restore_board(v.board, m),
            turn: e.turn,
            kings: e.kings,
            castling_rights: e.castling_rights,
            history: v.history.drop_last(),
            white_captures: if e.captured is Some && c == Color::WHITE {
                v.white_captures.drop_last()
            } else {
                v.white_captures
            },
            black_captures: if e.captured is Some && c == Color::BLACK {
                v.black_captures.drop_last()
            } else {
                v.black_captures
            },
            half_moves: e.half_moves,
            full_moves: e.full_moves,
            en_passant_sq: e.en_passant_sq,
            positions: if v.positions.len() > 0 { v.positions.drop_last() } else { v.positions },
        }
    }
}

/// Every move on the history stack can be taken back to a well-formed state.
pub open spec fn history_ok(v: ChessView) -> bool
    decreases v.history.len(),
{
    if v.history.len() == 0 {
        true
    } else {
        undo_ready(v) && basic_wf(undone(v)) && history_ok(undone(v))
    }
}

/// The last move's slots are squares, and the lists it pushed to are not empty.
pub open spec fn undo_ready(v: ChessView) -> bool {
    let e = v.history.last();
    let m = e.player_move;
    &&& on_board(m.from_sq as int)
    &&& on_board(m.to_sq as int)
    &&& on_board(m.aux_sq as int)
    &&& on_board(m.rook_sq as int)
    &&& v.positions.len() > 0
    &&& (e.captured is Some && m.from_piece.color == Color::WHITE) ==> v.white_captures.len() > 0
    &&& (e.captured is Some && m.from_piece.color == Color::BLACK) ==> v.black_captures.len() > 0
}

pub open spec fn wf_view(v: ChessView) -> bool {
    basic_wf(v) && history_ok(v)
}

/// Taking back a move just made gives the state before it, exactly: board, side to move,
/// king registry, castling rights, en-passant target, clocks, captures, history and
/// repetition ledger.
pub proof fn lemma_undo_make(v: ChessView, from: int, to: int, promo: Option<Piece>, w: ChessView)
    requires
        basic_wf(v),
        move_ok(v, from, to, promo),
        made(v, internal_of(v, from, to, promo), w),
    ensures
        undone(w) == v,
{
    let m = internal_of(v, from, to, promo);
    let r = undone(w);
    assert(r.board =~= v.board);
    assert(r.history =~= v.history);
    assert(r.white_captures =~= v.white_captures);
    assert(r.black_captures =~= v.black_captures);
    assert(r.positions =~= v.positions);
}

/// A move makes no king appear but the one that moves.
proof fn lemma_no_new_king(b: Seq<Square>, m: InternalMove, c: Color)
    requires
        b.len() == 128,
        on_board(m.from_sq as int),
        on_board(m.to_sq as int),
        on_board(m.aux_sq as int),
        on_board(m.rook_sq as int),
        m.move_type == MoveType::Promotion ==> (m.promotion_piece matches Some(p) && is_promotion_kind(p.piece_type)),
    ensures
        m.from_piece != (Piece { piece_type: PieceType::KING, color: c })
            && (forall|i: int| 0 <= i < 128 ==> !#[trigger] holds(b, i, PieceType::KING, c))
            ==> forall|i: int| 0 <= i < 128 ==> !#[trigger] holds(after_board(b, m), i, PieceType::KING, c),
{
    if m.from_piece != (Piece { piece_type: PieceType::KING, color: c })
        && (forall|i: int| 0 <= i < 128 ==> !#[trigger] holds(b, i, PieceType::KING, c)) {
        let b1 = b.update(m.from_sq as int, Square { piece: None });
        let b2 = if m.move_type == MoveType::EnPassantCapture {
            b1.update(m.aux_sq as int, Square { piece: None })
        } else {
            b1
        };
        let b3 = b2.update(m.to_sq as int, Square { piece: Some(placed_piece(m)) });
        assert(placed_piece(m) != Piece { piece_type: PieceType::KING, color: c });
        assert forall|i: int| 0 <= i < 128 implies !#[trigger] holds(b3, i, PieceType::KING, c) by {
            assert(!holds(b, i, PieceType::KING, c));
        }
        assert forall|i: int| 0 <= i < 128 implies !#[trigger] holds(after_board(b, m), i, PieceType::KING, c) by {
            assert(!holds(b3, i, PieceType::KING, c));
        }
    }
}

/// Writes the move `m` on the board.
fn write_move(board: &mut Board, m: &InternalMove)
    requires
        old(board).wf(),
        on_board(m.from_sq as int),
        on_board(m.to_sq as int),
        on_board(m.aux_sq as int),
        on_board(m.rook_sq as int),
        m.move_type == MoveType::Promotion ==> m.promotion_piece is Some,
    ensures
        final(board).wf(),
        final(board)._board@ == after_board(old(board)._board@, *m),
{
    let c = m.from_piece.color;
    board._board.set(m.from_sq, Square { piece: None });
    if m.move_type == MoveType::EnPassantCapture {
        board._board.set(m.aux_sq, Square { piece: None });
    }
    let placed = if m.move_type == MoveType::Promotion {
        match m.promotion_piece {
            Some(pp) => Piece { piece_type: pp.piece_type, color: c },
            None => m.from_piece,
        }
    } else {
        m.from_piece
    };
    board._board.set(m.to_sq, Square { piece: Some(placed) });
    if m.move_type == MoveType::CastleKingside || m.move_type == MoveType::CastleQueenside {
        board._board.set(m.aux_sq, Square { piece: None });
        board._board.set(
            m.rook_sq,
            Square { piece: Some(Piece { piece_type: PieceType::ROOK, color: c }) },
        );
    }
}

/// If some slot holds the king of colour `c`, a lowest such slot exists.
pub proof fn lemma_first_king_exists(b: Seq<Square>, c: Color, i: int)
    requires
        0 <= i < 128,
        holds(b, i, PieceType::KING, c),
    ensures
        exists|j: int| is_first_king(b, c, j),
    decreases i,
{
    if exists|j: int| 0 <= j < i && holds(b, j, PieceType::KING, c) {
        let j = choose|j: int| 0 <= j < i && holds(b, j, PieceType::KING, c);
        lemma_first_king_exists(b, c, j);
    } else {
        assert(is_first_king(b, c, i));
    }
}

/// The lowest king slot is a right registry entry.
pub proof fn lemma_first_king_ok(b: Seq<Square>, c: Color)
    requires
        b.len() == 128,
        offboard_empty(b),
    ensures
        king_slot_ok(b, first_king(b, c), c),
{
    if exists|i: int| is_first_king(b, c, i) {
        let i = choose|i: int| is_first_king(b, c, i);
        assert(b[i].piece is Some);
    } else {
        assert forall|i: int| 0 <= i < 128 implies !#[trigger] holds(b, i, PieceType::KING, c) by {
            if holds(b, i, PieceType::KING, c) {
                lemma_first_king_exists(b, c, i);
            }
        }
    }
}

/// After any move, each side's king registry entry is right: it names a square holding
/// that side's king, and is empty only when that side has no king. So where a side has a
/// single king, the registry holds exactly its square.
pub proof fn lemma_registry_after_make(v: ChessView, from: int, to: int, promo: Option<Piece>, c: Color, s: int)
    requires
        basic_wf(v),
        move_ok(v, from, to, promo),
    ensures
        kings_wf(make_view(v, internal_of(v, from, to, promo)).board, make_view(v, internal_of(v, from, to, promo)).kings),
        ({
            let w = make_view(v, internal_of(v, from, to, promo));
            (0 <= s < 128 && holds(w.board, s, PieceType::KING, c) && forall|t: int|
                0 <= t < 128 && t != s ==> !#[trigger] holds(w.board, t, PieceType::KING, c))
                ==> (if c == Color::WHITE { w.kings.white } else { w.kings.black }) == Some(s as usize)
        }),
{
    let m = internal_of(v, from, to, promo);
    let w = make_view(v, m);
    let b = w.board;
    lemma_no_new_king(v.board, m, Color::WHITE);
    lemma_no_new_king(v.board, m, Color::BLACK);
    assert(b == after_board(v.board, m));
    assert(offboard_empty(b)) by {
        assert forall|i: int| 0 <= i < 128 && !on_board(i) implies #[trigger] b[i].piece is None by {
            assert(v.board[i].piece is None);
        }
    }
    lemma_first_king_ok(b, Color::WHITE);
    lemma_first_king_ok(b, Color::BLACK);
    if m.from_piece.piece_type == PieceType::KING {
        assert(holds(b, to, PieceType::KING, m.from_piece.color));
    }
}

/// No move creates a castling right: every right after a move was a right before it.
pub proof fn lemma_rights_never_grow(v: ChessView, from: int, to: int, promo: Option<Piece>)
    requires
        basic_wf(v),
        move_ok(v, from, to, promo),
    ensures
        castling::rights_within(make_view(v, internal_of(v, from, to, promo)).castling_rights, v.castling_rights),
{
}

/// The first slot holding the king of colour `c`, if any.
fn find_king(board: &Board, c: Color) -> (r: Option<usize>)
    requires
        board.wf(),
        offboard_empty(board._board@),
    ensures
        king_slot_ok(board._board@, r, c),
        r == first_king(board._board@, c),
{
    let ghost b = board._board@;
    let mut i: usize = 0;
    while i < 128
        invariant
            board.wf(),
            b == board._board@,
            offboard_empty(board._board@),
            i <= 128,
            forall|j: int| 0 <= j < i ==> !#[trigger] holds(board._board@, j, PieceType::KING, c),
        decreases 128 - i,
    {
        if is_piece(board._board[i].piece, PieceType::KING, c) {
            proof {
                assert(is_first_king(b, c, i as int));
                let x = choose|x: int| is_first_king(b, c, x);
                if x < i {
                    assert(!holds(b, x, PieceType::KING, c));
                } else if x > i {
                    assert(!holds(b, i as int, PieceType::KING, c));
                }
            }
            return Some(i);
        }
        i += 1;
    }
    None
}

fn is_enemy(p: Option<Piece>, c: Color) -> (r: bool)
    ensures
        r == enemy_of(p, c),
{
    match p {
        Some(q) => q.color != c,
        None => false,
    }
}

impl Chess {
    pub open spec fn wf(&self) -> bool {
        wf_view(self@)
    }

    /// An empty board, White to move, all four castling rights, no kings, clocks at zero.
    pub fn new() -> (r: Self)
        ensures
            r.wf(),
            r@.turn == Color::WHITE,
            forall|i: int| 0 <= i < 128 ==> #[trigger] r@.board[i].piece is None,
            r@.kings.white is None && r@.kings.black is None,
            r@.castling_rights == CastlingRights::new_spec(),
            r@.history.len() == 0,
            r@.positions.len() == 0,
            r@.white_captures.len() == 0 && r@.black_captures.len() == 0,
            r@.en_passant_sq is None,
            r@.half_moves == 0 && r@.full_moves == 0,
    {
        let r = Self {
            board: Board::new(),
            turn: Color::WHITE,
            kings: Kings { white: None, black: None },
            castling_rights: CastlingRights::new(),
            history: MoveHistory::new(),
            white_captures: Vec::new(),
            black_captures: Vec::new(),
            half_moves: 0,
            full_moves: 0,
            en_passant_sq: None,
            positions: Vec::new(),
        };
        assert(r@.positions =~= Seq::<PositionView>::empty());
        assert(kings_wf(r@.board, r@.kings));
        r
    }

    /// The repetition key of the current position.
    pub fn position_key(&self) -> (r: Position)
        requires
            self.board.wf(),
        ensures
            r@ == key_of(self@),
    {
        let mut b: Vec<Square> = Vec::new();
        let mut i: usize = 0;
        while i < 128
            invariant
                self.board.wf(),
                i <= 128,
                b@ =~= self.board._board@.subrange(0, i as int),
            decreases 128 - i,
        {
            b.push(self.board._board[i]);
            i += 1;
        }
        assert(b@ =~= self.board._board@);
        Position {
            board: b,
            turn: self.turn,
            castling_rights: self.castling_rights,
            en_passant_sq: self.en_passant_sq,
        }
    }

    fn kind_of(&self, from: usize, to: usize, p: Piece, to_piece: Option<Piece>) -> (r: MoveType)
        requires
            self.wf(),
            on_board(from as int),
            on_board(to as int),
            self@.board[from as int].piece == Some(p),
            to_piece == self@.board[to as int].piece,
        ensures
            r == move_kind(self@, from as int, to as int),
    {
        let is_ep = match self.en_passant_sq {
            Some(sq) => sq.to_index() == to,
            None => false,
        };
        proof {
            lemma_coord_round_trip(to as int);
            if let Some(sq) = self.en_passant_sq {
                lemma_index_round_trip(sq);
            }
        }
        if p.piece_type == PieceType::KING && to == from + 2 {
            MoveType::CastleKingside
        } else if p.piece_type == PieceType::KING && from >= 2 && to == from - 2 {
            MoveType::CastleQueenside
        } else if p.piece_type == PieceType::PAWN && (to < 8 || to >= 112) {
            MoveType::Promotion
        } else if p.piece_type == PieceType::PAWN && is_ep {
            MoveType::EnPassantCapture
        } else if p.piece_type == PieceType::PAWN && (to == from + 32 || (from >= 32 && to == from - 32)) {
            MoveType::EnPassantMove
        } else if is_enemy(to_piece, p.color) {
            MoveType::Capture
        } else {
            MoveType::Normal
        }
    }

    /// Resolves the move from `from` to `to` against the position, or says why it cannot be made.
    pub fn convert_to_internal_move(&self, from: usize, to: usize, promo: Option<Piece>) -> (r: ChessResult<InternalMove>)
        requires
            self.wf(),
        ensures
            match r {
                Ok(m) => move_ok(self@, from as int, to as int, promo) && m == internal_of(
                    self@,
                    from as int,
                    to as int,
                    promo,
                ),
                Err(e) => !move_ok(self@, from as int, to as int, promo) && e == move_error(
                    self@,
                    from as int,
                    to as int,
                ),
            },
    {
        if !is_on_board(from) {
            return Err(ChessError::InvalidIndex(from));
        }
        if !is_on_board(to) {
            return Err(ChessError::InvalidIndex(to));
        }
        let p = match self.board._board[from].piece {
            Some(p) => p,
            None => {
                return Err(ChessError::InvalidMove(from, to));
            },
        };
        let to_piece = self.board._board[to].piece;
        let kind = self.kind_of(from, to, p, to_piece);
        let promotion = if kind == MoveType::Promotion {
            match promo {
                Some(pp) => {
                    if pp.piece_type == PieceType::KING || pp.piece_type == PieceType::PAWN {
                        return Err(ChessError::InvalidPromotion);
                    }
                    promo
                },
                None => {
                    return Err(ChessError::InvalidPromotion);
                },
            }
        } else {
            None
        };
        let aux: i64 = if kind == MoveType::EnPassantCapture {
            if p.color == Color::WHITE {
                to as i64 + 16
            } else {
                to as i64 - 16
            }
        } else if kind == MoveType::CastleKingside {
            to as i64 + 1
        } else if kind == MoveType::CastleQueenside {
            to as i64 - 2
        } else {
            to as i64
        };
        let rook: i64 = if kind == MoveType::CastleKingside {
            to as i64 - 1
        } else if kind == MoveType::CastleQueenside {
            to as i64 + 1
        } else {
            to as i64
        };
        if aux < 0 || !is_on_board(aux as usize) || rook < 0 || !is_on_board(rook as usize) {
            return Err(ChessError::InvalidMove(from, to));
        }
        let aux = aux as usize;
        let rook = rook as usize;
        Ok(InternalMove {
            move_type: kind,
            from_sq: from,
            from_piece: p,
            to_sq: to,
            to_piece,
            promotion_piece: promotion,
            aux_sq: aux,
            aux_piece: self.board._board[aux].piece,
            rook_sq: rook,
            rook_piece: self.board._board[rook].piece,
        })
    }

    /// The registry entry of colour `c` once the board shows the move `m`.
    fn king_after(&self, old: Option<usize>, m: &InternalMove, c: Color) -> (r: Option<usize>)
        requires
            self.board.wf(),
            offboard_empty(self.board._board@),
            on_board(m.to_sq as int),
            m.from_piece == (Piece { piece_type: PieceType::KING, color: c }) ==> holds(
                self.board._board@,
                m.to_sq as int,
                PieceType::KING,
                c,
            ),
            old matches Some(s) ==> on_board(s as int),
            old is None && m.from_piece != (Piece { piece_type: PieceType::KING, color: c })
                ==> forall|i: int| 0 <= i < 128 ==> !#[trigger] holds(self.board._board@, i, PieceType::KING, c),
        ensures
            r == king_after_spec(old, self.board._board@, *m, c),
            king_slot_ok(self.board._board@, r, c),
    {
        if m.from_piece.piece_type == PieceType::KING && m.from_piece.color == c {
            return Some(m.to_sq);
        }
        match old {
            Some(s) => {
                if is_piece(self.board._board[s].piece, PieceType::KING, c) {
                    Some(s)
                } else {
                    find_king(&self.board, c)
                }
            },
            None => None,
        }
    }

    /// Plays a resolved move: updates board, kings, rights, en-passant target, clocks,
    /// captures, side to move, and records what is needed to take it back.
    #[verifier::spinoff_prover]
    #[verifier::rlimit(60)]
    pub fn apply_move(&mut self, m: InternalMove)
        requires
            old(self).wf(),
            move_ok(old(self)@, m.from_sq as int, m.to_sq as int, m.promotion_piece),
            m == internal_of(old(self)@, m.from_sq as int, m.to_sq as int, m.promotion_piece),
        ensures
            final(self).wf(),
            made(old(self)@, m, final(self)@),
    {
        let ghost v = self@;
        let c = m.from_piece.color;
        let cap = if m.move_type == MoveType::EnPassantCapture {
            m.aux_piece
        } else if is_enemy(m.to_piece, c) {
            m.to_piece
        } else {
            None
        };
        let entry = HistoryEntry {
            player_move: m,
            turn: self.turn,
            kings: self.kings,
            castling_rights: self.castling_rights,
            en_passant_sq: self.en_passant_sq,
            half_moves: self.half_moves,
            full_moves: self.full_moves,
            captured: cap,
        };
        write_move(&mut self.board, &m);
        proof {
            lemma_no_new_king(v.board, m, Color::WHITE);
            lemma_no_new_king(v.board, m, Color::BLACK);
        }
        let nw = self.king_after(self.kings.white, &m, Color::WHITE);
        let nb = self.king_after(self.kings.black, &m, Color::BLACK);
        self.kings = Kings { white: nw, black: nb };
        self.castling_rights.update(&self.kings, &self.board);
        if m.move_type == MoveType::EnPassantMove {
            let mid = (m.from_sq + m.to_sq) / 2;
            proof { lemma_coord_round_trip(mid as int); }
            self.en_passant_sq = Some(to_coordinate(mid as u8));
        } else {
            self.en_passant_sq = None;
        }
        if m.from_piece.piece_type == PieceType::PAWN || cap.is_some() {
            self.half_moves = 0;
        } else if self.half_moves < u32::MAX {
            self.half_moves = self.half_moves + 1;
        }
        if self.turn == Color::BLACK && self.full_moves < u32::MAX {
            self.full_moves = self.full_moves + 1;
        }
        match cap {
            Some(x) => {
                if c == Color::WHITE {
                    self.white_captures.push(x);
                } else {
                    self.black_captures.push(x);
                }
            },
            None => {},
        }
        self.history.push(entry);
        self.turn = self.turn.opponent();
        let key = self.position_key();
        let ghost before = self.positions@;
        self.positions.push(key);
        proof {
            assert(self.positions@.map_values(|p: Position| p@) =~= before.map_values(
                |p: Position| p@,
            ).push(key@));
            lemma_undo_make(v, m.from_sq as int, m.to_sq as int, m.promotion_piece, self@);
        }
    }

    /// Resolves and plays the move from `from` to `to`; on an error nothing changes.
    pub fn play(&mut self, from: usize, to: usize, promo: Option<Piece>) -> (r: ChessResult<()>)
        requires
            old(self).wf(),
        ensures
            final(self).wf(),
            r is Ok <==> move_ok(old(self)@, from as int, to as int, promo),
            r is Ok ==> made(old(self)@, internal_of(old(self)@, from as int, to as int, promo), final(self)@),
            r matches Err(e) ==> final(self)@ == old(self)@ && e == move_error(old(self)@, from as int, to as int),
    {
        let m = self.convert_to_internal_move(from, to, promo)?;
        self.apply_move(m);
        Ok(())
    }

    /// Plays `m`: resolves its kind (capture, en passant, castling, promotion) and updates
    /// every part of the state; on an error nothing changes.
    pub fn make_move(&mut self, m: Move) -> (r: ChessResult<()>)
        requires
            old(self).wf(),
        ensures
            final(self).wf(),
            r is Ok <==> move_ok(old(self)@, sq_index(m.from), sq_index(m.to), m.promotion_piece),
            r is Ok ==> made(
                old(self)@,
                internal_of(old(self)@, sq_index(m.from), sq_index(m.to), m.promotion_piece),
                final(self)@,
            ),
            r matches Err(e) ==> final(self)@ == old(self)@ && e == move_error(
                old(self)@,
                sq_index(m.from),
                sq_index(m.to),
            ),
    {
        self.play(m.from.to_index(), m.to.to_index(), m.promotion_piece)
    }

    /// Takes back the last move, restoring exactly the state before it; does nothing when
    /// no move was made.
    pub fn undo_move(&mut self) -> (r: ChessResult<()>)
        requires
            old(self).wf(),
        ensures
            final(self).wf(),
            final(self)@ == undone(old(self)@),
            r is Ok,
    {
        let ghost v = self@;
        match self.history.pop() {
            None => Ok(()),
            Some(e) => {
                let m = e.player_move;
                self.board._board.set(m.rook_sq, Square { piece: m.rook_piece });
                self.board._board.set(m.aux_sq, Square { piece: m.aux_piece });
                self.board._board.set(m.to_sq, Square { piece: m.to_piece });
                self.board._board.set(m.from_sq, Square { piece: Some(m.from_piece) });
                self.turn = e.turn;
                self.kings = e.kings;
                self.castling_rights = e.castling_rights;
                self.en_passant_sq = e.en_passant_sq;
                self.half_moves = e.half_moves;
                self.full_moves = e.full_moves;
                if e.captured.is_some() {
                    if m.from_piece.color == Color::WHITE {
                        self.white_captures.pop();
                    } else {
                        self.black_captures.pop();
                    }
                }
                let ghost before = self.positions@;
                self.positions.pop();
                proof {
                    assert(self.positions@.map_values(|p: Position| p@) =~= before.map_values(
                        |p: Position| p@,
                    ).drop_last());
                    assert(self@.board =~= undone(v).board);
                    assert(self@ == undone(v));
                }
                Ok(())
            },
        }
    }

    /// Hands the move to the other side.
    pub fn change_turn(&mut self)
        requires
            old(self).wf(),
        ensures
            final(self).wf(),
            final(self)@ == (ChessView { turn: opposite(old(self)@.turn), ..old(self)@ }),
    {
        self.turn = self.turn.opponent();
        proof {
            let v = old(self)@;
            if v.history.len() > 0 {
                assert(undone(self@) == undone(v));
            }
        }
    }
}

} // verus!
