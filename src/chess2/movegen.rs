use vstd::prelude::*;
use super::attack::{attacked, is_attacked_by, lemma_path_prefix, path_clear, step};
use super::board::Board;
use super::constants::{
    bishop_deltas, forward, king_delta, king_deltas, knight_delta, knight_deltas, opposite,
    queen_delta, queen_deltas, rook_deltas, Color,
};
use super::piece::{is_piece, Piece, PieceType};
use super::square::{coord_of, lemma_coord_round_trip, lemma_index_round_trip};
use super::utils::{is_on_board, on_board};
use super::{enemy_of, holds, is_empty, is_promotion_kind, last_rank, Chess, ChessView, Move};

verus! {

/// A destination and, for a pawn reaching the last rank, the kind it becomes.
pub type Target = (usize, Option<PieceType>);

/// Slot `i` holds no piece of colour `c`.
pub open spec fn not_own(b: Seq<super::square::Square>, i: int, c: Color) -> bool {
    !(b[i].piece matches Some(q) && q.color == c)
}

/// `to` is one leap of `ds` away from `from`, on the board, and holds no piece of `c`.
pub open spec fn leap_target(b: Seq<super::square::Square>, from: int, to: int, c: Color, ds: Seq<int>) -> bool {
    exists|i: int| 0 <= i < ds.len() && to == from + #[trigger] ds[i] && on_board(to) && not_own(b, to, c)
}

/// `to` is reached from `from` by sliding along a direction of `ds` over empty slots, and
/// holds no piece of `c`.
pub open spec fn slide_target(b: Seq<super::square::Square>, from: int, to: int, c: Color, ds: Seq<int>) -> bool {
    exists|i: int, k: nat|
        0 <= i < ds.len() && 1 <= k <= 7 && to == step(from, ds[i], k) && #[trigger] path_clear(
            b,
            from,
            ds[i],
            k,
        ) && not_own(b, to, c)
}

/// The rank a pawn of colour `c` starts on.
pub open spec fn pawn_start(from: int, c: Color) -> bool {
    if c == Color::WHITE {
        96 <= from < 104
    } else {
        16 <= from < 24
    }
}

/// `to` is where a pawn of colour `c` on `from` may go: one step forward onto an empty
/// square, two from its starting rank over empty squares, or diagonally forward onto an
/// enemy piece or the en-passant target.
pub open spec fn pawn_target(v: ChessView, from: int, to: int, c: Color) -> bool {
    let f = forward(c);
    let b = v.board;
    ||| to == from + f && on_board(to) && is_empty(b, to)
    ||| to == from + 2 * f && pawn_start(from, c) && is_empty(b, from + f) && is_empty(b, to)
    ||| (to == from + f - 1 || to == from + f + 1) && on_board(to) && (enemy_of(b[to].piece, c)
        || v.en_passant_sq == Some(coord_of(to)))
}

/// The king's home square.
pub open spec fn home(c: Color) -> int {
    if c == Color::WHITE {
        116
    } else {
        4
    }
}

/// Castling of the `c` king from `from` to `to`: the king is home and has the right, the
/// squares between it and the rook are empty, the rook stands in its corner, and none of
/// the king's start, transit and destination squares is attacked.
pub open spec fn castle_target(v: ChessView, from: int, to: int, c: Color) -> bool {
    let b = v.board;
    let rights = if c == Color::WHITE { v.castling_rights.white } else { v.castling_rights.black };
    let o = opposite(c);
    &&& from == home(c)
    &&& {
        ||| to == from + 2 && rights.kingside && is_empty(b, from + 1) && is_empty(b, from + 2)
            && holds(b, from + 3, PieceType::ROOK, c) && !attacked(b, from, o) && !attacked(
            b,
            from + 1,
            o,
        ) && !attacked(b, from + 2, o)
        ||| to == from - 2 && rights.queenside && is_empty(b, from - 1) && is_empty(b, from - 2)
            && is_empty(b, from - 3) && holds(b, from - 4, PieceType::ROOK, c) && !attacked(
            b,
            from,
            o,
        ) && !attacked(b, from - 1, o) && !attacked(b, from - 2, o)
    }
}

/// The move of the piece on `from` to `to` (becoming `promo`) obeys how that piece moves,
/// whether or not it leaves its own king attacked.
pub open spec fn pseudo_legal(v: ChessView, from: int, to: int, promo: Option<PieceType>) -> bool {
    &&& on_board(from)
    &&& v.board[from].piece is Some
    &&& {
        let p = v.board[from].piece.unwrap();
        let c = p.color;
        let b = v.board;
        match p.piece_type {
            PieceType::PAWN => pawn_target(v, from, to, c) && (if last_rank(to) {
                promo matches Some(t) && is_promotion_kind(t)
            } else {
                promo is None
            }),
            PieceType::KNIGHT => promo is None && leap_target(b, from, to, c, knight_deltas()),
            PieceType::BISHOP => promo is None && slide_target(b, from, to, c, bishop_deltas()),
            PieceType::ROOK => promo is None && slide_target(b, from, to, c, rook_deltas()),
            PieceType::QUEEN => promo is None && slide_target(b, from, to, c, queen_deltas()),
            PieceType::KING => promo is None && (leap_target(b, from, to, c, king_deltas())
                || castle_target(v, from, to, c)),
        }
    }
}

/// The target `(to, pr)` appears in `r`.
pub open spec fn listed(r: Seq<Target>, to: int, pr: Option<PieceType>) -> bool {
    exists|j: int| 0 <= j < r.len() && r[j].0 as int == to && r[j].1 == pr
}

pub proof fn lemma_listed_push(r: Seq<Target>, x: Target)
    ensures
        forall|to: int, pr: Option<PieceType>| listed(r, to, pr) ==> #[trigger] listed(r.push(x), to, pr),
        listed(r.push(x), x.0 as int, x.1),
{
    assert forall|to: int, pr: Option<PieceType>| listed(r, to, pr) implies #[trigger] listed(r.push(x), to, pr) by {
        let j = choose|j: int| 0 <= j < r.len() && r[j].0 as int == to && r[j].1 == pr;
        assert(r.push(x)[j] == r[j]);
    }
    assert(r.push(x)[r.len() as int] == x);
}

/// Whether `(to, pr)` appears in `r`.
pub fn contains_target(r: &Vec<Target>, to: usize, pr: Option<PieceType>) -> (b: bool)
    ensures
        b == listed(r@, to as int, pr),
{
    let mut i: usize = 0;
    while i < r.len()
        invariant
            i <= r@.len(),
            forall|k: int| 0 <= k < i ==> !(r@[k].0 == to && r@[k].1 == pr),
        decreases r@.len() - i,
    {
        let same = match (r[i].1, pr) {
            (None, None) => true,
            (Some(a), Some(b)) => a == b,
            _ => false,
        };
        if r[i].0 == to && same {
            return true;
        }
        i += 1;
    }
    false
}

/// Pushing an entry that is not yet listed keeps the entries distinct.
pub proof fn lemma_push_distinct(r: Seq<Target>, x: Target)
    requires
        r.no_duplicates(),
        !listed(r, x.0 as int, x.1),
    ensures
        r.push(x).no_duplicates(),
{
    let s = r.push(x);
    assert forall|a: int, b: int| 0 <= a < s.len() && 0 <= b < s.len() && a != b implies s[a] != s[b] by {
        if a == r.len() && s[a] == s[b] {
            assert(r[b] == x);
        }
        if b == r.len() && s[a] == s[b] {
            assert(r[a] == x);
        }
    }
}

/// Adds `x` unless it is already listed.
pub fn push_target(r: &mut Vec<Target>, x: Target)
    ensures
        final(r)@ == old(r)@ || final(r)@ == old(r)@.push(x),
        old(r)@.no_duplicates() ==> final(r)@.no_duplicates(),
        listed(final(r)@, x.0 as int, x.1),
        forall|to: int, pr: Option<PieceType>| listed(old(r)@, to, pr) ==> #[trigger] listed(final(r)@, to, pr),
{
    if !contains_target(r, x.0, x.1) {
        proof {
            lemma_listed_push(r@, x);
            if r@.no_duplicates() {
                lemma_push_distinct(r@, x);
            }
        }
        r.push(x);
    }
}

fn own_or_empty(p: Option<Piece>, c: Color) -> (r: (bool, bool))
    ensures
        r.0 == (p matches Some(q) && q.color == c),
        r.1 == (p is None),
{
    match p {
        Some(q) => (q.color == c, false),
        None => (false, true),
    }
}

fn slide_delta(kind: PieceType, i: usize) -> (d: i8)
    requires
        kind == PieceType::BISHOP || kind == PieceType::ROOK || kind == PieceType::QUEEN,
        kind == PieceType::QUEEN ==> i < 8,
        kind != PieceType::QUEEN ==> i < 4,
    ensures
        d == slide_dirs(kind)[i as int],
{
    if kind == PieceType::BISHOP {
        queen_delta(i + 4)
    } else {
        queen_delta(i)
    }
}

pub open spec fn leap_dirs(knight: bool) -> Seq<int> {
    if knight {
        knight_deltas()
    } else {
        king_deltas()
    }
}

pub open spec fn slide_dirs(kind: PieceType) -> Seq<int> {
    if kind == PieceType::BISHOP {
        bishop_deltas()
    } else if kind == PieceType::ROOK {
        rook_deltas()
    } else {
        queen_deltas()
    }
}

/// The squares a knight (or, with `knight` false, a king stepping once) of colour `c` on
/// `from` can go to: on the board and not holding a piece of its own side.
pub fn leaper_moves(board: &Board, from: usize, c: Color, knight: bool) -> (r: Vec<Target>)
    requires
        board.wf(),
        on_board(from as int),
    ensures
        r@.no_duplicates(),
        forall|j: int| 0 <= j < r@.len() ==> r@[j].1 is None && leap_target(
            board._board@,
            from as int,
            r@[j].0 as int,
            c,
            leap_dirs(knight),
        ),
        forall|to: int| #[trigger] leap_target(board._board@, from as int, to, c, leap_dirs(knight))
            ==> listed(r@, to, None),
{
    let ghost b = board._board@;
    let ghost ds = leap_dirs(knight);
    let mut r: Vec<Target> = Vec::new();
    let mut i: usize = 0;
    while i < 8
        invariant
            r@.no_duplicates(),
            board.wf(),
            b == board._board@,
            ds == (leap_dirs(knight)),
            on_board(from as int),
            i <= 8,
            forall|j: int| 0 <= j < r@.len() ==> r@[j].1 is None && leap_target(b, from as int, r@[j].0 as int, c, ds),
            forall|i2: int| 0 <= i2 < i && on_board(from + #[trigger] ds[i2]) && not_own(b, from + ds[i2], c)
                ==> listed(r@, from + ds[i2], None),
        decreases 8 - i,
    {
        let d = if knight { knight_delta(i) } else { king_delta(i) };
        let t = from as i64 + d as i64;
        if t >= 0 && is_on_board(t as usize) {
            let (own, _) = own_or_empty(board._board[t as usize].piece, c);
            if !own {
                assert(leap_target(b, from as int, t as int, c, ds));
                push_target(&mut r, (t as usize, None));
            }
        }
        i += 1;
    }
    r
}

/// The squares a bishop, rook or queen of colour `c` on `from` can go to: along each of its
/// directions over empty squares, up to and including the first piece of the other side.
pub fn sliding_moves(board: &Board, from: usize, c: Color, kind: PieceType) -> (r: Vec<Target>)
    requires
        board.wf(),
        on_board(from as int),
        kind == PieceType::BISHOP || kind == PieceType::ROOK || kind == PieceType::QUEEN,
    ensures
        r@.no_duplicates(),
        forall|j: int| 0 <= j < r@.len() ==> r@[j].1 is None && slide_target(
            board._board@,
            from as int,
            r@[j].0 as int,
            c,
            slide_dirs(kind),
        ),
        forall|to: int| #[trigger] slide_target(board._board@, from as int, to, c, slide_dirs(kind))
            ==> listed(r@, to, None),
{
    let ghost b = board._board@;
    let ghost ds = slide_dirs(kind);
    let n: usize = if kind == PieceType::QUEEN { 8 } else { 4 };
    let mut r: Vec<Target> = Vec::new();
    let mut i: usize = 0;
    while i < n
        invariant
            r@.no_duplicates(),
            board.wf(),
            b == board._board@,
            ds == slide_dirs(kind),
            kind == PieceType::BISHOP || kind == PieceType::ROOK || kind == PieceType::QUEEN,
            n == ds.len(),
            on_board(from as int),
            i <= n,
            forall|j: int| 0 <= j < r@.len() ==> r@[j].1 is None && slide_target(b, from as int, r@[j].0 as int, c, ds),
            forall|i2: int, k2: nat| 0 <= i2 < i && 1 <= k2 <= 7 && #[trigger] path_clear(b, from as int, ds[i2], k2)
                && not_own(b, step(from as int, ds[i2], k2), c) ==> listed(r@, step(from as int, ds[i2], k2), None),
        decreases n - i,
    {
        let d = slide_delta(kind, i);
        let ghost di = d as int;
        let mut pos: i64 = from as i64;
        let mut k: usize = 0;
        let mut done = false;
        while k < 7 && !done
            invariant
                r@.no_duplicates(),
                board.wf(),
                b == board._board@,
                ds == slide_dirs(kind),
                n == ds.len(),
                on_board(from as int),
                i < n,
                di == ds[i as int],
                -17 <= di <= 17,
                di == d,
                k <= 7,
                pos == step(from as int, di, k as nat),
                !done ==> path_clear(b, from as int, di, k as nat),
                !done && k >= 1 ==> on_board(pos as int) && b[pos as int].piece is None,
                done ==> forall|k2: nat| k2 > k ==> !#[trigger] path_clear(b, from as int, di, k2),
                forall|j: int| 0 <= j < r@.len() ==> r@[j].1 is None && slide_target(b, from as int, r@[j].0 as int, c, ds),
                forall|i2: int, k2: nat| 0 <= i2 < i && 1 <= k2 <= 7 && #[trigger] path_clear(b, from as int, ds[i2], k2)
                    && not_own(b, step(from as int, ds[i2], k2), c) ==> listed(r@, step(from as int, ds[i2], k2), None),
                forall|k2: nat| 1 <= k2 <= k && #[trigger] path_clear(b, from as int, di, k2)
                    && not_own(b, step(from as int, di, k2), c) ==> listed(r@, step(from as int, di, k2), None),
            decreases 7 - k,
        {
            pos = pos + d as i64;
            k = k + 1;
            assert(pos == step(from as int, di, k as nat));
            if pos < 0 || !is_on_board(pos as usize) {
                done = true;
                proof {
                    assert forall|k2: nat| k2 >= k implies !#[trigger] path_clear(b, from as int, di, k2) by {
                        if k2 >= k && path_clear(b, from as int, di, k2) {
                            lemma_path_prefix(b, from as int, di, k2, k as nat);
                        }
                    }
                }
            } else {
                assert(path_clear(b, from as int, di, k as nat));
                let (own, empty) = own_or_empty(board._board[pos as usize].piece, c);
                if !own {
                    assert(slide_target(b, from as int, pos as int, c, ds));
                    push_target(&mut r, (pos as usize, None));
                }
                if !empty {
                    done = true;
                    proof {
                        assert forall|k2: nat| k2 > k implies !#[trigger] path_clear(b, from as int, di, k2) by {
                            if k2 > k && path_clear(b, from as int, di, k2) {
                                lemma_path_prefix(b, from as int, di, k2, k as nat);
                            }
                        }
                    }
                }
            }
        }
        i += 1;
    }
    r
}

/// The kind a pawn landing on `to` becomes: one of Q, R, B, N on the last rank, none elsewhere.
pub open spec fn promo_ok(to: int, pr: Option<PieceType>) -> bool {
    if last_rank(to) {
        pr matches Some(t) && is_promotion_kind(t)
    } else {
        pr is None
    }
}

pub proof fn lemma_listed_append(r1: Seq<Target>, r2: Seq<Target>)
    ensures
        forall|to: int, pr: Option<PieceType>| listed(r1, to, pr) ==> #[trigger] listed(r1 + r2, to, pr),
        forall|to: int, pr: Option<PieceType>| listed(r2, to, pr) ==> #[trigger] listed(r1 + r2, to, pr),
{
    assert forall|to: int, pr: Option<PieceType>| listed(r1, to, pr) implies #[trigger] listed(r1 + r2, to, pr) by {
        let j = choose|j: int| 0 <= j < r1.len() && r1[j].0 as int == to && r1[j].1 == pr;
        assert((r1 + r2)[j] == r1[j]);
    }
    assert forall|to: int, pr: Option<PieceType>| listed(r2, to, pr) implies #[trigger] listed(r1 + r2, to, pr) by {
        let j = choose|j: int| 0 <= j < r2.len() && r2[j].0 as int == to && r2[j].1 == pr;
        assert((r1 + r2)[r1.len() + j] == r2[j]);
    }
}

/// Adds the pawn move to `to`: once, or once per kind it can become on the last rank
/// (queen, rook, bishop, knight, in that order).
fn push_pawn_target(r: &mut Vec<Target>, to: usize)
    requires
        on_board(to as int),
    ensures
        old(r)@.no_duplicates() ==> final(r)@.no_duplicates(),
        final(r)@.len() >= old(r)@.len(),
        forall|j: int| 0 <= j < old(r)@.len() ==> final(r)@[j] == old(r)@[j],
        forall|j: int| old(r)@.len() <= j < final(r)@.len() ==> final(r)@[j].0 == to && promo_ok(
            to as int,
            final(r)@[j].1,
        ),
        forall|pr: Option<PieceType>| promo_ok(to as int, pr) ==> #[trigger] listed(final(r)@, to as int, pr),
        forall|to2: int, pr: Option<PieceType>| listed(old(r)@, to2, pr) ==> #[trigger] listed(final(r)@, to2, pr),
{
    if to < 8 || to >= 112 {
        push_target(r, (to, Some(PieceType::QUEEN)));
        let ghost r1 = r@;
        push_target(r, (to, Some(PieceType::ROOK)));
        let ghost r2 = r@;
        push_target(r, (to, Some(PieceType::BISHOP)));
        let ghost r3 = r@;
        push_target(r, (to, Some(PieceType::KNIGHT)));
        assert forall|pr: Option<PieceType>| promo_ok(to as int, pr) implies #[trigger] listed(r@, to as int, pr) by {
            assert(listed(r1, to as int, Some(PieceType::QUEEN)));
            assert(listed(r2, to as int, Some(PieceType::ROOK)));
            assert(listed(r3, to as int, Some(PieceType::BISHOP)));
        }
    } else {
        push_target(r, (to, None));
    }
}

impl Chess {
    /// The moves of the pawn on `from`: one step, two from its starting rank, diagonal
    /// captures including en passant; each move to the last rank once per promotion kind.
    pub fn pawn_moves(&self, from: usize) -> (r: Vec<Target>)
        requires
            self.wf(),
            on_board(from as int),
            self@.board[from as int].piece matches Some(p) && p.piece_type == PieceType::PAWN,
        ensures
            r@.no_duplicates(),
            forall|j: int| 0 <= j < r@.len() ==> pawn_target(
                self@,
                from as int,
                r@[j].0 as int,
                self@.board[from as int].piece.unwrap().color,
            ) && promo_ok(r@[j].0 as int, r@[j].1),
            forall|to: int, pr: Option<PieceType>| pawn_target(
                self@,
                from as int,
                to,
                self@.board[from as int].piece.unwrap().color,
            ) && promo_ok(to, pr) ==> #[trigger] listed(r@, to, pr),
    {
        let ghost v = self@;
        let ghost b = v.board;
        let c = match self.board._board[from].piece {
            Some(p) => p.color,
            None => Color::WHITE,
        };
        let f: i64 = if c == Color::WHITE { -16 } else { 16 };
        let mut r: Vec<Target> = Vec::new();
        let t1 = from as i64 + f;
        if t1 >= 0 && is_on_board(t1 as usize) && self.board._board[t1 as usize].piece.is_none() {
            push_pawn_target(&mut r, t1 as usize);
            let start = if c == Color::WHITE { 96 <= from && from < 104 } else { 16 <= from && from < 24 };
            if start {
                let t2 = t1 + f;
                if self.board._board[t2 as usize].piece.is_none() {
                    push_pawn_target(&mut r, t2 as usize);
                }
            }
        }
        let mut side: usize = 0;
        while side < 2
            invariant
                r@.no_duplicates(),
                self.wf(),
                v == self@,
                b == v.board,
                on_board(from as int),
                c == v.board[from as int].piece.unwrap().color,
                f == forward(c),
                side <= 2,
                forall|j: int| 0 <= j < r@.len() ==> pawn_target(v, from as int, r@[j].0 as int, c) && promo_ok(r@[j].0 as int, r@[j].1),
                forall|to: int, pr: Option<PieceType>| (to == from + f && on_board(to) && is_empty(b, to)
                    || to == from + 2 * f && pawn_start(from as int, c) && is_empty(b, from + f) && is_empty(b, to))
                    && promo_ok(to, pr) ==> #[trigger] listed(r@, to, pr),
                forall|to: int, pr: Option<PieceType>| (if c == Color::WHITE {
                    (side >= 1 && to == from + f - 1) || (side >= 2 && to == from + f + 1)
                } else {
                    (side >= 1 && to == from + f + 1) || (side >= 2 && to == from + f - 1)
                }) && on_board(to) && (enemy_of(b[to].piece, c) || v.en_passant_sq == Some(coord_of(to)))
                    && promo_ok(to, pr) ==> #[trigger] listed(r@, to, pr),
            decreases 2 - side,
        {
            let dx: i64 = if (side == 0) == (c == Color::WHITE) { -1 } else { 1 };
            let tc = from as i64 + f + dx;
            if tc >= 0 && is_on_board(tc as usize) {
                let target = self.board._board[tc as usize].piece;
                let is_enemy = match target {
                    Some(q) => q.color != c,
                    None => false,
                };
                let is_ep = match self.en_passant_sq {
                    Some(sq) => sq.to_index() == tc as usize,
                    None => false,
                };
                proof {
                    lemma_coord_round_trip(tc as int);
                    if let Some(sq) = self.en_passant_sq {
                        lemma_index_round_trip(sq);
                    }
                }
                if is_enemy || is_ep {
                    push_pawn_target(&mut r, tc as usize);
                }
            }
            side += 1;
        }
        r
    }

    /// The castling moves of the king on `from`.
    pub fn castling_moves(&self, from: usize) -> (r: Vec<Target>)
        requires
            self.wf(),
            on_board(from as int),
            self@.board[from as int].piece matches Some(p) && p.piece_type == PieceType::KING,
        ensures
            r@.no_duplicates(),
            forall|j: int| 0 <= j < r@.len() ==> r@[j].1 is None && castle_target(
                self@,
                from as int,
                r@[j].0 as int,
                self@.board[from as int].piece.unwrap().color,
            ),
            forall|to: int| #[trigger] castle_target(
                self@,
                from as int,
                to,
                self@.board[from as int].piece.unwrap().color,
            ) ==> listed(r@, to, None),
    {
        let ghost v = self@;
        let c = match self.board._board[from].piece {
            Some(p) => p.color,
            None => Color::WHITE,
        };
        let o = c.opponent();
        let mut r: Vec<Target> = Vec::new();
        let at_home = if c == Color::WHITE { from == 116 } else { from == 4 };
        if !at_home {
            return r;
        }
        let rights = if c == Color::WHITE { self.castling_rights.white } else { self.castling_rights.black };
        if rights.kingside && self.board._board[from + 1].piece.is_none()
            && self.board._board[from + 2].piece.is_none()
            && is_piece(self.board._board[from + 3].piece, PieceType::ROOK, c)
            && !is_attacked_by(&self.board, from, o) && !is_attacked_by(&self.board, from + 1, o)
            && !is_attacked_by(&self.board, from + 2, o) {
            proof { lemma_listed_push(r@, ((from + 2) as usize, None)); }
            r.push((from + 2, None));
        }
        let ghost r1 = r@;
        if rights.queenside && self.board._board[from - 1].piece.is_none()
            && self.board._board[from - 2].piece.is_none()
            && self.board._board[from - 3].piece.is_none()
            && is_piece(self.board._board[from - 4].piece, PieceType::ROOK, c)
            && !is_attacked_by(&self.board, from, o) && !is_attacked_by(&self.board, from - 1, o)
            && !is_attacked_by(&self.board, from - 2, o) {
            proof { lemma_listed_push(r@, ((from - 2) as usize, None)); }
            r.push((from - 2, None));
        }
        r
    }
}

/// The side `c`'s king, as the registry names it, is attacked by the other side.
pub open spec fn king_attacked(v: ChessView, c: Color) -> bool {
    match (if c == Color::WHITE { v.kings.white } else { v.kings.black }) {
        Some(s) => attacked(v.board, s as int, opposite(c)),
        None => false,
    }
}

/// The piece a pawn of colour `c` becomes for the kind `pr`.
pub open spec fn promo_piece(pr: Option<PieceType>, c: Color) -> Option<Piece> {
    match pr {
        Some(t) => Some(Piece { piece_type: t, color: c }),
        None => None,
    }
}

/// The move is pseudo-legal for the side to move and, once made, leaves that side's king
/// unattacked.
pub open spec fn legal(v: ChessView, from: int, to: int, pr: Option<PieceType>) -> bool {
    &&& pseudo_legal(v, from, to, pr)
    &&& v.board[from].piece.unwrap().color == v.turn
    &&& !king_attacked(
        super::make_view(v, super::internal_of(v, from, to, promo_piece(pr, v.turn))),
        v.turn,
    )
}

/// A pseudo-legal move can be made.
pub proof fn lemma_pseudo_move_ok(v: ChessView, from: int, to: int, pr: Option<PieceType>)
    requires
        super::basic_wf(v),
        pseudo_legal(v, from, to, pr),
    ensures
        super::move_ok(v, from, to, promo_piece(pr, v.board[from].piece.unwrap().color)),
{
    let p = v.board[from].piece.unwrap();
    let c = p.color;
    let b = v.board;
    match p.piece_type {
        PieceType::BISHOP => {
            let (i, k) = choose|i: int, k: nat|
                0 <= i < bishop_deltas().len() && 1 <= k <= 7 && to == step(from, bishop_deltas()[i], k)
                    && #[trigger] path_clear(b, from, bishop_deltas()[i], k) && not_own(b, to, c);
            lemma_path_prefix(b, from, bishop_deltas()[i], k, k);
        },
        PieceType::ROOK => {
            let (i, k) = choose|i: int, k: nat|
                0 <= i < rook_deltas().len() && 1 <= k <= 7 && to == step(from, rook_deltas()[i], k)
                    && #[trigger] path_clear(b, from, rook_deltas()[i], k) && not_own(b, to, c);
            lemma_path_prefix(b, from, rook_deltas()[i], k, k);
        },
        PieceType::QUEEN => {
            let (i, k) = choose|i: int, k: nat|
                0 <= i < queen_deltas().len() && 1 <= k <= 7 && to == step(from, queen_deltas()[i], k)
                    && #[trigger] path_clear(b, from, queen_deltas()[i], k) && not_own(b, to, c);
            lemma_path_prefix(b, from, queen_deltas()[i], k, k);
        },
        _ => {},
    }
}

impl Chess {
    /// The moves of the king on `from`: one step to a square not holding a piece of its
    /// side, and castling.
    pub fn king_moves(&self, from: usize) -> (r: Vec<Target>)
        requires
            self.wf(),
            on_board(from as int),
            self@.board[from as int].piece matches Some(p) && p.piece_type == PieceType::KING,
        ensures
            r@.no_duplicates(),
            forall|j: int| 0 <= j < r@.len() ==> r@[j].1 is None && (leap_target(
                self@.board,
                from as int,
                r@[j].0 as int,
                self@.board[from as int].piece.unwrap().color,
                king_deltas(),
            ) || castle_target(self@, from as int, r@[j].0 as int, self@.board[from as int].piece.unwrap().color)),
            forall|to: int| (leap_target(self@.board, from as int, to, self@.board[from as int].piece.unwrap().color, king_deltas())
                || castle_target(self@, from as int, to, self@.board[from as int].piece.unwrap().color)) ==> #[trigger] listed(r@, to, None),
    {
        let c = match self.board._board[from].piece {
            Some(p) => p.color,
            None => Color::WHITE,
        };
        assert(leap_dirs(false) == king_deltas());
        let mut a = leaper_moves(&self.board, from, c, false);
        let mut k = self.castling_moves(from);
        proof { lemma_listed_append(a@, k@); }
        let ghost a0 = a@;
        let ghost k0 = k@;
        a.append(&mut k);
        assert forall|j: int| 0 <= j < a@.len() implies a@[j].1 is None && (leap_target(self@.board, from as int, a@[j].0 as int, c, king_deltas())
            || castle_target(self@, from as int, a@[j].0 as int, c)) by {
            if j >= a0.len() {
                assert(a@[j] == k0[j - a0.len()]);
            }
        }
        a
    }

    /// Every pseudo-legal move of the piece on `from`, as (destination, promotion kind).
    pub fn pseudo_moves(&self, from: usize) -> (r: Vec<Target>)
        requires
            self.wf(),
            on_board(from as int),
        ensures
            r@.no_duplicates(),
            forall|j: int| 0 <= j < r@.len() ==> pseudo_legal(self@, from as int, r@[j].0 as int, r@[j].1),
            forall|to: int, pr: Option<PieceType>| pseudo_legal(self@, from as int, to, pr) ==> #[trigger] listed(
                r@,
                to,
                pr,
            ),
    {
        match self.board._board[from].piece {
            None => Vec::new(),
            Some(p) => {
                let c = p.color;
                match p.piece_type {
                    PieceType::PAWN => self.pawn_moves(from),
                    PieceType::KNIGHT => {
                        assert(leap_dirs(true) == knight_deltas());
                        leaper_moves(&self.board, from, c, true)
                    },
                    PieceType::BISHOP => {
                        assert(slide_dirs(PieceType::BISHOP) == bishop_deltas());
                        sliding_moves(&self.board, from, c, PieceType::BISHOP)
                    },
                    PieceType::ROOK => {
                        assert(slide_dirs(PieceType::ROOK) == rook_deltas());
                        sliding_moves(&self.board, from, c, PieceType::ROOK)
                    },
                    PieceType::QUEEN => {
                        assert(slide_dirs(PieceType::QUEEN) == queen_deltas());
                        sliding_moves(&self.board, from, c, PieceType::QUEEN)
                    },
                    PieceType::KING => self.king_moves(from),
                }
            },
        }
    }

    /// Whether the king of side `c` is attacked, per the registry.
    pub fn king_in_danger(&self, c: Color) -> (r: bool)
        requires
            self.wf(),
        ensures
            r == king_attacked(self@, c),
    {
        let slot = if c == Color::WHITE { self.kings.white } else { self.kings.black };
        match slot {
            Some(s) => is_attacked_by(&self.board, s, c.opponent()),
            None => false,
        }
    }

    /// The legal moves of the piece on `from`: those of its pseudo-legal moves, for the side
    /// to move, after which that side's king is not attacked. Each is tried by making and
    /// taking it back, so the state is left as it was.
    pub fn legal_targets(&mut self, from: usize) -> (r: Vec<Target>)
        requires
            old(self).wf(),
            on_board(from as int),
        ensures
            final(self).wf(),
            final(self)@ == old(self)@,
            r@.no_duplicates(),
            forall|j: int| 0 <= j < r@.len() ==> legal(old(self)@, from as int, r@[j].0 as int, r@[j].1),
            forall|to: int, pr: Option<PieceType>| legal(old(self)@, from as int, to, pr) ==> #[trigger] listed(
                r@,
                to,
                pr,
            ),
    {
        let ghost v = self@;
        let mut r: Vec<Target> = Vec::new();
        let c = match self.board._board[from].piece {
            Some(p) => p.color,
            None => {
                return r;
            },
        };
        if c != self.turn {
            return r;
        }
        let cands = self.pseudo_moves(from);
        let mut j: usize = 0;
        while j < cands.len()
            invariant
                self.wf(),
                self@ == v,
                on_board(from as int),
                c == v.turn,
                v.board[from as int].piece matches Some(p) && p.color == c,
                j <= cands@.len(),
                forall|i: int| 0 <= i < cands@.len() ==> pseudo_legal(v, from as int, cands@[i].0 as int, cands@[i].1),
                forall|to: int, pr: Option<PieceType>| pseudo_legal(v, from as int, to, pr) ==> #[trigger] listed(
                    cands@,
                    to,
                    pr,
                ),
                r@.no_duplicates(),
                forall|i: int| 0 <= i < r@.len() ==> legal(v, from as int, r@[i].0 as int, r@[i].1),
                forall|i: int| 0 <= i < j && #[trigger] legal(v, from as int, cands@[i].0 as int, cands@[i].1)
                    ==> listed(r@, cands@[i].0 as int, cands@[i].1),
            decreases cands@.len() - j,
        {
            let (to, pr) = cands[j];
            let promo = match pr {
                Some(t) => Some(Piece { piece_type: t, color: c }),
                None => None,
            };
            proof { lemma_pseudo_move_ok(v, from as int, to as int, pr); }
            let res = self.play(from, to, promo);
            let ghost w = self@;
            let bad = self.king_in_danger(c);
            let _ = self.undo_move();
            proof {
                super::lemma_undo_make(v, from as int, to as int, promo, w);
            }
            if !bad && !contains_target(&r, to, pr) {
                proof {
                    lemma_listed_push(r@, (to, pr));
                    lemma_push_distinct(r@, (to, pr));
                }
                r.push((to, pr));
            }
            j += 1;
        }
        proof {
            assert forall|to: int, pr: Option<PieceType>| legal(v, from as int, to, pr) implies #[trigger] listed(r@, to, pr) by {
                assert(listed(cands@, to, pr));
                let i = choose|i: int| 0 <= i < cands@.len() && cands@[i].0 as int == to && cands@[i].1 == pr;
                assert(legal(v, from as int, cands@[i].0 as int, cands@[i].1));
            }
        }
        r
    }
}

/// A move with its origin: (from, to, promotion kind).
pub type Triple = (usize, usize, Option<PieceType>);

pub open spec fn listed3(r: Seq<Triple>, from: int, to: int, pr: Option<PieceType>) -> bool {
    exists|j: int| 0 <= j < r.len() && r[j].0 as int == from && r[j].1 as int == to && r[j].2 == pr
}

/// The side to move has no legal move at all.
pub open spec fn no_legal_move(v: ChessView) -> bool {
    forall|from: int, to: int, pr: Option<PieceType>| !#[trigger] legal(v, from, to, pr)
}

/// The move as a player states it.
pub open spec fn move_of(from: int, to: int, pr: Option<PieceType>, c: Color) -> Move {
    Move { from: coord_of(from), to: coord_of(to), promotion_piece: promo_piece(pr, c) }
}

impl Chess {
    /// Every legal move of the side to move, square by square from a8 to h1. The state is
    /// left as it was.
    pub fn legal_moves(&mut self) -> (r: Vec<Triple>)
        requires
            old(self).wf(),
        ensures
            final(self).wf(),
            final(self)@ == old(self)@,
            r@.no_duplicates(),
            forall|j: int| 0 <= j < r@.len() ==> legal(old(self)@, r@[j].0 as int, r@[j].1 as int, r@[j].2),
            forall|from: int, to: int, pr: Option<PieceType>| legal(old(self)@, from, to, pr) ==> #[trigger] listed3(
                r@,
                from,
                to,
                pr,
            ),
    {
        let ghost v = self@;
        let mut r: Vec<Triple> = Vec::new();
        let mut from: usize = 0;
        while from < 128
            invariant
                self.wf(),
                self@ == v,
                from <= 128,
                r@.no_duplicates(),
                forall|j: int| 0 <= j < r@.len() ==> (#[trigger] r@[j]).0 < from,
                forall|j: int| 0 <= j < r@.len() ==> legal(v, r@[j].0 as int, r@[j].1 as int, r@[j].2),
                forall|f: int, to: int, pr: Option<PieceType>| 0 <= f < from && legal(v, f, to, pr) ==> #[trigger] listed3(
                    r@,
                    f,
                    to,
                    pr,
                ),
            decreases 128 - from,
        {
            if is_on_board(from) {
                let ts = self.legal_targets(from);
                let start = r.len();
                let mut j: usize = 0;
                while j < ts.len()
                    invariant
                        r@.no_duplicates(),
                        ts@.no_duplicates(),
                        r@.len() == start + j,
                        forall|k: int| 0 <= k < start ==> (#[trigger] r@[k]).0 < from,
                        forall|k: int| start <= k < r@.len() ==> #[trigger] r@[k] == (from, ts@[k - start].0, ts@[k - start].1),
                        self.wf(),
                        self@ == v,
                        from < 128,
                        on_board(from as int),
                        j <= ts@.len(),
                        forall|i: int| 0 <= i < ts@.len() ==> legal(v, from as int, ts@[i].0 as int, ts@[i].1),
                        forall|to: int, pr: Option<PieceType>| legal(v, from as int, to, pr) ==> #[trigger] listed(ts@, to, pr),
                        forall|i: int| 0 <= i < r@.len() ==> legal(v, r@[i].0 as int, r@[i].1 as int, r@[i].2),
                        forall|f: int, to: int, pr: Option<PieceType>| 0 <= f < from && legal(v, f, to, pr) ==> #[trigger] listed3(
                            r@,
                            f,
                            to,
                            pr,
                        ),
                        forall|i: int| 0 <= i < j ==> #[trigger] listed3(r@, from as int, ts@[i].0 as int, ts@[i].1),
                    decreases ts@.len() - j,
                {
                    let ghost r0 = r@;
                    let (to, pr) = ts[j];
                    r.push((from, to, pr));
                    proof {
                        assert forall|a: int, b: int| 0 <= a < r@.len() && 0 <= b < r@.len() && a != b implies r@[a] != r@[b] by {
                            if a < r0.len() && b < r0.len() {
                                assert(r@[a] == r0[a] && r@[b] == r0[b]);
                            } else {
                                let (x, y) = if a == r0.len() { (b, a) } else { (a, b) };
                                if x < start {
                                    assert(r@[x] == r0[x]);
                                } else {
                                    assert(r@[x] == r0[x]);
                                    assert(ts@[x - start] != ts@[y - start]);
                                }
                            }
                        }
                        assert(r@[r0.len() as int] == (from, to, pr));
                        assert forall|f: int, to2: int, pr2: Option<PieceType>| listed3(r0, f, to2, pr2) implies #[trigger] listed3(r@, f, to2, pr2) by {
                            let i = choose|i: int| 0 <= i < r0.len() && r0[i].0 as int == f && r0[i].1 as int == to2 && r0[i].2 == pr2;
                            assert(r@[i] == r0[i]);
                        }
                        assert forall|i: int| 0 <= i < j + 1 implies #[trigger] listed3(r@, from as int, ts@[i].0 as int, ts@[i].1) by {
                            if i < j {
                                assert(listed3(r0, from as int, ts@[i].0 as int, ts@[i].1));
                            }
                        }
                    }
                    j += 1;
                }
                proof {
                    assert forall|k: int| 0 <= k < r@.len() implies (#[trigger] r@[k]).0 < from + 1 by {
                        if k >= start {
                            assert(r@[k] == (from, ts@[k - start].0, ts@[k - start].1));
                        }
                    }
                    assert forall|f: int, to: int, pr: Option<PieceType>| 0 <= f < from + 1 && legal(v, f, to, pr) implies #[trigger] listed3(r@, f, to, pr) by {
                        if f == from {
                            assert(listed(ts@, to, pr));
                            let i = choose|i: int| 0 <= i < ts@.len() && ts@[i].0 as int == to && ts@[i].1 == pr;
                            assert(listed3(r@, from as int, ts@[i].0 as int, ts@[i].1));
                        }
                    }
                }
            }
            from += 1;
        }
        r
    }

    /// Whether the side to move has any legal move. The state is left as it was.
    pub fn has_legal_move(&mut self) -> (r: bool)
        requires
            old(self).wf(),
        ensures
            final(self).wf(),
            final(self)@ == old(self)@,
            r == !no_legal_move(old(self)@),
    {
        let ghost v = self@;
        let ms = self.legal_moves();
        if ms.len() > 0 {
            assert(legal(v, ms@[0].0 as int, ms@[0].1 as int, ms@[0].2));
            true
        } else {
            assert forall|from: int, to: int, pr: Option<PieceType>| !#[trigger] legal(v, from, to, pr) by {
                if legal(v, from, to, pr) {
                    assert(listed3(ms@, from, to, pr));
                }
            }
            false
        }
    }
}

} // verus!
