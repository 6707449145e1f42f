use vstd::prelude::*;
use super::board::Board;
use super::constants::{knight_delta, knight_deltas, queen_delta, queen_deltas, Color};
use super::piece::{Piece, PieceType};
use super::square::Square;
use super::utils::{is_on_board, on_board};

verus! {

/// The slot reached from `t` after `k` steps of `d`.
pub open spec fn step(t: int, d: int, k: nat) -> int
    decreases k,
{
    if k == 0 {
        t
    } else {
        step(t, d, (k - 1) as nat) + d
    }
}

pub open spec fn empty_at(b: Seq<Square>, i: int) -> bool {
    b[i].piece is None
}

/// The first `k` steps of `d` from `t` stay on the board, and all but the last land on
/// empty slots.
pub open spec fn path_clear(b: Seq<Square>, t: int, d: int, k: nat) -> bool
    decreases k,
{
    if k == 0 {
        true
    } else {
        path_clear(b, t, d, (k - 1) as nat) && on_board(step(t, d, k)) && (k == 1 || empty_at(
            b,
            step(t, d, (k - 1) as nat),
        ))
    }
}

/// A piece `p` standing `k` steps of `d` away from a square attacks it along that line.
pub open spec fn line_attacker(p: Piece, d: int, k: nat) -> bool {
    match p.piece_type {
        PieceType::QUEEN => true,
        PieceType::ROOK => d == 1 || d == -1 || d == 16 || d == -16,
        PieceType::BISHOP => d == 15 || d == -15 || d == 17 || d == -17,
        PieceType::KING => k == 1,
        PieceType::PAWN => k == 1 && (if p.color == Color::WHITE {
            d == 15 || d == 17
        } else {
            d == -15 || d == -17
        }),
        PieceType::KNIGHT => false,
    }
}

/// A piece of colour `by`, `k` steps of `d` from `t` over empty slots, attacks `t`.
pub open spec fn line_attack(b: Seq<Square>, t: int, d: int, k: nat, by: Color) -> bool {
    &&& 1 <= k <= 7
    &&& path_clear(b, t, d, k)
    &&& b[step(t, d, k)].piece matches Some(p)
    &&& p.color == by
    &&& line_attacker(p, d, k)
}

/// A knight of colour `by` stands a knight's leap `d` away from `t`.
pub open spec fn knight_attack(b: Seq<Square>, t: int, d: int, by: Color) -> bool {
    on_board(t + d) && b[t + d].piece == Some(Piece { piece_type: PieceType::KNIGHT, color: by })
}

/// Some piece of colour `by` attacks square `t`.
pub open spec fn attacked(b: Seq<Square>, t: int, by: Color) -> bool {
    (exists|i: int, k: nat| 0 <= i < 8 && #[trigger] line_attack(b, t, queen_deltas()[i], k, by))
        || (exists|i: int| 0 <= i < 8 && #[trigger] knight_attack(b, t, knight_deltas()[i], by))
}

pub proof fn lemma_path_prefix(b: Seq<Square>, t: int, d: int, j: nat, k: nat)
    requires
        path_clear(b, t, d, j),
        1 <= k <= j,
    ensures
        on_board(step(t, d, k)),
        k < j ==> empty_at(b, step(t, d, k)),
        path_clear(b, t, d, k),
    decreases j,
{
    if k < j {
        lemma_path_prefix(b, t, d, (j - 1) as nat, k);
        if k == j - 1 {
        }
    }
}

fn attacker_on_line(p: Piece, d: i64, k: usize) -> (r: bool)
    ensures
        r == line_attacker(p, d as int, k as nat),
{
    match p.piece_type {
        PieceType::QUEEN => true,
        PieceType::ROOK => d == 1 || d == -1 || d == 16 || d == -16,
        PieceType::BISHOP => d == 15 || d == -15 || d == 17 || d == -17,
        PieceType::KING => k == 1,
        PieceType::PAWN => k == 1 && (if p.color == Color::WHITE {
            d == 15 || d == 17
        } else {
            d == -15 || d == -17
        }),
        PieceType::KNIGHT => false,
    }
}

/// Walks from `t` along `d` to the first occupied slot and tells whether what stands
/// there attacks `t`.
fn ray_attacks(board: &Board, t: usize, d: i64, by: Color) -> (r: bool)
    requires
        board.wf(),
        on_board(t as int),
        -17 <= d <= 17,
    ensures
        r == exists|k: nat| #[trigger] line_attack(board._board@, t as int, d as int, k, by),
{
    let ghost b = board._board@;
    let mut pos: i64 = t as i64;
    let mut k: usize = 0;
    while k < 7
        invariant
            board.wf(),
            b == board._board@,
            on_board(t as int),
            -17 <= d <= 17,
            k <= 7,
            pos == step(t as int, d as int, k as nat),
            path_clear(b, t as int, d as int, k as nat),
            k >= 1 ==> on_board(pos as int) && empty_at(b, pos as int),
            forall|j: nat| j <= k ==> !#[trigger] line_attack(b, t as int, d as int, j, by),
        decreases 7 - k,
    {
        pos = pos + d;
        k = k + 1;
        assert(pos == step(t as int, d as int, k as nat));
        if pos < 0 || !is_on_board(pos as usize) {
            proof {
                assert forall|j: nat| !#[trigger] line_attack(b, t as int, d as int, j, by) by {
                    if j >= k && line_attack(b, t as int, d as int, j, by) {
                        lemma_path_prefix(b, t as int, d as int, j, k as nat);
                    }
                }
            }
            return false;
        }
        assert(path_clear(b, t as int, d as int, k as nat));
        match board._board[pos as usize].piece {
            Some(p) => {
                let r = p.color == by && attacker_on_line(p, d, k);
                proof {
                    assert forall|j: nat| j != k implies !#[trigger] line_attack(b, t as int, d as int, j, by) by {
                        if j > k && line_attack(b, t as int, d as int, j, by) {
                            lemma_path_prefix(b, t as int, d as int, j, k as nat);
                        }
                    }
                    if r {
                        assert(line_attack(b, t as int, d as int, k as nat, by));
                    }
                }
                return r;
            },
            None => {},
        }
    }
    proof {
        assert forall|j: nat| !#[trigger] line_attack(b, t as int, d as int, j, by) by {}
    }
    false
}

/// Whether a piece of colour `by` attacks square `t`: a slider along a clear line, a king
/// or pawn next to it, or a knight a leap away. Reads the board only.
pub fn is_attacked_by(board: &Board, t: usize, by: Color) -> (r: bool)
    requires
        board.wf(),
        on_board(t as int),
    ensures
        r == attacked(board._board@, t as int, by),
{
    let ghost b = board._board@;
    let mut i: usize = 0;
    while i < 8
        invariant
            board.wf(),
            b == board._board@,
            on_board(t as int),
            i <= 8,
            forall|i2: int, k: nat| 0 <= i2 < i ==> !#[trigger] line_attack(b, t as int, queen_deltas()[i2], k, by),
        decreases 8 - i,
    {
        let d = queen_delta(i);
        if ray_attacks(board, t, d as i64, by) {
            return true;
        }
        i += 1;
    }
    let mut i: usize = 0;
    while i < 8
        invariant
            board.wf(),
            b == board._board@,
            on_board(t as int),
            i <= 8,
            forall|i2: int, k: nat| 0 <= i2 < 8 ==> !#[trigger] line_attack(b, t as int, queen_deltas()[i2], k, by),
            forall|i2: int| 0 <= i2 < i ==> !#[trigger] knight_attack(b, t as int, knight_deltas()[i2], by),
        decreases 8 - i,
    {
        let d = knight_delta(i);
        let a = t as i64 + d as i64;
        if a >= 0 && is_on_board(a as usize) {
            match board._board[a as usize].piece {
                Some(p) => {
                    if p.piece_type == PieceType::KNIGHT && p.color == by {
                        assert(knight_attack(b, t as int, knight_deltas()[i as int], by));
                        return true;
                    }
                },
                None => {},
            }
        }
        i += 1;
    }
    false
}

} // verus!
