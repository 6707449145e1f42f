use vstd::prelude::*;
use super::movegen::{legal, listed, promo_piece, Target};
use super::piece::PieceType;
use super::utils::on_board;
use super::{internal_of, make_view, Chess, ChessView};

verus! {

/// The place of a promotion kind in the enumeration of moves: none first, then queen,
/// rook, bishop, knight; a kind no pawn becomes comes last.
pub open spec fn promo_index(pr: Option<PieceType>) -> int {
    match pr {
        None => 0,
        Some(PieceType::QUEEN) => 1,
        Some(PieceType::ROOK) => 2,
        Some(PieceType::BISHOP) => 3,
        Some(PieceType::KNIGHT) => 4,
        Some(_) => 5,
    }
}

pub open spec fn promo_of_index(i: int) -> Option<PieceType> {
    if i == 0 {
        None
    } else if i == 1 {
        Some(PieceType::QUEEN)
    } else if i == 2 {
        Some(PieceType::ROOK)
    } else if i == 3 {
        Some(PieceType::BISHOP)
    } else if i == 4 {
        Some(PieceType::KNIGHT)
    } else {
        Some(PieceType::KING)
    }
}

/// The rank of a move from a given square in the enumeration of moves.
pub open spec fn target_key(to: int, pr: Option<PieceType>) -> int {
    to * 6 + promo_index(pr)
}

/// The number of keys a square's moves are enumerated over.
pub open spec fn key_count() -> int {
    768
}

/// The state after the legal move (from, to, promotion kind).
pub open spec fn after_move(v: ChessView, from: int, to: int, pr: Option<PieceType>) -> ChessView {
    make_view(v, internal_of(v, from, to, promo_piece(pr, v.turn)))
}

/// The number of move sequences of length `d` from `v`: 1 at depth 0, else the sum over
/// every legal move of the count after it.
pub open spec fn perft_count(v: ChessView, d: nat) -> nat
    decreases d, 2int, 0int,
{
    if d == 0 {
        1
    } else {
        perft_from(v, d, 0)
    }
}

/// The part of `perft_count(v, d)` due to moves from squares `f` and after.
pub open spec fn perft_from(v: ChessView, d: nat, f: int) -> nat
    decreases d, 1int, 128 - f,
{
    if f >= 128 || f < 0 || d == 0 {
        0
    } else {
        perft_to(v, d, f, 0) + perft_from(v, d, f + 1)
    }
}

/// The part of `perft_count(v, d)` due to moves from `f` whose key is `k` or more.
pub open spec fn perft_to(v: ChessView, d: nat, f: int, k: int) -> nat
    decreases d, 0int, key_count() - k,
{
    if k >= key_count() || k < 0 || d == 0 {
        0
    } else {
        let to = k / 6;
        let pr = promo_of_index(k % 6);
        (if legal(v, f, to, pr) { perft_count(after_move(v, f, to, pr), (d - 1) as nat) } else { 0 })
            + perft_to(v, d, f, k + 1)
    }
}

/// The counts after the moves `l[j..]` from `f`.
pub open spec fn sum_list(v: ChessView, d: nat, f: int, l: Seq<Target>, j: int) -> nat
    decreases l.len() - j,
{
    if j >= l.len() || j < 0 || d == 0 {
        0
    } else {
        perft_count(after_move(v, f, l[j].0 as int, l[j].1), (d - 1) as nat) + sum_list(v, d, f, l, j + 1)
    }
}

/// `l` is in strictly increasing key order.
pub open spec fn sorted_by_key(l: Seq<Target>) -> bool {
    forall|a: int, b: int| 0 <= a < b < l.len() ==> target_key(l[a].0 as int, l[a].1) < target_key(
        l[b].0 as int,
        l[b].1,
    )
}

/// `l` lists exactly the legal moves from `f`.
pub open spec fn lists_legal(v: ChessView, f: int, l: Seq<Target>) -> bool {
    &&& forall|i: int| 0 <= i < l.len() ==> #[trigger] legal(v, f, l[i].0 as int, l[i].1)
    &&& forall|to: int, pr: Option<PieceType>| legal(v, f, to, pr) ==> #[trigger] listed(l, to, pr)
}

pub proof fn lemma_legal_key(v: ChessView, f: int, to: int, pr: Option<PieceType>)
    requires
        super::basic_wf(v),
        legal(v, f, to, pr),
    ensures
        on_board(to),
        0 <= target_key(to, pr) < key_count(),
        target_key(to, pr) / 6 == to,
        promo_of_index(target_key(to, pr) % 6) == pr,
        promo_index(pr) <= 4,
{
    super::movegen::lemma_pseudo_move_ok(v, f, to, pr);
}

/// Summing over a sorted exact list of a square's legal moves gives the square's part of
/// the count.
pub proof fn lemma_sorted_sum(v: ChessView, d: nat, f: int, l: Seq<Target>, k: int, j: int)
    requires
        super::basic_wf(v),
        d >= 1,
        sorted_by_key(l),
        lists_legal(v, f, l),
        0 <= k <= key_count(),
        0 <= j <= l.len(),
        forall|i: int| 0 <= i < j ==> target_key(l[i].0 as int, l[i].1) < k,
        forall|i: int| j <= i < l.len() ==> target_key(l[i].0 as int, l[i].1) >= k,
    ensures
        perft_to(v, d, f, k) == sum_list(v, d, f, l, j),
    decreases key_count() - k,
{
    if k == key_count() {
        if j < l.len() {
            assert(legal(v, f, l[j].0 as int, l[j].1));
            lemma_legal_key(v, f, l[j].0 as int, l[j].1);
        }
    } else {
        let to = k / 6;
        let pr = promo_of_index(k % 6);
        if j < l.len() && target_key(l[j].0 as int, l[j].1) == k {
            assert(legal(v, f, l[j].0 as int, l[j].1));
            lemma_legal_key(v, f, l[j].0 as int, l[j].1);
            assert(l[j].0 as int == to && l[j].1 == pr);
            lemma_sorted_sum(v, d, f, l, k + 1, j + 1);
        } else {
            if legal(v, f, to, pr) {
                lemma_legal_key(v, f, to, pr);
                assert(listed(l, to, pr));
                let i = choose|i: int| 0 <= i < l.len() && l[i].0 as int == to && l[i].1 == pr;
                assert(target_key(to, pr) == k);
                if i < j {
                } else if j < l.len() {
                    assert(i > j);
                }
                assert(false);
            }
            if j < l.len() {
                assert(target_key(l[j].0 as int, l[j].1) > k);
            }
            lemma_sorted_sum(v, d, f, l, k + 1, j);
        }
    }
}

/// A square with no legal move adds nothing.
pub proof fn lemma_empty_sum(v: ChessView, d: nat, f: int, k: int)
    requires
        d >= 1,
        0 <= k <= key_count(),
        forall|to: int, pr: Option<PieceType>| !#[trigger] legal(v, f, to, pr),
    ensures
        perft_to(v, d, f, k) == 0,
    decreases key_count() - k,
{
    if k < key_count() {
        lemma_empty_sum(v, d, f, k + 1);
    }
}

fn promo_rank(pr: Option<PieceType>) -> (r: usize)
    ensures
        r == promo_index(pr),
{
    match pr {
        None => 0,
        Some(PieceType::QUEEN) => 1,
        Some(PieceType::ROOK) => 2,
        Some(PieceType::BISHOP) => 3,
        Some(PieceType::KNIGHT) => 4,
        Some(_) => 5,
    }
}

/// `x` is an entry of `l`.
pub open spec fn in_list(l: Seq<Target>, x: Target) -> bool {
    exists|j: int| 0 <= j < l.len() && l[j] == x
}

/// The moves of `ts` in increasing key order, each once.
pub fn sort_targets(ts: &Vec<Target>) -> (r: Vec<Target>)
    requires
        forall|i: int| 0 <= i < ts@.len() ==> (#[trigger] ts@[i]).0 < 128 && promo_index(ts@[i].1) <= 4,
    ensures
        sorted_by_key(r@),
        forall|i: int| 0 <= i < r@.len() ==> in_list(ts@, #[trigger] r@[i]),
        forall|to: int, pr: Option<PieceType>| #[trigger] listed(ts@, to, pr) ==> listed(r@, to, pr),
{
    let mut r: Vec<Target> = Vec::new();
    let mut i: usize = 0;
    while i < ts.len()
        invariant
            forall|a: int| 0 <= a < ts@.len() ==> (#[trigger] ts@[a]).0 < 128 && promo_index(ts@[a].1) <= 4,
            i <= ts@.len(),
            sorted_by_key(r@),
            forall|a: int| 0 <= a < r@.len() ==> in_list(ts@, #[trigger] r@[a]),
            forall|a: int| 0 <= a < i ==> listed(r@, (#[trigger] ts@[a]).0 as int, ts@[a].1),
            forall|a: int| 0 <= a < r@.len() ==> (#[trigger] r@[a]).0 < 128 && promo_index(r@[a].1) <= 4,
        decreases ts@.len() - i,
    {
        let t = ts[i];
        let key = t.0 * 6 + promo_rank(t.1);
        let mut p: usize = 0;
        while p < r.len() && r[p].0 * 6 + promo_rank(r[p].1) < key
            invariant
                p <= r@.len(),
                forall|a: int| 0 <= a < r@.len() ==> (#[trigger] r@[a]).0 < 128 && promo_index(r@[a].1) <= 4,
                key == target_key(t.0 as int, t.1),
                forall|a: int| 0 <= a < p ==> target_key((#[trigger] r@[a]).0 as int, r@[a].1) < key,
            decreases r@.len() - p,
        {
            p += 1;
        }
        let ghost old_r = r@;
        if p < r.len() && r[p].0 * 6 + promo_rank(r[p].1) == key {
            proof {
                assert(ts@[i as int] == t);
                lemma_key_injective(r@[p as int], t);
                assert(r@[p as int] == t);
                assert(listed(r@, t.0 as int, t.1));
            }
        } else {
            r.insert(p, t);
            proof {
                assert forall|a: int, b: int| 0 <= a < b < r@.len() implies target_key(r@[a].0 as int, r@[a].1) < target_key(
                    r@[b].0 as int,
                    r@[b].1,
                ) by {
                    if b < p {
                    } else if a < p && b == p {
                    } else if a == p {
                        if p < old_r.len() {
                            assert(target_key(old_r[p as int].0 as int, old_r[p as int].1) > key);
                            assert(b - 1 >= p);
                            if b - 1 > p {
                                assert(target_key(old_r[p as int].0 as int, old_r[p as int].1) < target_key(old_r[b - 1].0 as int, old_r[b - 1].1));
                            }
                        }
                    } else if a < p {
                        assert(r@[b] == old_r[b - 1]);
                        if p < old_r.len() {
                            assert(target_key(old_r[p as int].0 as int, old_r[p as int].1) <= target_key(old_r[b - 1].0 as int, old_r[b - 1].1)) by {
                                if b - 1 > p {
                                    assert(target_key(old_r[p as int].0 as int, old_r[p as int].1) < target_key(old_r[b - 1].0 as int, old_r[b - 1].1));
                                }
                            }
                        }
                    } else {
                        assert(r@[a] == old_r[a - 1]);
                        assert(r@[b] == old_r[b - 1]);
                    }
                }
                assert forall|a: int| 0 <= a < r@.len() implies in_list(ts@, #[trigger] r@[a]) by {
                    if a < p {
                        assert(r@[a] == old_r[a]);
                    } else if a == p {
                        assert(ts@[i as int] == r@[a]);
                    } else {
                        assert(r@[a] == old_r[a - 1]);
                    }
                }
                assert forall|to: int, pr: Option<PieceType>| listed(old_r, to, pr) implies listed(r@, to, pr) by {
                    let a = choose|a: int| 0 <= a < old_r.len() && old_r[a].0 as int == to && old_r[a].1 == pr;
                    if a < p {
                        assert(r@[a] == old_r[a]);
                    } else {
                        assert(r@[a + 1] == old_r[a]);
                    }
                }
                assert(r@[p as int] == t);
                assert(listed(r@, t.0 as int, t.1));
                assert forall|a: int| 0 <= a < r@.len() implies (#[trigger] r@[a]).0 < 128 && promo_index(r@[a].1) <= 4 by {
                    if a < p {
                        assert(r@[a] == old_r[a]);
                    } else if a > p {
                        assert(r@[a] == old_r[a - 1]);
                    }
                }
            }
        }
        proof {
            assert forall|a: int| 0 <= a < i + 1 implies listed(r@, (#[trigger] ts@[a]).0 as int, ts@[a].1) by {
                if a < i {
                    assert(listed(old_r, ts@[a].0 as int, ts@[a].1));
                }
            }
        }
        i += 1;
    }
    proof {
        assert forall|to: int, pr: Option<PieceType>| #[trigger] listed(ts@, to, pr) implies listed(r@, to, pr) by {
            let a = choose|a: int| 0 <= a < ts@.len() && ts@[a].0 as int == to && ts@[a].1 == pr;
            assert(listed(r@, ts@[a].0 as int, ts@[a].1));
        }
    }
    r
}

/// Two moves with the same key are the same move, for destinations on the 0x88 range and
/// kinds a pawn becomes.
proof fn lemma_key_injective(a: Target, b: Target)
    requires
        a.0 < 128,
        b.0 < 128,
        promo_index(a.1) <= 4,
        promo_index(b.1) <= 4,
        target_key(a.0 as int, a.1) == target_key(b.0 as int, b.1),
    ensures
        a == b,
{
}

} // verus!
