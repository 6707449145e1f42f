use vstd::prelude::*;
use crate::chess2;
use crate::chess2::castling::CastlingRights;
use crate::chess2::constants::{opposite, Color};
use crate::chess2::fen::{castling_field_ok, chars_of, chars_to_string, clocks_ok, digit, ep_field_ok, fen_of, fen_shape_ok, first_space, fen_text, loadable_fen, rights_backed, square_text};
use crate::chess2::piece::type_letter;
use crate::chess2::movegen::{king_attacked, legal, no_legal_move, promo_piece, Triple};
use crate::chess2::piece::{Piece, PieceType};
use crate::chess2::square::{coord_of, lemma_coord_round_trip, lemma_index_round_trip, Square};
use crate::chess2::attack::{attacked, is_attacked_by};
use crate::chess2::utils::on_board;
use crate::chess2::{enemy_of, internal_of, key_of, make_view, undone, ChessView, Position, PositionView};
use crate::chess2::perft::{after_move, in_list, lemma_empty_sum, lemma_legal_key, lemma_sorted_sum, perft_count, perft_from, perft_to, promo_index, sort_targets, sum_list};
use crate::errors::MoveError;
use vstd::math::min;

verus! {

/// The colour code of White in `set_turn`.
pub const WHITE: u8 = 0;

/// The colour code of Black in `set_turn`.
pub const BLACK: u8 = 128;

/// Packed piece codes for `set`: a kind bit, with `BLACK` added for a black piece.
pub const EMPTY: u8 = 0;

pub const PAWN: u8 = 1;

pub const ROOK: u8 = 2;

pub const KNIGHT: u8 = 4;

pub const BISHOP: u8 = 8;

pub const KING: u8 = 16;

pub const QUEEN: u8 = 32;

pub const BLACK_PAWN: u8 = PAWN | BLACK;

pub const BLACK_ROOK: u8 = ROOK | BLACK;

pub const BLACK_KNIGHT: u8 = KNIGHT | BLACK;

pub const BLACK_BISHOP: u8 = BISHOP | BLACK;

pub const BLACK_KING: u8 = KING | BLACK;

pub const BLACK_QUEEN: u8 = QUEEN | BLACK;

/// The kind a packed code names (its colour bit and any flag above the kind bits aside).
pub open spec fn packed_kind(code: u8) -> Option<PieceType> {
    let bits = code % 64;
    if bits == 1 {
        Some(PieceType::PAWN)
    } else if bits == 2 {
        Some(PieceType::ROOK)
    } else if bits == 4 {
        Some(PieceType::KNIGHT)
    } else if bits == 8 {
        Some(PieceType::BISHOP)
    } else if bits == 16 {
        Some(PieceType::KING)
    } else if bits == 32 {
        Some(PieceType::QUEEN)
    } else {
        None
    }
}

pub open spec fn packed_color(code: u8) -> Color {
    if code >= 128 { Color::BLACK } else { Color::WHITE }
}

/// A game driven by algebraic notation and FEN, with its game-end oracles.
pub struct Chess {
    pub game: chess2::Chess,
}

/// How many entries of `s` equal `k`.
pub open spec fn occurrences(s: Seq<PositionView>, k: PositionView) -> nat
    decreases s.len(),
{
    if s.len() == 0 {
        0
    } else {
        occurrences(s.drop_last(), k) + (if s.last() == k { 1nat } else { 0nat })
    }
}

/// The current position has occurred at least three times since the game was set up.
pub open spec fn threefold(v: ChessView) -> bool {
    occurrences(v.positions, key_of(v)) >= 3
}

pub open spec fn is_kind(v: ChessView, i: int, t: PieceType) -> bool {
    v.board[i].piece matches Some(p) && p.piece_type == t
}

/// The colour (0 or 1) of the square at index `i`.
pub open spec fn square_shade(i: int) -> int {
    (i % 16 + i / 16) % 2
}

/// No side can ever mate: no pawn, rook or queen is left, and either there is no knight
/// and every bishop stands on squares of one colour, or there is no bishop and at most
/// one knight.
pub open spec fn insufficient(v: ChessView) -> bool {
    &&& forall|i: int| on_board(i) ==> !is_kind(v, i, PieceType::PAWN) && !is_kind(v, i, PieceType::ROOK)
        && !is_kind(v, i, PieceType::QUEEN)
    &&& {
        ||| (forall|i: int| on_board(i) ==> !#[trigger] is_kind(v, i, PieceType::KNIGHT)) && (forall|i: int, j: int|
            on_board(i) && on_board(j) && #[trigger] is_kind(v, i, PieceType::BISHOP) && #[trigger] is_kind(
                v,
                j,
                PieceType::BISHOP,
            ) ==> square_shade(i) == square_shade(j))
        ||| (forall|i: int| on_board(i) ==> !#[trigger] is_kind(v, i, PieceType::BISHOP)) && (forall|i: int, j: int|
            on_board(i) && on_board(j) && #[trigger] is_kind(v, i, PieceType::KNIGHT) && #[trigger] is_kind(
                v,
                j,
                PieceType::KNIGHT,
            ) ==> i == j)
    }
}

/// The text appended to a move: `#` when it mates, `+` when it checks, nothing otherwise.
pub open spec fn check_mark(w: ChessView) -> Seq<char> {
    if king_attacked(w, w.turn) {
        if no_legal_move(w) { seq!['#'] } else { seq!['+'] }
    } else {
        Seq::empty()
    }
}

fn same_square(a: Option<Piece>, b: Option<Piece>) -> (r: bool)
    ensures
        r == (a == b),
{
    match (a, b) {
        (None, None) => true,
        (Some(x), Some(y)) => x.piece_type == y.piece_type && x.color == y.color,
        _ => false,
    }
}

fn same_ep(a: Option<chess2::SquareCoordinate>, b: Option<chess2::SquareCoordinate>) -> (r: bool)
    ensures
        r == (a == b),
{
    match (a, b) {
        (None, None) => true,
        (Some(x), Some(y)) => x == y,
        _ => false,
    }
}

/// Whether the ledger entry `p` is the position of the game `g`.
fn same_position(p: &Position, g: &chess2::Chess) -> (r: bool)
    requires
        g.board.wf(),
    ensures
        r == (p@ == key_of(g@)),
{
    if p.board.len() != 128 || p.turn != g.turn || p.castling_rights.white.kingside != g.castling_rights.white.kingside
        || p.castling_rights.white.queenside != g.castling_rights.white.queenside
        || p.castling_rights.black.kingside != g.castling_rights.black.kingside
        || p.castling_rights.black.queenside != g.castling_rights.black.queenside
        || !same_ep(p.en_passant_sq, g.en_passant_sq) {
        return false;
    }
    let mut i: usize = 0;
    while i < 128
        invariant
            g.board.wf(),
            p.board@.len() == 128,
            i <= 128,
            forall|j: int| 0 <= j < i ==> p.board@[j] == g.board._board@[j],
        decreases 128 - i,
    {
        if !same_square(p.board[i].piece, g.board._board[i].piece) {
            assert(p.board@[i as int] != g.board._board@[i as int]);
            return false;
        }
        i += 1;
    }
    assert(p.board@ =~= g.board._board@);
    true
}

/// A move in algebraic notation, once read: the kind that moves, the file or rank that
/// tells its origin apart, whether it is written as a capture, its destination, and what a
/// pawn becomes.
#[derive(Clone, Copy, Debug)]
pub struct SanMove {
    pub piece: PieceType,
    pub file: Option<u8>,
    pub rank: Option<u8>,
    pub capture: bool,
    pub to: usize,
    pub promotion: Option<PieceType>,
}

/// What a move in algebraic notation says.
#[derive(Clone, Copy, Debug)]
pub enum Notation {
    KingSideCastle,
    QueenSideCastle,
    Regular(SanMove),
}

pub open spec fn file_char(f: int) -> char {
    ('a' as u8 + f) as char
}

pub open spec fn head_text(piece: PieceType) -> Seq<char> {
    if piece == PieceType::PAWN { Seq::empty() } else { seq![type_letter(piece)] }
}

pub open spec fn origin_text(file: Option<u8>, rank: Option<u8>) -> Seq<char> {
    (match file { Some(f) => seq![file_char(f as int)], None => Seq::empty() })
        + (match rank { Some(r) => seq![digit(r as int)], None => Seq::empty() })
}

pub open spec fn capture_text(capture: bool) -> Seq<char> {
    if capture { seq!['x'] } else { Seq::empty() }
}

pub open spec fn promotion_text(promotion: Option<PieceType>) -> Seq<char> {
    match promotion {
        Some(t) => seq!['=', type_letter(t)],
        None => Seq::empty(),
    }
}

/// The text of a move in algebraic notation, without a check mark: piece letter (none for
/// a pawn), origin file or rank, `x`, destination, `=` and promotion letter.
pub open spec fn render(m: SanMove) -> Seq<char> {
    head_text(m.piece) + origin_text(m.file, m.rank) + capture_text(m.capture) + square_text(m.to as int)
        + promotion_text(m.promotion)
}

pub open spec fn notation_text(n: Notation) -> Seq<char> {
    match n {
        Notation::KingSideCastle => seq!['O', '-', 'O'],
        Notation::QueenSideCastle => seq!['O', '-', 'O', '-', 'O'],
        Notation::Regular(m) => render(m),
    }
}

/// A reading that the grammar allows: destination on the board, origin file and rank
/// within the board, no promotion to a pawn.
pub open spec fn notation_wf(n: Notation) -> bool {
    match n {
        Notation::Regular(m) => on_board(m.to as int) && (m.file matches Some(f) ==> f < 8) && (m.rank matches Some(
            r,
        ) ==> 1 <= r <= 8) && m.promotion != Some(PieceType::PAWN),
        _ => true,
    }
}

/// `s` is the text of `n`, possibly followed by `+` or `#`.
pub open spec fn reads_as(s: Seq<char>, n: Notation) -> bool {
    notation_wf(n) && (s == notation_text(n) || s == notation_text(n) + seq!['+'] || s == notation_text(n) + seq!['#'])
}

/// The king square the side to move has registered.
pub open spec fn king_square(v: ChessView) -> Option<usize> {
    if v.turn == Color::WHITE { v.kings.white } else { v.kings.black }
}

/// The move (from, to, promotion kind) is one that the notation `n` describes in `v`.
pub open spec fn describes(n: Notation, v: ChessView, from: int, to: int, pr: Option<PieceType>) -> bool {
    match n {
        Notation::KingSideCastle => king_square(v) == Some(from as usize) && to == from + 2 && pr is None,
        Notation::QueenSideCastle => king_square(v) == Some(from as usize) && to == from - 2 && pr is None,
        Notation::Regular(m) => {
            &&& v.board[from].piece matches Some(p) && p.piece_type == m.piece
            &&& to == m.to
            &&& m.file matches Some(f) ==> from % 16 == f
            &&& m.rank matches Some(r) ==> 8 - from / 16 == r
            &&& pr == m.promotion
        },
    }
}

fn letter_kind(c: char) -> (r: Option<PieceType>)
    ensures
        r matches Some(t) ==> t != PieceType::PAWN && type_letter(t) == c,
        forall|t: PieceType| t != PieceType::PAWN && type_letter(t) == c ==> r == Some(t),
{
    if c == 'K' {
        Some(PieceType::KING)
    } else if c == 'Q' {
        Some(PieceType::QUEEN)
    } else if c == 'R' {
        Some(PieceType::ROOK)
    } else if c == 'B' {
        Some(PieceType::BISHOP)
    } else if c == 'N' {
        Some(PieceType::KNIGHT)
    } else {
        None
    }
}

/// The text ending at `len` is the destination `to` and the promotion `pr`.
pub open spec fn tail_is(s: Seq<char>, len: int, to: int, pr: Option<PieceType>) -> bool {
    let t = square_text(to) + promotion_text(pr);
    &&& on_board(to)
    &&& pr != Some(PieceType::PAWN)
    &&& t.len() <= len <= s.len()
    &&& s.subrange(len - t.len(), len) == t
}

/// The text before `pre` is the piece letter, origin and capture mark given.
pub open spec fn head_is(s: Seq<char>, pre: int, piece: PieceType, file: Option<u8>, rank: Option<u8>, capture: bool) -> bool {
    &&& 0 <= pre <= s.len()
    &&& s.subrange(0, pre) == head_text(piece) + origin_text(file, rank) + capture_text(capture)
    &&& file matches Some(f) ==> f < 8
    &&& rank matches Some(r) ==> 1 <= r <= 8
}

/// Where `s` up to `len` is `a + b`, its parts are `a` and `b`.
proof fn lemma_split(s: Seq<char>, len: int, a: Seq<char>, b: Seq<char>)
    requires
        0 <= len <= s.len(),
        s.subrange(0, len) == a + b,
    ensures
        s.subrange(0, a.len() as int) == a,
        s.subrange(len - b.len(), len) == b,
        a.len() + b.len() == len,
{
    let w = s.subrange(0, len);
    assert(w.len() == len);
    assert(a.len() + b.len() == len);
    assert forall|i: int| 0 <= i < a.len() implies s[i] == a[i] by {
        assert(w[i] == (a + b)[i]);
    }
    assert(s.subrange(0, a.len() as int) =~= a);
    assert forall|i: int| 0 <= i < b.len() implies s[a.len() + i] == b[i] by {
        assert(w[a.len() + i] == (a + b)[a.len() + i]);
    }
    assert(s.subrange(len - b.len(), len) =~= b);
}

/// The characters of a destination and promotion text ending at `len`.
proof fn lemma_tail_chars(s: Seq<char>, len: int, to: int, pr: Option<PieceType>)
    requires
        tail_is(s, len, to, pr),
    ensures
        pr is None ==> len >= 2 && s[len - 2] == file_char(to % 16) && s[len - 1] == digit(8 - to / 16),
        pr matches Some(k) ==> len >= 4 && s[len - 2] == '=' && s[len - 1] == type_letter(k) && s[len - 4] == file_char(
            to % 16,
        ) && s[len - 3] == digit(8 - to / 16),
{
    let t = square_text(to) + promotion_text(pr);
    let b = len - t.len();
    assert forall|i: int| 0 <= i < t.len() implies s[b + i] == #[trigger] t[i] by {
        assert(s.subrange(b, len)[i] == s[b + i]);
    }
    if pr is None {
        assert(s[len - 2] == t[0]);
        assert(s[len - 1] == t[1]);
    } else {
        assert(s[len - 4] == t[0]);
        assert(s[len - 3] == t[1]);
        assert(s[len - 2] == t[2]);
        assert(s[len - 1] == t[3]);
    }
}

/// The characters of a piece letter, origin and capture mark before `pre`.
proof fn lemma_head_chars(s: Seq<char>, pre: int, piece: PieceType, file: Option<u8>, rank: Option<u8>, capture: bool)
    requires
        head_is(s, pre, piece, file, rank, capture),
    ensures
        ({
            let hl: int = if piece == PieceType::PAWN { 0 } else { 1 };
            let fl: int = if file is Some { 1 } else { 0 };
            let rl: int = if rank is Some { 1 } else { 0 };
            let xl: int = if capture { 1 } else { 0 };
            &&& pre == hl + fl + rl + xl
            &&& hl == 1 ==> s[0] == type_letter(piece)
            &&& fl == 1 ==> s[hl] == file_char(file.unwrap() as int)
            &&& rl == 1 ==> s[hl + fl] == digit(rank.unwrap() as int)
            &&& xl == 1 ==> s[hl + fl + rl] == 'x'
        }),
{
    let w = head_text(piece) + origin_text(file, rank) + capture_text(capture);
    assert(s.subrange(0, pre).len() == pre);
    assert(w.len() == pre);
    assert(origin_text(file, rank).len() == (if file is Some { 1int } else { 0 }) + (if rank is Some { 1int } else { 0 }));
    assert forall|i: int| 0 <= i < w.len() implies s[i] == #[trigger] w[i] by {
        assert(s.subrange(0, pre)[i] == s[i]);
    }
    let hl: int = if piece == PieceType::PAWN { 0 } else { 1 };
    let fl: int = if file is Some { 1 } else { 0 };
    let rl: int = if rank is Some { 1 } else { 0 };
    if hl == 1 {
        assert(w[0] == type_letter(piece));
    }
    if fl == 1 {
        assert(w[hl] == file_char(file.unwrap() as int));
    }
    if rl == 1 {
        assert(w[hl + fl] == digit(rank.unwrap() as int));
    }
    if capture {
        assert(w[hl + fl + rl] == 'x');
    }
}

/// Reads the end of a move: destination square and optional promotion, ending at `len`.
/// Returns the destination, the promotion kind and where the destination starts.
#[verifier::spinoff_prover]
#[verifier::rlimit(100)]
fn parse_tail(cs: &Vec<char>, len: usize, Ghost(to0): Ghost<int>, Ghost(pr0): Ghost<Option<PieceType>>) -> (r: Option<(usize, Option<PieceType>, usize)>)
    requires
        len <= cs@.len(),
    ensures
        r matches Some((to, promotion, pre)) ==> pre + 2 <= len && on_board(to as int) && promotion != Some(PieceType::PAWN)
            && cs@.subrange(pre as int, len as int) == square_text(to as int) + promotion_text(promotion),
        tail_is(cs@, len as int, to0, pr0) ==> r == Some(
            (to0 as usize, pr0, (len - square_text(to0).len() - promotion_text(pr0).len()) as usize),
        ),
{
    let ghost s = cs@;
    let ghost canon = tail_is(s, len as int, to0, pr0);
    proof {
        if canon {
            lemma_tail_chars(s, len as int, to0, pr0);
        }
    }
    let mut promotion: Option<PieceType> = None;
    let mut end = len;
    if end >= 2 && cs[end - 2] == '=' {
        match letter_kind(cs[end - 1]) {
            Some(t) => {
                promotion = Some(t);
            },
            None => {
                proof {
                    if canon {
                        if pr0 is None {
                            assert(false);
                        }
                    }
                }
                return None;
            },
        }
        end -= 2;
    }
    proof {
        if canon {
            if pr0 is None {
                assert(promotion is None);
            } else {
                assert(promotion == pr0);
            }
            assert(end >= 2);
        }
    }
    if end < 2 {
        return None;
    }
    let fc = cs[end - 2];
    let rc = cs[end - 1];
    if !('a' <= fc && fc <= 'h' && '1' <= rc && rc <= '8') {
        return None;
    }
    let tf = (fc as u32 - 'a' as u32) as usize;
    let tr = (rc as u32 - '0' as u32) as usize;
    let to = 16 * (8 - tr) + tf;
    let pre = end - 2;
    assert(cs@.subrange(pre as int, end as int) =~= square_text(to as int));
    assert(cs@.subrange(end as int, len as int) =~= promotion_text(promotion));
    assert(cs@.subrange(pre as int, len as int) =~= cs@.subrange(pre as int, end as int) + cs@.subrange(
        end as int,
        len as int,
    ));
    proof {
        if canon {
            assert(to == to0);
        }
    }
    Some((to, promotion, pre))
}

/// Piece letter, origin and capture mark found at their places make up the start of `s`.
proof fn lemma_head_sound(s: Seq<char>, pre: int, hp: int, ho: int, piece: PieceType, file: Option<u8>, rank: Option<u8>, capture: bool)
    requires
        0 <= pre <= s.len(),
        hp == (if piece == PieceType::PAWN { 0int } else { 1 }),
        piece != PieceType::PAWN ==> s[0] == type_letter(piece),
        ho == hp + (if file is Some { 1int } else { 0 }) + (if rank is Some { 1int } else { 0 }),
        file matches Some(f) ==> f < 8 && s[hp] == file_char(f as int),
        rank matches Some(r) ==> 1 <= r <= 8 && s[ho - 1] == digit(r as int),
        pre == ho + (if capture { 1int } else { 0 }),
        capture ==> s[ho] == 'x',
    ensures
        head_is(s, pre, piece, file, rank, capture),
{
    assert(s.subrange(0, hp) =~= head_text(piece));
    assert(s.subrange(hp, ho) =~= origin_text(file, rank));
    assert(s.subrange(ho, pre) =~= capture_text(capture));
    assert(s.subrange(0, pre) =~= s.subrange(0, hp) + s.subrange(hp, ho) + s.subrange(ho, pre));
}

/// Reads the start of a move, up to `pre`: piece letter, origin file and rank, `x`.
#[verifier::spinoff_prover]
#[verifier::rlimit(100)]
fn parse_head(
    cs: &Vec<char>,
    pre: usize,
    Ghost(piece0): Ghost<PieceType>,
    Ghost(file0): Ghost<Option<u8>>,
    Ghost(rank0): Ghost<Option<u8>>,
    Ghost(cap0): Ghost<bool>,
) -> (r: Option<(PieceType, Option<u8>, Option<u8>, bool)>)
    requires
        pre <= cs@.len(),
    ensures
        r matches Some((piece, file, rank, capture)) ==> head_is(cs@, pre as int, piece, file, rank, capture),
        head_is(cs@, pre as int, piece0, file0, rank0, cap0) ==> r == Some((piece0, file0, rank0, cap0)),
{
    let ghost s = cs@;
    let ghost canon = head_is(s, pre as int, piece0, file0, rank0, cap0);
    let ghost hl: int = if piece0 == PieceType::PAWN { 0 } else { 1 };
    let ghost fl: int = if file0 is Some { 1 } else { 0 };
    let ghost rl: int = if rank0 is Some { 1 } else { 0 };
    proof {
        if canon {
            lemma_head_chars(s, pre as int, piece0, file0, rank0, cap0);
        }
    }
    let mut p: usize = 0;
    let mut piece = PieceType::PAWN;
    if p < pre {
        match letter_kind(cs[p]) {
            Some(t) => {
                piece = t;
                p += 1;
            },
            None => {},
        }
    }
    proof {
        if canon {
            assert(piece == piece0);
            assert(p == hl);
        }
    }
    let ghost after_piece = p;
    let mut file: Option<u8> = None;
    let mut rank: Option<u8> = None;
    if p < pre && 'a' <= cs[p] && cs[p] <= 'h' {
        file = Some((cs[p] as u32 - 'a' as u32) as u8);
        p += 1;
    }
    proof {
        if canon {
            assert(file == file0);
            assert(p == hl + fl);
        }
    }
    let ghost after_file = p;
    if p < pre && '1' <= cs[p] && cs[p] <= '8' {
        rank = Some((cs[p] as u32 - '0' as u32) as u8);
        p += 1;
    }
    proof {
        if canon {
            assert(rank == rank0);
            assert(p == hl + fl + rl);
        }
    }
    let ghost after_origin = p;
    let mut capture = false;
    if p < pre && cs[p] == 'x' {
        capture = true;
        p += 1;
    }
    proof {
        if canon {
            assert(capture == cap0);
        }
    }
    if p != pre {
        return None;
    }
    proof {
        lemma_head_sound(s, pre as int, after_piece as int, after_origin as int, piece, file, rank, capture);
    }
    Some((piece, file, rank, capture))
}

/// The one reading of a move text, if it has any.
pub open spec fn reading(s: Seq<char>) -> Option<Notation> {
    if exists|n: Notation| reads_as(s, n) {
        Some(choose|n: Notation| reads_as(s, n))
    } else {
        None
    }
}

/// Reads a move in algebraic notation: `O-O`, `O-O-O`, or an optional piece letter, an
/// optional origin file and rank, an optional `x`, the destination square and an optional
/// `=` with a piece letter; a final `+` or `#` is allowed. Returns the reading of the text.
pub fn parse_notation(cs: &Vec<char>) -> (r: Option<Notation>)
    ensures
        r == reading(cs@),
        r matches Some(n) ==> reads_as(cs@, n),
{
    let ghost s = cs@;
    let ghost n0 = choose|n: Notation| reads_as(s, n);
    let len = strip_mark(cs);
    proof {
        if reading(s) is Some {
            lemma_core_length(s, n0, len);
        }
    }
    let n = match core_notation(cs, len, Ghost(n0)) {
        Some(n) => n,
        None => {
            return None;
        },
    };
    proof {
        let core = s.subrange(0, len as int);
        if len < s.len() {
            assert(s =~= core + seq![s[len as int]]);
        } else {
            assert(s =~= core);
        }
        assert(reads_as(s, n));
    }
    Some(n)
}

/// The length of `cs` without a final `+` or `#`.
fn strip_mark(cs: &Vec<char>) -> (len: usize)
    ensures
        len <= cs@.len(),
        len == cs@.len() || (len + 1 == cs@.len() && (cs@[len as int] == '+' || cs@[len as int] == '#')),
        len == cs@.len() && len > 0 ==> cs@[len - 1] != '+' && cs@[len - 1] != '#',
{
    let len = cs.len();
    if len > 0 && (cs[len - 1] == '+' || cs[len - 1] == '#') {
        len - 1
    } else {
        len
    }
}

/// Reads the first `len` characters as a move without check mark.
#[verifier::spinoff_prover]
#[verifier::rlimit(100)]
fn core_notation(cs: &Vec<char>, len: usize, Ghost(n0): Ghost<Notation>) -> (r: Option<Notation>)
    requires
        len <= cs@.len(),
    ensures
        r matches Some(n) ==> notation_wf(n) && cs@.subrange(0, len as int) == notation_text(n),
        notation_wf(n0) && cs@.subrange(0, len as int) == notation_text(n0) ==> r == Some(n0),
{
    let ghost s = cs@;
    let ghost canon = notation_wf(n0) && s.subrange(0, len as int) == notation_text(n0);
    proof {
        if canon {
            lemma_render_shape(n0);
        }
    }
    if len == 3 && cs[0] == 'O' && cs[1] == '-' && cs[2] == 'O' {
        assert(cs@.subrange(0, len as int) =~= seq!['O', '-', 'O']);
        proof {
            if canon {
                let t = notation_text(n0);
                assert(t[2] == s[2]);
                assert(t[0] == s[0]);
            }
        }
        return Some(Notation::KingSideCastle);
    }
    if len == 5 && cs[0] == 'O' && cs[1] == '-' && cs[2] == 'O' && cs[3] == '-' && cs[4] == 'O' {
        assert(cs@.subrange(0, len as int) =~= seq!['O', '-', 'O', '-', 'O']);
        proof {
            if canon {
                let t = notation_text(n0);
                assert(t[4] == s[4]);
                assert(t[0] == s[0]);
            }
        }
        return Some(Notation::QueenSideCastle);
    }
    let ghost m0 = match n0 {
        Notation::Regular(m) => m,
        _ => SanMove { piece: PieceType::PAWN, file: None, rank: None, capture: false, to: 0, promotion: None },
    };
    proof {
        if canon {
            if !(n0 is Regular) {
                let t = notation_text(n0);
                assert(t.len() == 3 || t.len() == 5);
                if t.len() == 3 {
                    assert(t[0] == s[0] && t[1] == s[1] && t[2] == s[2]);
                } else {
                    assert(t[0] == s[0] && t[1] == s[1] && t[2] == s[2] && t[3] == s[3] && t[4] == s[4]);
                }
                assert(false);
            }
            let t = render(m0);
            let tl = square_text(m0.to as int) + promotion_text(m0.promotion);
            let hd = head_text(m0.piece) + origin_text(m0.file, m0.rank) + capture_text(m0.capture);
            assert(t =~= hd + tl);
            lemma_split(s, len as int, hd, tl);
        }
    }
    let (to, promotion, pre) = match parse_tail(cs, len, Ghost(m0.to as int), Ghost(m0.promotion)) {
        Some(t) => t,
        None => {
            return None;
        },
    };
    let (piece, file, rank, capture) = match parse_head(cs, pre, Ghost(m0.piece), Ghost(m0.file), Ghost(m0.rank), Ghost(m0.capture)) {
        Some(h) => h,
        None => {
            return None;
        },
    };
    let m = SanMove { piece, file, rank, capture, to, promotion };
    assert(cs@.subrange(0, len as int) =~= cs@.subrange(0, pre as int) + cs@.subrange(pre as int, len as int));
    Some(Notation::Regular(m))
}

/// A castling text is `O-O` or `O-O-O`; a move text ends in a rank digit or a promotion
/// letter, and a promotion is never to a pawn.
proof fn lemma_render_shape(n: Notation)
    requires
        notation_wf(n),
    ensures
        n is KingSideCastle ==> notation_text(n).len() == 3,
        n is QueenSideCastle ==> notation_text(n).len() == 5,
        n is Regular ==> notation_text(n).len() >= 2 && notation_text(n)[notation_text(n).len() - 1] != 'O'
            && (n->Regular_0.promotion is None ==> notation_text(n)[notation_text(n).len() - 2] != '='),
{
    if let Notation::Regular(m) = n {
        let hd = head_text(m.piece) + origin_text(m.file, m.rank) + capture_text(m.capture);
        assert(render(m) =~= hd + (square_text(m.to as int) + promotion_text(m.promotion)));
    }
}

/// The text of a move never ends in a check mark, so stripping one leaves exactly it.
#[verifier::spinoff_prover]
#[verifier::rlimit(60)]
proof fn lemma_core_length(s: Seq<char>, n: Notation, len: usize)
    requires
        reads_as(s, n),
        len <= s.len(),
        len == s.len() || (len + 1 == s.len() && (s[len as int] == '+' || s[len as int] == '#')),
        len == s.len() && len > 0 ==> s[len - 1] != '+' && s[len - 1] != '#',
    ensures
        s.subrange(0, len as int) == notation_text(n),
{
    let t = notation_text(n);
    assert(t.len() > 0);
    assert(t[t.len() - 1] != '+' && t[t.len() - 1] != '#') by {
        match n {
            Notation::Regular(m) => {
                if m.promotion is None {
                    assert(t =~= (head_text(m.piece) + origin_text(m.file, m.rank) + capture_text(m.capture)) + square_text(m.to as int));
                } else {
                    assert(t =~= (head_text(m.piece) + origin_text(m.file, m.rank) + capture_text(m.capture) + square_text(m.to as int)) + promotion_text(m.promotion));
                }
            },
            _ => {},
        }
    }
    if s == t {
        if len < s.len() {
            assert(s[len as int] == t[t.len() - 1]);
        }
        assert(s.subrange(0, len as int) =~= t);
    } else {
        assert(s.len() == t.len() + 1);
        assert(s[t.len() as int] == '+' || s[t.len() as int] == '#');
        if len == s.len() {
            assert(s[len - 1] == '+' || s[len - 1] == '#');
        }
        assert(s.subrange(0, len as int) =~= t);
    }
}

/// Another legal move of the same kind of piece goes to `to` (as `pr`) from `f2`.
pub open spec fn rival(v: ChessView, from: int, to: int, pr: Option<PieceType>, f2: int) -> bool {
    f2 != from && legal(v, f2, to, pr) && v.board[f2].piece.unwrap().piece_type == v.board[from].piece.unwrap().piece_type
}

/// The algebraic notation of a legal move: castling as `O-O` / `O-O-O`; otherwise the
/// piece letter, the origin file for a pawn capture, for a piece the least of file, rank,
/// or both that tells it apart from the other pieces of its kind able to reach the same
/// square, `x` for a capture, the destination and the promotion.
pub open spec fn san_move_of(v: ChessView, from: int, to: int, pr: Option<PieceType>) -> Notation {
    let p = v.board[from].piece.unwrap();
    let capture = enemy_of(v.board[to].piece, p.color) || (p.piece_type == PieceType::PAWN && v.en_passant_sq
        == Some(coord_of(to)));
    let needs = p.piece_type != PieceType::PAWN && exists|f2: int| #[trigger] rival(v, from, to, pr, f2);
    let file_alone = forall|f2: int| #[trigger] rival(v, from, to, pr, f2) ==> f2 % 16 != from % 16;
    let rank_alone = forall|f2: int| #[trigger] rival(v, from, to, pr, f2) ==> f2 / 16 != from / 16;
    if p.piece_type == PieceType::KING && to == from + 2 {
        Notation::KingSideCastle
    } else if p.piece_type == PieceType::KING && to == from - 2 {
        Notation::QueenSideCastle
    } else {
        Notation::Regular(SanMove {
            piece: p.piece_type,
            file: if (p.piece_type == PieceType::PAWN && capture) || (needs && (file_alone || !rank_alone)) {
                Some((from % 16) as u8)
            } else {
                None
            },
            rank: if needs && !file_alone { Some((8 - from / 16) as u8) } else { None },
            capture,
            to: to as usize,
            promotion: pr,
        })
    }
}

/// The notation of a legal move with its check mark.
pub open spec fn san_of(v: ChessView, from: int, to: int, pr: Option<PieceType>) -> Seq<char> {
    notation_text(san_move_of(v, from, to, pr)) + check_mark(
        make_view(v, internal_of(v, from, to, promo_piece(pr, v.turn))),
    )
}

/// The text of a notation.
fn notation_chars(n: &Notation) -> (r: Vec<char>)
    requires
        notation_wf(*n),
    ensures
        r@ == notation_text(*n),
{
    let mut out: Vec<char> = Vec::new();
    match n {
        Notation::KingSideCastle => {
            out.push('O');
            out.push('-');
            out.push('O');
            assert(out@ =~= notation_text(*n));
        },
        Notation::QueenSideCastle => {
            out.push('O');
            out.push('-');
            out.push('O');
            out.push('-');
            out.push('O');
            assert(out@ =~= notation_text(*n));
        },
        Notation::Regular(m) => {
            if m.piece != PieceType::PAWN {
                out.push(m.piece.letter());
            }
            let ghost a = out@;
            match m.file {
                Some(f) => {
                    out.push(('a' as u8 + f) as char);
                },
                None => {},
            }
            match m.rank {
                Some(r) => {
                    out.push(('0' as u8 + r) as char);
                },
                None => {},
            }
            let ghost b = out@;
            assert(b =~= a + origin_text(m.file, m.rank));
            if m.capture {
                out.push('x');
            }
            crate::chess2::fen::push_square(&mut out, m.to);
            let ghost c = out@;
            match m.promotion {
                Some(t) => {
                    out.push('=');
                    out.push(t.letter());
                },
                None => {},
            }
            assert(out@ =~= c + promotion_text(m.promotion));
            assert(out@ =~= render(*m));
        },
    }
    out
}

/// `t` is the notation of some legal move from `from`.
pub open spec fn is_san_of_legal(v: ChessView, from: int, t: Seq<char>) -> bool {
    exists|to: int, pr: Option<PieceType>| #[trigger] legal(v, from, to, pr) && t == san_of(v, from, to, pr)
}

/// Some legal move goes from `from` to `to`.
pub open spec fn legal_to(v: ChessView, from: int, to: int) -> bool {
    exists|pr: Option<PieceType>| #[trigger] legal(v, from, to, pr)
}

/// `s` names a square in algebraic notation, such as "e4".
pub open spec fn names_square(s: Seq<char>) -> bool {
    s.len() == 2 && 'a' <= s[0] <= 'h' && '1' <= s[1] <= '8'
}

/// The index of the square that `s` names.
pub open spec fn square_index(s: Seq<char>) -> int {
    16 * (8 - (s[1] as int - '0' as int)) + (s[0] as int - 'a' as int)
}

/// The legal move (from, to, promotion kind) is one the notation `n` describes.
pub open spec fn fits(n: Notation, v: ChessView, from: int, to: int, pr: Option<PieceType>) -> bool {
    legal(v, from, to, pr) && describes(n, v, from, to, pr)
}

/// No legal move fits `n`.
pub open spec fn none_fits(n: Notation, v: ChessView) -> bool {
    forall|f: int, t: int, p: Option<PieceType>| !#[trigger] fits(n, v, f, t, p)
}

/// Two different legal moves fit `n`.
pub open spec fn several_fit(n: Notation, v: ChessView) -> bool {
    exists|f1: int, t1: int, p1: Option<PieceType>, f2: int, t2: int, p2: Option<PieceType>|
        #[trigger] fits(n, v, f1, t1, p1) && #[trigger] fits(n, v, f2, t2, p2) && (f1, t1, p1) != (f2, t2, p2)
}

/// The side to move holds the castling right a castling notation asks for.
pub open spec fn castle_right(n: Notation, v: ChessView) -> bool {
    let rights = if v.turn == Color::WHITE { v.castling_rights.white } else { v.castling_rights.black };
    match n {
        Notation::KingSideCastle => rights.kingside,
        Notation::QueenSideCastle => rights.queenside,
        Notation::Regular(_) => true,
    }
}

/// A capture mark stands only before a square holding an enemy piece, or the en-passant
/// target for a pawn.
pub open spec fn capture_mark_ok(n: Notation, v: ChessView) -> bool {
    match n {
        Notation::Regular(m) => m.capture ==> (enemy_of(v.board[m.to as int].piece, v.turn) || (m.piece == PieceType::PAWN
            && v.en_passant_sq == Some(coord_of(m.to as int)))),
        _ => true,
    }
}

/// A promotion is named exactly when a pawn reaches the last rank, and never to a king.
pub open spec fn promotion_mark_ok(n: Notation, v: ChessView) -> bool {
    match n {
        Notation::Regular(m) => match m.promotion {
            Some(t) => m.piece == PieceType::PAWN && crate::chess2::last_rank(m.to as int) && t != PieceType::KING,
            None => !(m.piece == PieceType::PAWN && crate::chess2::last_rank(m.to as int)),
        },
        _ => true,
    }
}

/// The error `move_piece` gives for the text `s` in `v`, or `None` when the move is played.
pub open spec fn expected_error(s: Seq<char>, v: ChessView) -> Option<MoveError> {
    match reading(s) {
        None => Some(MoveError::InvalidNotation),
        Some(n) => {
            let castle_error = match n {
                Notation::KingSideCastle => Some(MoveError::IllegalKingSideCastle),
                Notation::QueenSideCastle => Some(MoveError::IllegalQueenSideCastle),
                Notation::Regular(_) => None,
            };
            if !castle_right(n, v) {
                castle_error
            } else if !capture_mark_ok(n, v) {
                Some(MoveError::IllegalCapture)
            } else if !promotion_mark_ok(n, v) {
                Some(MoveError::InvalidPromotion)
            } else if none_fits(n, v) {
                if castle_error is Some { castle_error } else { Some(MoveError::InvalidPieceToMove) }
            } else if several_fit(n, v) {
                if castle_error is Some { castle_error } else { Some(MoveError::AmbiguousMoveNotation) }
            } else {
                None
            }
        },
    }
}

impl Chess {
    pub open spec fn wf(&self) -> bool {
        self.game.wf()
    }

    /// An empty board, White to move, all castling rights, no kings yet.
    pub fn new() -> (r: Self)
        ensures
            r.wf(),
            r.game@.turn == Color::WHITE,
            forall|i: int| 0 <= i < 128 ==> #[trigger] r.game@.board[i].piece is None,
            r.game@.kings.white is None && r.game@.kings.black is None,
            r.game@.castling_rights == CastlingRights::new_spec(),
            r.game@.en_passant_sq is None,
            r.game@.half_moves == 0 && r.game@.full_moves == 0,
            r.game@.history.len() == 0,
            r.game@.positions.len() == 0,
    {
        Chess { game: chess2::Chess::new() }
    }

    /// Starts over from an empty board.
    pub fn clear(&mut self)
        ensures
            final(self).wf(),
            final(self).game@.turn == Color::WHITE,
            forall|i: int| 0 <= i < 128 ==> #[trigger] final(self).game@.board[i].piece is None,
            final(self).game@.kings.white is None && final(self).game@.kings.black is None,
            final(self).game@.castling_rights == CastlingRights::new_spec(),
            final(self).game@.en_passant_sq is None,
            final(self).game@.half_moves == 0 && final(self).game@.full_moves == 0,
            final(self).game@.history.len() == 0,
            final(self).game@.positions.len() == 0,
    {
        *self = Self::new();
    }

    /// Sets the game up from a FEN string; an invalid string changes nothing.
    pub fn load_fen(&mut self, fen: String) -> (r: Result<(), MoveError>)
        requires
            old(self).wf(),
        ensures
            final(self).wf(),
            r is Err ==> r == Err::<(), MoveError>(MoveError::InvalidFen) && final(self).game@ == old(self).game@,
            r is Ok ==> final(self).game@.history.len() == 0 && final(self).game@.positions == seq![key_of(final(self).game@)],
            r is Ok && fen_text(fen@) ==> fen_of(final(self).game@) == fen@,
            loadable_fen(fen@) ==> r is Ok,
            r is Ok ==> fen_shape_ok(fen@) && rights_backed(final(self).game@)
                && castling_field_ok(fen@, first_space(fen@, 0) + 3, final(self).game@.castling_rights)
                && ep_field_ok(fen@, first_space(fen@, first_space(fen@, 0) + 3) + 1, final(self).game@.en_passant_sq)
                && clocks_ok(fen@, final(self).game@.half_moves, final(self).game@.full_moves),
    {
        match self.game.load_fen(fen.as_str()) {
            Ok(()) => Ok(()),
            Err(_) => Err(MoveError::InvalidFen),
        }
    }

    /// The position in Forsyth-Edwards Notation.
    pub fn get_fen(&self) -> (r: String)
        requires
            self.wf(),
        ensures
            r@ == fen_of(self.game@),
    {
        self.game.get_fen()
    }

    /// Takes back the last move; does nothing when no move was made.
    pub fn undo(&mut self)
        requires
            old(self).wf(),
        ensures
            final(self).wf(),
            final(self).game@ == undone(old(self).game@),
    {
        let _ = self.game.undo_move();
    }

    /// The side to move: `w` or `b`.
    pub fn turn(&self) -> (r: char)
        ensures
            r == (if self.game.turn == Color::WHITE { 'w' } else { 'b' }),
    {
        if self.game.turn == Color::WHITE { 'w' } else { 'b' }
    }

    /// Gives the move to White for `WHITE` (0), to Black for any other code.
    pub fn set_turn(&mut self, turn: u8)
        requires
            old(self).wf(),
        ensures
            final(self).wf(),
            final(self).game@ == (ChessView {
                turn: if turn == WHITE { Color::WHITE } else { Color::BLACK },
                ..old(self).game@
            }),
    {
        self.game.turn = if turn == WHITE { Color::WHITE } else { Color::BLACK };
        proof {
            let v = old(self).game@;
            if v.history.len() > 0 {
                assert(undone(self.game@) == undone(v));
            }
        }
    }

    /// The castling rights (king side, queen side) of the side to move.
    pub fn get_castling_rights(&self) -> (r: (bool, bool))
        ensures
            self.game.turn == Color::WHITE ==> r == (self.game.castling_rights.white.kingside, self.game.castling_rights.white.queenside),
            self.game.turn == Color::BLACK ==> r == (self.game.castling_rights.black.kingside, self.game.castling_rights.black.queenside),
    {
        if self.game.turn == Color::WHITE {
            (self.game.castling_rights.white.kingside, self.game.castling_rights.white.queenside)
        } else {
            (self.game.castling_rights.black.kingside, self.game.castling_rights.black.queenside)
        }
    }

    /// All four castling rights: white king side, white queen side, black king side,
    /// black queen side.
    pub fn get_castling_rights_tests(&self) -> (r: (bool, bool, bool, bool))
        ensures
            r == (self.game.castling_rights.white.kingside, self.game.castling_rights.white.queenside,
                self.game.castling_rights.black.kingside, self.game.castling_rights.black.queenside),
    {
        (
            self.game.castling_rights.white.kingside,
            self.game.castling_rights.white.queenside,
            self.game.castling_rights.black.kingside,
            self.game.castling_rights.black.queenside,
        )
    }

    /// Whether the side to move is in check.
    pub fn in_check(&self) -> (r: bool)
        requires
            self.wf(),
        ensures
            r == king_attacked(self.game@, self.game@.turn),
    {
        self.game.king_in_danger(self.game.turn)
    }


    /// Looks through `ms` for the moves that `n` describes: the first one, and a second,
    /// different one if there is any.
    #[verifier::spinoff_prover]
    #[verifier::rlimit(60)]
    fn find_described(&self, n: &Notation, ms: &Vec<Triple>) -> (r: (Option<usize>, Option<usize>))
        requires
            self.wf(),
            forall|i: int| 0 <= i < ms@.len() ==> (#[trigger] ms@[i]).0 < 128,
        ensures
            r.0 is None ==> forall|i: int| 0 <= i < ms@.len() ==> !describes(*n, self.game@, #[trigger] ms@[i].0 as int, ms@[i].1 as int, ms@[i].2),
            r.0 matches Some(k) ==> k < ms@.len() && describes(*n, self.game@, ms@[k as int].0 as int, ms@[k as int].1 as int, ms@[k as int].2),
            r.0 is None ==> r.1 is None,
            r.1 matches Some(k2) ==> k2 < ms@.len() && describes(*n, self.game@, ms@[k2 as int].0 as int, ms@[k2 as int].1 as int, ms@[k2 as int].2)
                && ms@[k2 as int] != ms@[r.0.unwrap() as int],
            r.0 is Some && r.1 is None ==> forall|i: int| 0 <= i < ms@.len() && describes(*n, self.game@, #[trigger] ms@[i].0 as int, ms@[i].1 as int, ms@[i].2)
                ==> ms@[i] == ms@[r.0.unwrap() as int],
    {
        let ghost v = self.game@;
        let mut found: Option<usize> = None;
        let mut j: usize = 0;
        while j < ms.len()
            invariant
                self.wf(),
                v == self.game@,
                forall|i: int| 0 <= i < ms@.len() ==> (#[trigger] ms@[i]).0 < 128,
                j <= ms@.len(),
                found is None ==> forall|i: int| 0 <= i < j ==> !describes(*n, v, #[trigger] ms@[i].0 as int, ms@[i].1 as int, ms@[i].2),
                found matches Some(k) ==> k < j && describes(*n, v, ms@[k as int].0 as int, ms@[k as int].1 as int, ms@[k as int].2)
                    && forall|i: int| 0 <= i < j && describes(*n, v, #[trigger] ms@[i].0 as int, ms@[i].1 as int, ms@[i].2) ==> ms@[i] == ms@[k as int],
            decreases ms@.len() - j,
        {
            let (f, t, p) = ms[j];
            if self.describes_exec(n, f, t, p) {
                match found {
                    None => {
                        found = Some(j);
                    },
                    Some(k) => {
                        let (f0, t0, p0) = ms[k];
                        let same_promo = match (p, p0) {
                            (None, None) => true,
                            (Some(a), Some(b)) => a == b,
                            _ => false,
                        };
                        if !(f == f0 && t == t0 && same_promo) {
                            return (found, Some(j));
                        }
                    },
                }
            }
            j += 1;
        }
        (found, None)
    }

    fn describes_exec(&self, n: &Notation, from: usize, to: usize, pr: Option<PieceType>) -> (r: bool)
        requires
            self.wf(),
            from < 128,
        ensures
            r == describes(*n, self.game@, from as int, to as int, pr),
    {
        match n {
            Notation::KingSideCastle => {
                let k = if self.game.turn == Color::WHITE { self.game.kings.white } else { self.game.kings.black };
                k == Some(from) && to == from + 2 && pr.is_none()
            },
            Notation::QueenSideCastle => {
                let k = if self.game.turn == Color::WHITE { self.game.kings.white } else { self.game.kings.black };
                k == Some(from) && from >= 2 && to == from - 2 && pr.is_none()
            },
            Notation::Regular(m) => {
                let kind_ok = match self.game.board._board[from].piece {
                    Some(p) => p.piece_type == m.piece,
                    None => false,
                };
                let file_ok = match m.file {
                    Some(f) => from % 16 == f as usize,
                    None => true,
                };
                let rank_ok = match m.rank {
                    Some(r) => 8 - (from / 16) as i64 == r as i64,
                    None => true,
                };
                let pr_ok = match (pr, m.promotion) {
                    (None, None) => true,
                    (Some(a), Some(b)) => a == b,
                    _ => false,
                };
                kind_ok && to == m.to && file_ok && rank_ok && pr_ok
            },
        }
    }

    /// Plays a move written in algebraic notation (`e4`, `Nbd7`, `exd6`, `e8=Q`, `O-O`, with
    /// an optional `+` or `#`): the unique legal move it describes. Returns the notation
    /// with `#` appended when the move mates and `+` when it checks. On an error nothing
    /// changes: `InvalidNotation` for text that is no move, `IllegalKingSideCastle` /
    /// `IllegalQueenSideCastle` for a castling without the right or not legal,
    /// `IllegalCapture` for an `x` onto a square with nothing to take, `InvalidPromotion`
    /// for a promotion that is missing, misplaced or to a king, `InvalidPieceToMove` when
    /// no legal move fits and `AmbiguousMoveNotation` when several do.
    #[verifier::spinoff_prover]
    #[verifier::rlimit(100)]
    pub fn move_piece(&mut self, move_notation: &str) -> (r: Result<String, MoveError>)
        requires
            old(self).wf(),
        ensures
            final(self).wf(),
            match expected_error(move_notation@, old(self).game@) {
                Some(e) => r == Err::<String, MoveError>(e) && final(self).game@ == old(self).game@,
                None => r is Ok,
            },
            r matches Ok(t) ==> {
                let n = reading(move_notation@).unwrap();
                &&& reads_as(move_notation@, n)
                &&& exists|from: int, to: int, pr: Option<PieceType>| #[trigger] fits(n, old(self).game@, from, to, pr)
                    && final(self).game@ == make_view(old(self).game@, internal_of(old(self).game@, from, to, promo_piece(pr, old(self).game@.turn)))
                    && (forall|f2: int, t2: int, p2: Option<PieceType>| #[trigger] fits(n, old(self).game@, f2, t2, p2)
                        ==> f2 == from && t2 == to && p2 == pr)
                &&& t@ == notation_text(n) + check_mark(final(self).game@)
            },
    {
        let ghost v = self.game@;
        let cs = chars_of(move_notation);
        let n = match parse_notation(&cs) {
            Some(n) => n,
            None => {
                return Err(MoveError::InvalidNotation);
            },
        };
        let castle_error = match n {
            Notation::KingSideCastle => {
                let right = if self.game.turn == Color::WHITE { self.game.castling_rights.white.kingside } else { self.game.castling_rights.black.kingside };
                if !right {
                    return Err(MoveError::IllegalKingSideCastle);
                }
                Some(MoveError::IllegalKingSideCastle)
            },
            Notation::QueenSideCastle => {
                let right = if self.game.turn == Color::WHITE { self.game.castling_rights.white.queenside } else { self.game.castling_rights.black.queenside };
                if !right {
                    return Err(MoveError::IllegalQueenSideCastle);
                }
                Some(MoveError::IllegalQueenSideCastle)
            },
            Notation::Regular(m) => {
                if m.capture {
                    let target_ok = match self.game.board._board[m.to].piece {
                        Some(q) => q.color != self.game.turn,
                        None => false,
                    };
                    let ep_ok = match self.game.en_passant_sq {
                        Some(sq) => m.piece == PieceType::PAWN && sq.to_index() == m.to,
                        None => false,
                    };
                    proof {
                        lemma_coord_round_trip(m.to as int);
                        if let Some(sq) = self.game.en_passant_sq {
                            lemma_index_round_trip(sq);
                        }
                    }
                    if !target_ok && !ep_ok {
                        return Err(MoveError::IllegalCapture);
                    }
                }
                let last = m.to < 8 || m.to >= 112;
                let promotion_ok = match m.promotion {
                    Some(t) => m.piece == PieceType::PAWN && last && t != PieceType::KING,
                    None => !(m.piece == PieceType::PAWN && last),
                };
                if !promotion_ok {
                    return Err(MoveError::InvalidPromotion);
                }
                None
            },
        };
        let ms = self.game.legal_moves();
        proof {
            assert forall|i: int| 0 <= i < ms@.len() implies (#[trigger] ms@[i]).0 < 128 by {
                assert(legal(v, ms@[i].0 as int, ms@[i].1 as int, ms@[i].2));
            }
        }
        let (first, second) = self.find_described(&n, &ms);
        let k = match first {
            Some(k) => k,
            None => {
                proof {
                    assert forall|f: int, t: int, p: Option<PieceType>| #[trigger] legal(v, f, t, p) implies !describes(n, v, f, t, p) by {
                        assert(crate::chess2::movegen::listed3(ms@, f, t, p));
                        let i = choose|i: int| 0 <= i < ms@.len() && ms@[i].0 as int == f && ms@[i].1 as int == t && ms@[i].2 == p;
                        assert(!describes(n, v, ms@[i].0 as int, ms@[i].1 as int, ms@[i].2));
                    }
                    assert(none_fits(n, v));
                }
                return Err(match castle_error {
                    Some(e) => e,
                    None => MoveError::InvalidPieceToMove,
                });
            },
        };
        match second {
            Some(k2) => {
                let ghost a = ms@[k as int];
                let ghost b = ms@[k2 as int];
                assert(legal(v, a.0 as int, a.1 as int, a.2));
                assert(legal(v, b.0 as int, b.1 as int, b.2));
                assert((a.0 as int, a.1 as int, a.2) != (b.0 as int, b.1 as int, b.2));
                assert(fits(n, v, a.0 as int, a.1 as int, a.2) && fits(n, v, b.0 as int, b.1 as int, b.2));
                assert(several_fit(n, v));
                return Err(match castle_error {
                    Some(e) => e,
                    None => MoveError::AmbiguousMoveNotation,
                });
            },
            None => {},
        }
        let (from, to, pr) = ms[k];
        let promo = match pr {
            Some(t) => Some(Piece { piece_type: t, color: self.game.turn }),
            None => None,
        };
        proof {
            assert(legal(v, from as int, to as int, pr));
            crate::chess2::movegen::lemma_pseudo_move_ok(v, from as int, to as int, pr);
            assert forall|f2: int, t2: int, p2: Option<PieceType>| #[trigger] legal(v, f2, t2, p2) && describes(n, v, f2, t2, p2)
                implies f2 == from && t2 == to && p2 == pr by {
                assert(crate::chess2::movegen::listed3(ms@, f2, t2, p2));
                let i = choose|i: int| 0 <= i < ms@.len() && ms@[i].0 as int == f2 && ms@[i].1 as int == t2 && ms@[i].2 == p2;
                assert(describes(n, v, ms@[i].0 as int, ms@[i].1 as int, ms@[i].2));
            }
            assert(fits(n, v, from as int, to as int, pr));
            if several_fit(n, v) {
                let (f1, t1, p1, f2, t2, p2) = choose|f1: int, t1: int, p1: Option<PieceType>, f2: int, t2: int, p2: Option<PieceType>|
                    #[trigger] fits(n, v, f1, t1, p1) && #[trigger] fits(n, v, f2, t2, p2) && (f1, t1, p1) != (f2, t2, p2);
                assert(legal(v, f1, t1, p1) && legal(v, f2, t2, p2));
                assert(false);
            }
        }
        let _ = self.game.play(from, to, promo);
        let check = self.in_check();
        let mate = if check { !self.game.has_legal_move() } else { false };
        let len = strip_mark(&cs);
        proof { lemma_core_length(cs@, n, len); }
        let mut out: Vec<char> = Vec::new();
        let mut i: usize = 0;
        while i < len
            invariant
                len <= cs@.len(),
                i <= len,
                out@ == cs@.subrange(0, i as int),
            decreases len - i,
        {
            out.push(cs[i]);
            i += 1;
            assert(out@ =~= cs@.subrange(0, i as int));
        }
        let ghost core = out@;
        if mate {
            out.push('#');
        } else if check {
            out.push('+');
        }
        assert(out@ =~= notation_text(n) + check_mark(self.game@));
        assert(describes(n, v, from as int, to as int, pr));
        Ok(chars_to_string(&out))
    }


    /// The notation (without check mark) of the legal move from `from` to `to`; `ms` lists
    /// every legal move.
    #[verifier::spinoff_prover]
    #[verifier::rlimit(60)]
    fn san_move_exec(&self, from: usize, to: usize, pr: Option<PieceType>, ms: &Vec<Triple>) -> (r: Notation)
        requires
            self.wf(),
            legal(self.game@, from as int, to as int, pr),
            forall|i: int| 0 <= i < ms@.len() ==> legal(self.game@, ms@[i].0 as int, ms@[i].1 as int, ms@[i].2),
            forall|f: int, t: int, p: Option<PieceType>| legal(self.game@, f, t, p) ==> #[trigger] crate::chess2::movegen::listed3(ms@, f, t, p),
        ensures
            r == san_move_of(self.game@, from as int, to as int, pr),
            notation_wf(r),
    {
        let ghost v = self.game@;
        proof { crate::chess2::movegen::lemma_pseudo_move_ok(v, from as int, to as int, pr); }
        let p = match self.game.board._board[from].piece {
            Some(p) => p,
            None => Piece { piece_type: PieceType::PAWN, color: Color::WHITE },
        };
        if p.piece_type == PieceType::KING && to == from + 2 {
            return Notation::KingSideCastle;
        }
        if p.piece_type == PieceType::KING && from >= 2 && to == from - 2 {
            return Notation::QueenSideCastle;
        }
        let enemy = match self.game.board._board[to].piece {
            Some(q) => q.color != p.color,
            None => false,
        };
        let ep = match self.game.en_passant_sq {
            Some(sq) => sq.to_index() == to,
            None => false,
        };
        proof {
            lemma_coord_round_trip(to as int);
            if let Some(sq) = self.game.en_passant_sq {
                lemma_index_round_trip(sq);
            }
        }
        let capture = enemy || (p.piece_type == PieceType::PAWN && ep);
        let mut any = false;
        let mut same_file = false;
        let mut same_rank = false;
        let mut j: usize = 0;
        while j < ms.len()
            invariant
                self.wf(),
                v == self.game@,
                v.board[from as int].piece == Some(p),
                from < 128,
                forall|i: int| 0 <= i < ms@.len() ==> legal(v, ms@[i].0 as int, ms@[i].1 as int, ms@[i].2),
                j <= ms@.len(),
                any == exists|i: int| 0 <= i < j && #[trigger] rival(v, from as int, to as int, pr, ms@[i].0 as int) && ms@[i].1 == to && ms@[i].2 == pr,
                same_file == exists|i: int| 0 <= i < j && #[trigger] rival(v, from as int, to as int, pr, ms@[i].0 as int) && ms@[i].1 == to && ms@[i].2 == pr && ms@[i].0 % 16 == from % 16,
                same_rank == exists|i: int| 0 <= i < j && #[trigger] rival(v, from as int, to as int, pr, ms@[i].0 as int) && ms@[i].1 == to && ms@[i].2 == pr && ms@[i].0 / 16 == from / 16,
            decreases ms@.len() - j,
        {
            let (f2, t2, p2) = ms[j];
            let same_pr = match (p2, pr) {
                (None, None) => true,
                (Some(a), Some(b)) => a == b,
                _ => false,
            };
            assert(legal(v, f2 as int, t2 as int, p2));
            let kind_same = match self.game.board._board[f2].piece {
                Some(q) => q.piece_type == p.piece_type,
                None => false,
            };
            if f2 != from && t2 == to && same_pr && kind_same {
                assert(rival(v, from as int, to as int, pr, ms@[j as int].0 as int));
                any = true;
                if f2 % 16 == from % 16 {
                    same_file = true;
                }
                if f2 / 16 == from / 16 {
                    same_rank = true;
                }
            }
            j += 1;
        }
        let ghost needs = p.piece_type != PieceType::PAWN && exists|f2: int| #[trigger] rival(v, from as int, to as int, pr, f2);
        let ghost file_alone = forall|f2: int| #[trigger] rival(v, from as int, to as int, pr, f2) ==> f2 % 16 != from % 16;
        let ghost rank_alone = forall|f2: int| #[trigger] rival(v, from as int, to as int, pr, f2) ==> f2 / 16 != from / 16;
        proof {
            assert(any <==> exists|f2: int| #[trigger] rival(v, from as int, to as int, pr, f2)) by {
                if exists|f2: int| #[trigger] rival(v, from as int, to as int, pr, f2) {
                    let f2 = choose|f2: int| #[trigger] rival(v, from as int, to as int, pr, f2);
                    assert(crate::chess2::movegen::listed3(ms@, f2, to as int, pr));
                    let i = choose|i: int| 0 <= i < ms@.len() && ms@[i].0 as int == f2 && ms@[i].1 as int == to && ms@[i].2 == pr;
                    assert(rival(v, from as int, to as int, pr, ms@[i].0 as int));
                }
            }
            assert(same_file <==> !file_alone) by {
                if !file_alone {
                    let f2 = choose|f2: int| #[trigger] rival(v, from as int, to as int, pr, f2) && f2 % 16 == from % 16;
                    assert(crate::chess2::movegen::listed3(ms@, f2, to as int, pr));
                    let i = choose|i: int| 0 <= i < ms@.len() && ms@[i].0 as int == f2 && ms@[i].1 as int == to && ms@[i].2 == pr;
                    assert(rival(v, from as int, to as int, pr, ms@[i].0 as int));
                }
            }
            assert(same_rank <==> !rank_alone) by {
                if !rank_alone {
                    let f2 = choose|f2: int| #[trigger] rival(v, from as int, to as int, pr, f2) && f2 / 16 == from / 16;
                    assert(crate::chess2::movegen::listed3(ms@, f2, to as int, pr));
                    let i = choose|i: int| 0 <= i < ms@.len() && ms@[i].0 as int == f2 && ms@[i].1 as int == to && ms@[i].2 == pr;
                    assert(rival(v, from as int, to as int, pr, ms@[i].0 as int));
                }
            }
        }
        let needs_x = p.piece_type != PieceType::PAWN && any;
        let file = if (p.piece_type == PieceType::PAWN && capture) || (needs_x && (!same_file || same_rank)) {
            Some((from % 16) as u8)
        } else {
            None
        };
        let rank = if needs_x && same_file { Some((8 - from / 16) as u8) } else { None };
        Notation::Regular(SanMove { piece: p.piece_type, file, rank, capture, to, promotion: pr })
    }

    /// The notation, with check mark, of the legal move from `from` to `to`. The state is
    /// left as it was.
    fn san_text(&mut self, from: usize, to: usize, pr: Option<PieceType>, ms: &Vec<Triple>) -> (r: Vec<char>)
        requires
            old(self).wf(),
            legal(old(self).game@, from as int, to as int, pr),
            forall|i: int| 0 <= i < ms@.len() ==> legal(old(self).game@, ms@[i].0 as int, ms@[i].1 as int, ms@[i].2),
            forall|f: int, t: int, p: Option<PieceType>| legal(old(self).game@, f, t, p) ==> #[trigger] crate::chess2::movegen::listed3(ms@, f, t, p),
        ensures
            final(self).wf(),
            final(self).game@ == old(self).game@,
            r@ == san_of(old(self).game@, from as int, to as int, pr),
    {
        let ghost v = self.game@;
        let n = self.san_move_exec(from, to, pr, ms);
        let mut out = notation_chars(&n);
        let promo = match pr {
            Some(t) => Some(Piece { piece_type: t, color: self.game.turn }),
            None => None,
        };
        proof { crate::chess2::movegen::lemma_pseudo_move_ok(v, from as int, to as int, pr); }
        let _ = self.game.play(from, to, promo);
        let ghost w = self.game@;
        let check = self.in_check();
        let mate = if check { !self.game.has_legal_move() } else { false };
        let _ = self.game.undo_move();
        proof { crate::chess2::lemma_undo_make(v, from as int, to as int, promo, w); }
        let ghost before = out@;
        if mate {
            out.push('#');
        } else if check {
            out.push('+');
        }
        assert(out@ =~= before + check_mark(w));
        out
    }

    /// The legal moves of the piece on `square` (such as `"e2"`) in algebraic notation,
    /// with check marks; empty for a text that names no square. The state is left as it was.
    pub fn moves(&mut self, square: &str) -> (r: Vec<String>)
        requires
            old(self).wf(),
        ensures
            final(self).wf(),
            final(self).game@ == old(self).game@,
            r@.no_duplicates(),
            names_square(square@) ==> forall|j: int| 0 <= j < r@.len() ==> is_san_of_legal(old(self).game@, square_index(square@), (#[trigger] r@[j])@),
            names_square(square@) ==> forall|to: int, pr: Option<PieceType>| #[trigger] legal(old(self).game@, square_index(square@), to, pr)
                ==> exists|j: int| 0 <= j < r@.len() && r@[j]@ == san_of(old(self).game@, square_index(square@), to, pr),
    {
        let ghost v = self.game@;
        let mut r: Vec<String> = Vec::new();
        let cs = chars_of(square);
        if cs.len() != 2 || !('a' <= cs[0] && cs[0] <= 'h' && '1' <= cs[1] && cs[1] <= '8') {
            return r;
        }
        let from = 16 * (8 - (cs[1] as u32 - '0' as u32) as usize) + (cs[0] as u32 - 'a' as u32) as usize;
        assert(from == square_index(square@));
        let ts = self.game.legal_targets(from);
        let ms = self.game.legal_moves();
        let mut j: usize = 0;
        while j < ts.len()
            invariant
                self.wf(),
                self.game@ == v,
                v == old(self).game@,
                from == square_index(square@),
                forall|to: int, pr: Option<PieceType>| legal(v, from as int, to, pr) ==> #[trigger] crate::chess2::movegen::listed(ts@, to, pr),
                on_board(from as int),
                forall|i: int| 0 <= i < ts@.len() ==> legal(v, from as int, ts@[i].0 as int, ts@[i].1),
                forall|i: int| 0 <= i < ms@.len() ==> legal(v, ms@[i].0 as int, ms@[i].1 as int, ms@[i].2),
                forall|f: int, t: int, p: Option<PieceType>| legal(v, f, t, p) ==> #[trigger] crate::chess2::movegen::listed3(ms@, f, t, p),
                j <= ts@.len(),
                r@.no_duplicates(),
                forall|i: int| 0 <= i < r@.len() ==> is_san_of_legal(v, from as int, (#[trigger] r@[i])@),
                forall|i: int| 0 <= i < j ==> exists|k: int| 0 <= k < r@.len() && r@[k]@ == san_of(v, from as int, #[trigger] ts@[i].0 as int, ts@[i].1),
            decreases ts@.len() - j,
        {
            let (to, pr) = ts[j];
            let text = self.san_text(from, to, pr, &ms);
            let st = chars_to_string(&text);
            proof {
                assert(legal(v, from as int, ts@[j as int].0 as int, ts@[j as int].1));
            }
            let mut seen = false;
            let mut k: usize = 0;
            while k < r.len()
                invariant
                    k <= r@.len(),
                    seen ==> exists|q: int| 0 <= q < r@.len() && r@[q]@ == st@,
                    !seen ==> forall|q: int| 0 <= q < k ==> r@[q]@ != st@,
                decreases r@.len() - k,
            {
                if r[k] == st {
                    seen = true;
                }
                k += 1;
            }
            let ghost r0 = r@;
            if !seen {
                r.push(st);
                proof {
                    assert forall|a: int, b: int| 0 <= a < r@.len() && 0 <= b < r@.len() && a != b implies r@[a] != r@[b] by {
                        if a < r0.len() && b < r0.len() {
                            assert(r@[a] == r0[a] && r@[b] == r0[b]);
                        } else if a == r0.len() {
                            assert(r0[b]@ != st@);
                        } else {
                            assert(r0[a]@ != st@);
                        }
                    }
                    assert forall|i: int| 0 <= i < r@.len() implies is_san_of_legal(v, from as int, (#[trigger] r@[i])@) by {
                        if i < r0.len() {
                            assert(r@[i] == r0[i]);
                        }
                    }
                    assert(r@[r0.len() as int]@ == st@);
                }
            }
            proof {
                assert forall|i: int| 0 <= i < j + 1 implies exists|k: int| 0 <= k < r@.len() && r@[k]@ == san_of(v, from as int, #[trigger] ts@[i].0 as int, ts@[i].1) by {
                    if i < j {
                        let q = choose|q: int| 0 <= q < r0.len() && r0[q]@ == san_of(v, from as int, ts@[i].0 as int, ts@[i].1);
                        assert(r@[q] == r0[q]);
                    } else if !seen {
                        assert(r@[r0.len() as int]@ == st@);
                    }
                }
            }
            j += 1;
        }
        proof {
            assert forall|to: int, pr: Option<PieceType>| #[trigger] legal(v, from as int, to, pr) implies exists|j: int|
                0 <= j < r@.len() && r@[j]@ == san_of(v, from as int, to, pr) by {
                assert(crate::chess2::movegen::listed(ts@, to, pr));
                let i = choose|i: int| 0 <= i < ts@.len() && ts@[i].0 as int == to && ts@[i].1 == pr;
                assert(exists|k: int| 0 <= k < r@.len() && r@[k]@ == san_of(v, from as int, ts@[i].0 as int, ts@[i].1));
            }
            assert(names_square(square@));
            assert(square_index(square@) == from as int);
            assert(v == old(self).game@);
        }
        r
    }

    /// Puts the piece with packed code `piece` (`EMPTY` clears the square) on the square at
    /// 0x88 index `square_idx`, keeping the king registry right. Editing the board forgets
    /// the moves made so far.
    pub fn set(&mut self, piece: u8, square_idx: u8) -> (r: Result<(), chess2::ChessError>)
        requires
            old(self).wf(),
        ensures
            final(self).wf(),
            !on_board(square_idx as int) ==> r == Err::<(), chess2::ChessError>(chess2::ChessError::InvalidIndex(square_idx as usize))
                && final(self).game@ == old(self).game@,
            on_board(square_idx as int) && piece % 64 != 0 && packed_kind(piece) is None ==> r == Err::<(), chess2::ChessError>(
                chess2::ChessError::InvalidPieceType,
            ) && final(self).game@ == old(self).game@,
            on_board(square_idx as int) && piece % 64 == 0 ==> r is Ok && final(self).game@.board == old(self).game@.board.update(
                square_idx as int,
                Square { piece: None },
            ),
            on_board(square_idx as int) && packed_kind(piece) is Some ==> r is Ok && final(self).game@.board
                == old(self).game@.board.update(
                square_idx as int,
                Square { piece: Some(Piece { piece_type: packed_kind(piece).unwrap(), color: packed_color(piece) }) },
            ),
    {
        let idx = square_idx as usize;
        if !crate::chess2::utils::is_on_board(idx) {
            return Err(chess2::ChessError::InvalidIndex(idx));
        }
        let bits = piece % 64;
        let kind = if bits == 1 {
            PieceType::PAWN
        } else if bits == 2 {
            PieceType::ROOK
        } else if bits == 4 {
            PieceType::KNIGHT
        } else if bits == 8 {
            PieceType::BISHOP
        } else if bits == 16 {
            PieceType::KING
        } else if bits == 32 {
            PieceType::QUEEN
        } else if bits == 0 {
            proof { lemma_coord_round_trip(idx as int); }
            let _ = self.game.remove(crate::chess2::square::to_coordinate(square_idx));
            return Ok(());
        } else {
            return Err(chess2::ChessError::InvalidPieceType);
        };
        let color = if piece >= 128 { Color::BLACK } else { Color::WHITE };
        proof { lemma_coord_round_trip(idx as int); }
        let _ = self.game.set(crate::chess2::square::to_coordinate(square_idx), kind, color);
        Ok(())
    }

    /// Whether a piece of the side not to move attacks the square at 0x88 index
    /// `square_idx`; false for an index off the board.
    pub fn is_attacked(&self, square_idx: u8) -> (r: bool)
        requires
            self.wf(),
        ensures
            r == (on_board(square_idx as int) && attacked(self.game@.board, square_idx as int, opposite(self.game@.turn))),
    {
        if !crate::chess2::utils::is_on_board(square_idx as usize) {
            return false;
        }
        is_attacked_by(&self.game.board, square_idx as usize, self.game.turn.opponent())
    }

    /// The destinations of the legal moves of the piece at 0x88 index `square_idx`, each
    /// once (a promoting pawn's destination stands for all its promotions). The state is
    /// left as it was.
    pub fn inner_moves(&mut self, square_idx: u8) -> (r: Vec<u8>)
        requires
            old(self).wf(),
        ensures
            final(self).wf(),
            final(self).game@ == old(self).game@,
            r@.no_duplicates(),
            forall|j: int| 0 <= j < r@.len() ==> legal_to(old(self).game@, square_idx as int, #[trigger] r@[j] as int),
            forall|to: int, pr: Option<PieceType>| #[trigger] legal(old(self).game@, square_idx as int, to, pr) ==> exists|j: int|
                0 <= j < r@.len() && r@[j] as int == to,
    {
        let ghost v = self.game@;
        let mut r: Vec<u8> = Vec::new();
        if !crate::chess2::utils::is_on_board(square_idx as usize) {
            proof {
                assert forall|to: int, pr: Option<PieceType>| !#[trigger] legal(v, square_idx as int, to, pr) by {}
            }
            return r;
        }
        let ts = self.game.legal_targets(square_idx as usize);
        let mut i: usize = 0;
        while i < ts.len()
            invariant
                self.wf(),
                self.game@ == v,
                v == old(self).game@,
                on_board(square_idx as int),
                forall|k: int| 0 <= k < ts@.len() ==> legal(v, square_idx as int, ts@[k].0 as int, ts@[k].1),
                forall|to: int, pr: Option<PieceType>| legal(v, square_idx as int, to, pr) ==> #[trigger] crate::chess2::movegen::listed(ts@, to, pr),
                i <= ts@.len(),
                r@.no_duplicates(),
                forall|j: int| 0 <= j < r@.len() ==> legal_to(v, square_idx as int, #[trigger] r@[j] as int),
                forall|k: int| 0 <= k < i ==> exists|j: int| 0 <= j < r@.len() && r@[j] as int == (#[trigger] ts@[k]).0 as int,
            decreases ts@.len() - i,
        {
            proof {
                assert(legal(v, square_idx as int, ts@[i as int].0 as int, ts@[i as int].1));
                crate::chess2::movegen::lemma_pseudo_move_ok(v, square_idx as int, ts@[i as int].0 as int, ts@[i as int].1);
            }
            let d = ts[i].0 as u8;
            let mut seen = false;
            let mut k: usize = 0;
            while k < r.len()
                invariant
                    k <= r@.len(),
                    seen ==> exists|j: int| 0 <= j < r@.len() && r@[j] == d,
                    !seen ==> forall|j: int| 0 <= j < k ==> r@[j] != d,
                decreases r@.len() - k,
            {
                if r[k] == d {
                    seen = true;
                }
                k += 1;
            }
            let ghost r0 = r@;
            if !seen {
                r.push(d);
                proof {
                    assert forall|a: int, b: int| 0 <= a < r@.len() && 0 <= b < r@.len() && a != b implies r@[a] != r@[b] by {
                        if a < r0.len() && b < r0.len() {
                            assert(r@[a] == r0[a] && r@[b] == r0[b]);
                        }
                    }
                    assert(legal_to(v, square_idx as int, d as int));
                    assert forall|j: int| 0 <= j < r@.len() implies legal_to(v, square_idx as int, #[trigger] r@[j] as int) by {
                        if j < r0.len() {
                            assert(r@[j] == r0[j]);
                        }
                    }
                    assert(r@[r0.len() as int] == d);
                }
            }
            proof {
                assert forall|k2: int| 0 <= k2 < i + 1 implies exists|j: int| 0 <= j < r@.len() && r@[j] as int == (#[trigger] ts@[k2]).0 as int by {
                    if k2 < i {
                        let j = choose|j: int| 0 <= j < r0.len() && r0[j] as int == ts@[k2].0 as int;
                        assert(r@[j] == r0[j]);
                    } else if !seen {
                        assert(r@[r0.len() as int] == d);
                    }
                }
            }
            i += 1;
        }
        proof {
            assert forall|to: int, pr: Option<PieceType>| #[trigger] legal(v, square_idx as int, to, pr) implies exists|j: int|
                0 <= j < r@.len() && r@[j] as int == to by {
                assert(crate::chess2::movegen::listed(ts@, to, pr));
                let k = choose|k: int| 0 <= k < ts@.len() && ts@[k].0 as int == to && ts@[k].1 == pr;
                assert(exists|j: int| 0 <= j < r@.len() && r@[j] as int == ts@[k].0 as int);
            }
        }
        r
    }

    /// The index, 0 (a8) to 63 (h1), of the square `notation` names; `None` for a text that
    /// names no square.
    pub fn convert_algebraic_notation_to_index(&self, notation: &str) -> (r: Option<u8>)
        ensures
            names_square(notation@) ==> r == Some((8 * (8 - (notation@[1] as int - '0' as int)) + (notation@[0] as int - 'a' as int)) as u8),
            !names_square(notation@) ==> r is None,
    {
        let cs = chars_of(notation);
        if cs.len() != 2 || !('a' <= cs[0] && cs[0] <= 'h' && '1' <= cs[1] && cs[1] <= '8') {
            return None;
        }
        let file = (cs[0] as u32 - 'a' as u32) as u8;
        let rank = (cs[1] as u32 - '0' as u32) as u8;
        Some(8 * (8 - rank) + file)
    }

    /// The algebraic name of the square at 0x88 index `index`, such as "e4"; `None` off
    /// the board.
    pub fn convert_index_algebraic_notation(&self, index: u8) -> (r: Option<String>)
        ensures
            on_board(index as int) ==> (r matches Some(t) && t@ == square_text(index as int)),
            !on_board(index as int) ==> r is None,
    {
        if !crate::chess2::utils::is_on_board(index as usize) {
            return None;
        }
        let mut out: Vec<char> = Vec::new();
        crate::chess2::fen::push_square(&mut out, index as usize);
        assert(out@ =~= square_text(index as int));
        Some(chars_to_string(&out))
    }

    /// The side to move is in check and has no legal move. The state is left as it was.
    pub fn is_checkmate(&mut self) -> (r: bool)
        requires
            old(self).wf(),
        ensures
            final(self).wf(),
            final(self).game@ == old(self).game@,
            r == (king_attacked(old(self).game@, old(self).game@.turn) && no_legal_move(old(self).game@)),
    {
        let check = self.in_check();
        check && !self.game.has_legal_move()
    }

    /// The side to move is not in check and has no legal move. The state is left as it was.
    pub fn is_stalemate(&mut self) -> (r: bool)
        requires
            old(self).wf(),
        ensures
            final(self).wf(),
            final(self).game@ == old(self).game@,
            r == (!king_attacked(old(self).game@, old(self).game@.turn) && no_legal_move(old(self).game@)),
    {
        let check = self.in_check();
        !check && !self.game.has_legal_move()
    }

    /// A hundred half-moves have passed without a pawn move or a capture.
    pub fn is_50_moves_rule(&self) -> (r: bool)
        ensures
            r == (self.game.half_moves >= 100),
    {
        self.game.half_moves >= 100
    }

    /// The current position has occurred three times or more.
    pub fn is_threefold_repetition(&self) -> (r: bool)
        requires
            self.wf(),
        ensures
            r == threefold(self.game@),
    {
        let ghost k = key_of(self.game@);
        let ghost s = self.game@.positions;
        let mut count: usize = 0;
        let mut i: usize = 0;
        while i < self.game.positions.len()
            invariant
                self.wf(),
                k == key_of(self.game@),
                s == self.game@.positions,
                s.len() == self.game.positions@.len(),
                i <= s.len(),
                count == occurrences(s.subrange(0, i as int), k),
                count <= i,
            decreases s.len() - i,
        {
            let same = same_position(&self.game.positions[i], &self.game);
            proof {
                assert(s.subrange(0, i + 1).drop_last() =~= s.subrange(0, i as int));
                assert(s[i as int] == self.game.positions@[i as int]@);
            }
            if same {
                count += 1;
            }
            i += 1;
        }
        assert(s.subrange(0, s.len() as int) =~= s);
        count >= 3
    }

    /// Neither side has material left to mate with.
    pub fn is_insufficient_materials(&self) -> (r: bool)
        requires
            self.wf(),
        ensures
            r == insufficient(self.game@),
    {
        let ghost v = self.game@;
        let mut heavy = false;
        let mut knight: Option<usize> = None;
        let mut knights: usize = 0;
        let mut shade: Option<usize> = None;
        let mut bishops_mixed = false;
        let mut bishops: usize = 0;
        let mut i: usize = 0;
        while i < 128
            invariant
                self.wf(),
                v == self.game@,
                i <= 128,
                heavy == exists|j: int| 0 <= j < i && on_board(j) && (is_kind(v, j, PieceType::PAWN) || is_kind(v, j, PieceType::ROOK) || is_kind(v, j, PieceType::QUEEN)),
                knights == 0 <==> forall|j: int| 0 <= j < i && on_board(j) ==> !#[trigger] is_kind(v, j, PieceType::KNIGHT),
                knights <= 2,
                knights == 0 ==> knight is None,
                knights >= 1 ==> (knight matches Some(n) && 0 <= n < i && on_board(n as int) && is_kind(v, n as int, PieceType::KNIGHT)),
                knights == 1 ==> forall|j: int| 0 <= j < i && on_board(j) && #[trigger] is_kind(v, j, PieceType::KNIGHT) ==> j == knight.unwrap(),
                knights == 2 ==> exists|a: int, b: int| 0 <= a < i && 0 <= b < i && a != b && on_board(a) && on_board(b) && is_kind(v, a, PieceType::KNIGHT) && is_kind(v, b, PieceType::KNIGHT),
                bishops == 0 <==> forall|j: int| 0 <= j < i && on_board(j) ==> !#[trigger] is_kind(v, j, PieceType::BISHOP),
                bishops <= 1,
                bishops == 0 ==> shade is None && !bishops_mixed,
                bishops == 1 ==> (shade matches Some(sh) && sh < 2 && exists|a: int| 0 <= a < i && on_board(a) && is_kind(v, a, PieceType::BISHOP) && square_shade(a) == sh),
                bishops == 1 && !bishops_mixed ==> forall|j: int| 0 <= j < i && on_board(j) && #[trigger] is_kind(v, j, PieceType::BISHOP) ==> square_shade(j) == shade.unwrap(),
                bishops_mixed ==> exists|a: int, b: int| 0 <= a < i && 0 <= b < i && on_board(a) && on_board(b) && is_kind(v, a, PieceType::BISHOP) && is_kind(v, b, PieceType::BISHOP) && square_shade(a) != square_shade(b),
            decreases 128 - i,
        {
            if i % 16 < 8 {
                match self.game.board._board[i].piece {
                    Some(p) => {
                        if p.piece_type == PieceType::PAWN || p.piece_type == PieceType::ROOK || p.piece_type == PieceType::QUEEN {
                            heavy = true;
                        } else if p.piece_type == PieceType::KNIGHT {
                            assert(is_kind(v, i as int, PieceType::KNIGHT));
                            if knights == 0 {
                                knight = Some(i);
                                knights = 1;
                            } else if knights == 1 {
                                knights = 2;
                            }
                        } else if p.piece_type == PieceType::BISHOP {
                            assert(is_kind(v, i as int, PieceType::BISHOP));
                            let sh = (i % 16 + i / 16) % 2;
                            match shade {
                                None => {
                                    shade = Some(sh);
                                    bishops = 1;
                                },
                                Some(s0) => {
                                    if s0 != sh {
                                        bishops_mixed = true;
                                    }
                                },
                            }
                        }
                    },
                    None => {},
                }
            }
            proof {
                if knights >= 1 {
                    assert(is_kind(v, knight.unwrap() as int, PieceType::KNIGHT));
                }
                if bishops == 1 {
                    let a = choose|a: int| 0 <= a < i + 1 && on_board(a) && is_kind(v, a, PieceType::BISHOP) && square_shade(a) == shade.unwrap();
                    assert(is_kind(v, a, PieceType::BISHOP));
                }
            }
            i += 1;
        }
        let r = !heavy && ((knights == 0 && !bishops_mixed) || (bishops == 0 && knights <= 1));
        proof {
            if knights == 2 {
                let (a, b) = choose|a: int, b: int| 0 <= a < 128 && 0 <= b < 128 && a != b && on_board(a) && on_board(b) && is_kind(v, a, PieceType::KNIGHT) && is_kind(v, b, PieceType::KNIGHT);
                assert(is_kind(v, a, PieceType::KNIGHT) && is_kind(v, b, PieceType::KNIGHT));
            }
            if bishops_mixed {
                let (a, b) = choose|a: int, b: int| 0 <= a < 128 && 0 <= b < 128 && on_board(a) && on_board(b) && is_kind(v, a, PieceType::BISHOP) && is_kind(v, b, PieceType::BISHOP) && square_shade(a) != square_shade(b);
                assert(is_kind(v, a, PieceType::BISHOP) && is_kind(v, b, PieceType::BISHOP));
            }
            if heavy {
                let j = choose|j: int| 0 <= j < 128 && on_board(j) && (is_kind(v, j, PieceType::PAWN) || is_kind(v, j, PieceType::ROOK) || is_kind(v, j, PieceType::QUEEN));
                assert(on_board(j));
            }
            if knights >= 1 {
                assert(is_kind(v, knight.unwrap() as int, PieceType::KNIGHT));
            }
            if bishops == 1 {
                let a = choose|a: int| 0 <= a < 128 && on_board(a) && is_kind(v, a, PieceType::BISHOP) && square_shade(a) == shade.unwrap();
                assert(is_kind(v, a, PieceType::BISHOP));
            }
        }
        r
    }

    /// Stalemate, threefold repetition, the fifty-move rule or insufficient material.
    /// The state is left as it was.
    pub fn is_draw(&mut self) -> (r: bool)
        requires
            old(self).wf(),
        ensures
            final(self).wf(),
            final(self).game@ == old(self).game@,
            r == ((!king_attacked(old(self).game@, old(self).game@.turn) && no_legal_move(old(self).game@))
                || threefold(old(self).game@) || old(self).game@.half_moves >= 100 || insufficient(old(self).game@)),
    {
        let s = self.is_stalemate();
        s || self.is_threefold_repetition() || self.is_50_moves_rule() || self.is_insufficient_materials()
    }

    /// The number of move sequences of length `depth` from this position (leaf nodes of
    /// the move tree), saturated at `u64::MAX`. The state is left as it was.
    pub fn perft(&mut self, depth: u32) -> (r: u64)
        requires
            old(self).wf(),
        ensures
            final(self).wf(),
            final(self).game@ == old(self).game@,
            r as int == min(perft_count(old(self).game@, depth as nat) as int, u64::MAX as int),
        decreases depth, 1int,
    {
        if depth == 0 {
            return 1;
        }
        let ghost v = self.game@;
        let mut total: u64 = 0;
        let ghost mut acc: int = 0;
        let mut from: usize = 0;
        while from < 128
            invariant
                self.wf(),
                self.game@ == v,
                v == old(self).game@,
                depth >= 1,
                from <= 128,
                acc >= 0,
                acc + perft_from(v, depth as nat, from as int) == perft_from(v, depth as nat, 0),
                total as int == min(acc, u64::MAX as int),
            decreases 128 - from,
        {
            let ghost part = perft_to(v, depth as nat, from as int, 0) as int;
            let sub = self.perft_square(from, depth);
            proof {
                assert(perft_from(v, depth as nat, from as int) == perft_to(v, depth as nat, from as int, 0) + perft_from(
                    v,
                    depth as nat,
                    from + 1,
                ));
            }
            total = total.saturating_add(sub);
            proof {
                acc = acc + part;
            }
            from += 1;
        }
        assert(perft_from(v, depth as nat, 128) == 0);
        total
    }

    /// The part of `perft(depth)` due to the moves from the square at index `from`,
    /// saturated at `u64::MAX`. The state is left as it was.
    fn perft_square(&mut self, from: usize, depth: u32) -> (r: u64)
        requires
            old(self).wf(),
            depth >= 1,
            from < 128,
        ensures
            final(self).wf(),
            final(self).game@ == old(self).game@,
            r as int == min(perft_to(old(self).game@, depth as nat, from as int, 0) as int, u64::MAX as int),
        decreases depth, 0int,
    {
        let ghost v = self.game@;
        if !crate::chess2::utils::is_on_board(from) {
            proof {
                lemma_empty_sum(v, depth as nat, from as int, 0);
            }
            return 0;
        }
        let ts = self.game.legal_targets(from);
        proof {
            assert forall|i: int| 0 <= i < ts@.len() implies (#[trigger] ts@[i]).0 < 128 && promo_index(ts@[i].1) <= 4 by {
                assert(legal(v, from as int, ts@[i].0 as int, ts@[i].1));
                lemma_legal_key(v, from as int, ts@[i].0 as int, ts@[i].1);
            }
        }
        let l = sort_targets(&ts);
        proof {
            assert forall|i: int| 0 <= i < l@.len() implies #[trigger] legal(v, from as int, l@[i].0 as int, l@[i].1) by {
                assert(in_list(ts@, l@[i]));
                let j = choose|j: int| 0 <= j < ts@.len() && ts@[j] == l@[i];
                assert(legal(v, from as int, ts@[j].0 as int, ts@[j].1));
            }
            assert forall|to: int, pr: Option<PieceType>| legal(v, from as int, to, pr) implies #[trigger] crate::chess2::movegen::listed(l@, to, pr) by {
                assert(crate::chess2::movegen::listed(ts@, to, pr));
            }
            lemma_sorted_sum(v, depth as nat, from as int, l@, 0, 0);
        }
        let mut total: u64 = 0;
        let ghost mut acc: int = 0;
        let mut j: usize = 0;
        while j < l.len()
            invariant
                self.wf(),
                self.game@ == v,
                v == old(self).game@,
                depth >= 1,
                from < 128,
                on_board(from as int),
                forall|i: int| 0 <= i < l@.len() ==> #[trigger] legal(v, from as int, l@[i].0 as int, l@[i].1),
                j <= l@.len(),
                acc >= 0,
                acc + sum_list(v, depth as nat, from as int, l@, j as int) == sum_list(v, depth as nat, from as int, l@, 0),
                total as int == min(acc, u64::MAX as int),
            decreases l@.len() - j,
        {
            let (to, pr) = l[j];
            let promo = match pr {
                Some(t) => Some(Piece { piece_type: t, color: self.game.turn }),
                None => None,
            };
            proof {
                assert(legal(v, from as int, to as int, pr));
                chess2::movegen::lemma_pseudo_move_ok(v, from as int, to as int, pr);
            }
            let _ = self.game.play(from, to, promo);
            let ghost w = self.game@;
            let n = self.perft(depth - 1);
            let _ = self.game.undo_move();
            proof {
                chess2::lemma_undo_make(v, from as int, to as int, promo, w);
                assert(w == after_move(v, from as int, to as int, pr));
            }
            let ghost part = perft_count(after_move(v, from as int, to as int, pr), (depth - 1) as nat) as int;
            total = total.saturating_add(n);
            proof {
                acc = acc + part;
            }
            j += 1;
        }
        total
    }
}

} // verus!
