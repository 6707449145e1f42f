use vstd::prelude::*;
use vstd::string::StrSliceExecFns;
use super::board::Board;
use super::castling::{Castling, CastlingRights};
use super::constants::Color;
use super::errors::ChessError;
use super::history::MoveHistory;
use super::piece::{Piece, PieceType};
use super::square::{coord_of, lemma_coord_round_trip, lemma_index_round_trip, sq_index, to_coordinate, Square, SquareCoordinate};
use super::utils::{on_board, ChessResult};
use super::{find_king, key_of, Chess, ChessView, Kings, PositionView};

verus! {

/// The letter of a piece in FEN: upper case for White, lower case for Black.
pub open spec fn piece_char(p: Piece) -> char {
    match (p.piece_type, p.color) {
        (PieceType::PAWN, Color::WHITE) => 'P',
        (PieceType::KNIGHT, Color::WHITE) => 'N',
        (PieceType::BISHOP, Color::WHITE) => 'B',
        (PieceType::ROOK, Color::WHITE) => 'R',
        (PieceType::QUEEN, Color::WHITE) => 'Q',
        (PieceType::KING, Color::WHITE) => 'K',
        (PieceType::PAWN, Color::BLACK) => 'p',
        (PieceType::KNIGHT, Color::BLACK) => 'n',
        (PieceType::BISHOP, Color::BLACK) => 'b',
        (PieceType::ROOK, Color::BLACK) => 'r',
        (PieceType::QUEEN, Color::BLACK) => 'q',
        (PieceType::KING, Color::BLACK) => 'k',
    }
}

/// The piece a FEN letter stands for.
pub open spec fn char_piece(c: char) -> Option<Piece> {
    if c == 'P' { Some(Piece { piece_type: PieceType::PAWN, color: Color::WHITE }) }
    else if c == 'N' { Some(Piece { piece_type: PieceType::KNIGHT, color: Color::WHITE }) }
    else if c == 'B' { Some(Piece { piece_type: PieceType::BISHOP, color: Color::WHITE }) }
    else if c == 'R' { Some(Piece { piece_type: PieceType::ROOK, color: Color::WHITE }) }
    else if c == 'Q' { Some(Piece { piece_type: PieceType::QUEEN, color: Color::WHITE }) }
    else if c == 'K' { Some(Piece { piece_type: PieceType::KING, color: Color::WHITE }) }
    else if c == 'p' { Some(Piece { piece_type: PieceType::PAWN, color: Color::BLACK }) }
    else if c == 'n' { Some(Piece { piece_type: PieceType::KNIGHT, color: Color::BLACK }) }
    else if c == 'b' { Some(Piece { piece_type: PieceType::BISHOP, color: Color::BLACK }) }
    else if c == 'r' { Some(Piece { piece_type: PieceType::ROOK, color: Color::BLACK }) }
    else if c == 'q' { Some(Piece { piece_type: PieceType::QUEEN, color: Color::BLACK }) }
    else if c == 'k' { Some(Piece { piece_type: PieceType::KING, color: Color::BLACK }) }
    else { None }
}

/// The decimal digit of `n` (0 to 9).
pub open spec fn digit(n: int) -> char {
    ('0' as u8 + n) as char
}

/// A count of empty squares as written in FEN: nothing for zero, else its digit.
pub open spec fn run_text(run: nat) -> Seq<char> {
    if run == 0 { Seq::empty() } else { seq![digit(run as int)] }
}

/// The FEN text of row `row` (0 is rank 8) from file `f` on, `run` empty squares pending.
pub open spec fn row_fen(b: Seq<Square>, row: int, f: int, run: nat) -> Seq<char>
    decreases 8 - f,
{
    if f >= 8 {
        run_text(run)
    } else {
        match b[16 * row + f].piece {
            None => row_fen(b, row, f + 1, run + 1),
            Some(p) => run_text(run) + seq![piece_char(p)] + row_fen(b, row, f + 1, 0),
        }
    }
}

/// The placement field from row `row` on: rows separated by `/`.
pub open spec fn placement(b: Seq<Square>, row: int) -> Seq<char>
    decreases 8 - row,
{
    if row >= 8 {
        Seq::empty()
    } else if row == 7 {
        row_fen(b, row, 0, 0)
    } else {
        row_fen(b, row, 0, 0) + seq!['/'] + placement(b, row + 1)
    }
}

/// The decimal text of `n`, without leading zeros.
pub open spec fn num_text(n: nat) -> Seq<char>
    decreases n,
{
    if n < 10 {
        seq![digit(n as int)]
    } else {
        num_text(n / 10) + seq![digit((n % 10) as int)]
    }
}

pub open spec fn castling_text(r: CastlingRights) -> Seq<char> {
    let t = (if r.white.kingside { seq!['K'] } else { Seq::empty() }) + (if r.white.queenside {
        seq!['Q']
    } else {
        Seq::empty()
    }) + (if r.black.kingside { seq!['k'] } else { Seq::empty() }) + (if r.black.queenside {
        seq!['q']
    } else {
        Seq::empty()
    });
    if t.len() == 0 { seq!['-'] } else { t }
}

/// A square in algebraic notation: file letter and rank digit.
pub open spec fn square_text(i: int) -> Seq<char> {
    seq![('a' as u8 + i % 16) as char, digit(8 - i / 16)]
}

pub open spec fn ep_text(ep: Option<SquareCoordinate>) -> Seq<char> {
    match ep {
        Some(sq) => square_text(sq_index(sq)),
        None => seq!['-'],
    }
}

/// The position part of the FEN: placement, side to move, castling rights, en passant.
pub open spec fn position_fen(v: PositionView) -> Seq<char> {
    placement(v.board, 0) + seq![' '] + (if v.turn == Color::WHITE { seq!['w'] } else { seq!['b'] })
        + seq![' '] + castling_text(v.castling_rights) + seq![' '] + ep_text(v.en_passant_sq)
}

/// `s` is the FEN of some well-formed state.
pub open spec fn fen_text(s: Seq<char>) -> bool {
    exists|u: ChessView| super::basic_wf(u) && fen_of(u) == s
}

/// The castling field at `start` (up to the next space) is `-` with no rights, or letters
/// among `K`, `Q`, `k`, `q` naming the rights `r`.
pub open spec fn castling_field_ok(s: Seq<char>, start: int, r: CastlingRights) -> bool {
    let e = first_space(s, start);
    ||| e == start + 1 && s[start] == '-' && r == (CastlingRights {
        white: Castling { kingside: false, queenside: false },
        black: Castling { kingside: false, queenside: false },
    })
    ||| e > start && (forall|k: int| start <= k < e ==> castling_char(#[trigger] s[k])) && r == rights_of_chars(
        s.subrange(start, e),
    )
}

/// The en-passant field at `start` is `-` with no target, or a square naming the target.
pub open spec fn ep_field_ok(s: Seq<char>, start: int, ep: Option<SquareCoordinate>) -> bool {
    ||| s[start] == '-' && ep is None
    ||| 'a' <= s[start] <= 'h' && '1' <= s[start + 1] <= '8' && ep == Some(
        coord_of(16 * (8 - (s[start + 1] as int - '0' as int)) + (s[start] as int - 'a' as int)),
    )
}

/// Where the half-move clock starts in a FEN text.
pub open spec fn half_start(s: Seq<char>) -> int {
    first_space(s, first_space(s, first_space(s, 0) + 3) + 1) + 1
}

/// The two clock fields are decimal numbers giving `half` and `full`, and end the text.
pub open spec fn clocks_ok(s: Seq<char>, half: u32, full: u32) -> bool {
    let h0 = half_start(s);
    let h1 = first_space(s, h0);
    &&& h0 < h1 < s.len()
    &&& all_digits(s.subrange(h0, h1))
    &&& half == dec_value(s.subrange(h0, h1))
    &&& h1 + 1 < s.len()
    &&& all_digits(s.subrange(h1 + 1, s.len() as int))
    &&& full == dec_value(s.subrange(h1 + 1, s.len() as int))
}

/// The text starts with a valid placement field, then a space, `w` or `b`, and a space.
pub open spec fn fen_shape_ok(s: Seq<char>) -> bool {
    let i = first_space(s, 0);
    &&& placement_ok(s, 0, 0)
    &&& i + 2 < s.len()
    &&& (s[i + 1] == 'w' || s[i + 1] == 'b')
    &&& s[i + 2] == ' '
}

/// A state whose castling rights all belong to a side that has a king.
pub open spec fn rights_backed(u: ChessView) -> bool {
    &&& (u.castling_rights.white.kingside || u.castling_rights.white.queenside) ==> u.kings.white is Some
    &&& (u.castling_rights.black.kingside || u.castling_rights.black.queenside) ==> u.kings.black is Some
}

/// `s` is the FEN of a well-formed state whose castling rights all have their king.
pub open spec fn loadable_fen(s: Seq<char>) -> bool {
    exists|u: ChessView| super::basic_wf(u) && rights_backed(u) && fen_of(u) == s
}

/// The full FEN of a state: the position part, then the half-move clock and move number.
pub open spec fn fen_of(v: ChessView) -> Seq<char> {
    position_fen(key_of(v)) + seq![' '] + num_text(v.half_moves as nat) + seq![' '] + num_text(
        v.full_moves as nat,
    )
}

/// Relies on `String`'s `FromIterator<char>`: the string holds exactly these characters.
#[verifier::external_body]
pub fn chars_to_string(v: &Vec<char>) -> (r: String)
    ensures
        r@ == v@,
{
    v.iter().collect::<String>()
}

/// The characters of `s`.
pub fn chars_of(s: &str) -> (r: Vec<char>)
    ensures
        r@ == s@,
{
    let n = s.unicode_len();
    let mut r: Vec<char> = Vec::new();
    let mut i: usize = 0;
    while i < n
        invariant
            n == s@.len(),
            i <= n,
            r@ == s@.subrange(0, i as int),
        decreases n - i,
    {
        r.push(s.get_char(i));
        i += 1;
        assert(r@ =~= s@.subrange(0, i as int));
    }
    assert(r@ =~= s@);
    r
}

fn digit_char(n: u32) -> (c: char)
    requires
        n < 10,
    ensures
        c == digit(n as int),
{
    (('0' as u8) + (n as u8)) as char
}

/// Appends the decimal text of `n`.
pub fn push_num(out: &mut Vec<char>, n: u32)
    ensures
        final(out)@ == old(out)@ + num_text(n as nat),
    decreases n,
{
    if n >= 10 {
        push_num(out, n / 10);
    }
    out.push(digit_char(n % 10));
    assert(final(out)@ =~= old(out)@ + num_text(n as nat));
}

fn piece_letter(p: Piece) -> (c: char)
    ensures
        c == piece_char(p),
{
    match (p.piece_type, p.color) {
        (PieceType::PAWN, Color::WHITE) => 'P',
        (PieceType::KNIGHT, Color::WHITE) => 'N',
        (PieceType::BISHOP, Color::WHITE) => 'B',
        (PieceType::ROOK, Color::WHITE) => 'R',
        (PieceType::QUEEN, Color::WHITE) => 'Q',
        (PieceType::KING, Color::WHITE) => 'K',
        (PieceType::PAWN, Color::BLACK) => 'p',
        (PieceType::KNIGHT, Color::BLACK) => 'n',
        (PieceType::BISHOP, Color::BLACK) => 'b',
        (PieceType::ROOK, Color::BLACK) => 'r',
        (PieceType::QUEEN, Color::BLACK) => 'q',
        (PieceType::KING, Color::BLACK) => 'k',
    }
}

/// Appends the placement field of the board.
fn push_placement(out: &mut Vec<char>, board: &Board)
    requires
        board.wf(),
    ensures
        final(out)@ == old(out)@ + placement(board._board@, 0),
{
    let ghost b = board._board@;
    let ghost start = out@;
    let mut row: usize = 0;
    while row < 8
        invariant
            board.wf(),
            b == board._board@,
            row <= 8,
            out@ + placement(b, row as int) == start + placement(b, 0),
        decreases 8 - row,
    {
        let ghost rest = if row == 7 { Seq::<char>::empty() } else { seq!['/'] + placement(b, row + 1) };
        assert(placement(b, row as int) =~= row_fen(b, row as int, 0, 0) + rest);
        assert(out@ + row_fen(b, row as int, 0, 0) + rest =~= out@ + placement(b, row as int));
        let mut f: usize = 0;
        let mut run: u32 = 0;
        while f < 8
            invariant
                board.wf(),
                b == board._board@,
                row < 8,
                f <= 8,
                run <= f,
                rest == (if row == 7 { Seq::<char>::empty() } else { seq!['/'] + placement(b, row + 1) }),
                out@ + row_fen(b, row as int, f as int, run as nat) + rest == start + placement(b, 0),
            decreases 8 - f,
        {
            let ghost before = out@;
            let ghost run0 = run;
            match board._board[16 * row + f].piece {
                None => {
                    run = run + 1;
                    assert(row_fen(b, row as int, f as int, run0 as nat) == row_fen(b, row as int, f + 1, run as nat));
                },
                Some(p) => {
                    if run > 0 {
                        out.push(digit_char(run));
                    }
                    out.push(piece_letter(p));
                    run = 0;
                    assert(out@ =~= before + run_text(run0 as nat) + seq![piece_char(p)]);
                    assert(row_fen(b, row as int, f as int, run0 as nat) == run_text(run0 as nat) + seq![piece_char(p)]
                        + row_fen(b, row as int, f + 1, 0));
                    assert(out@ + row_fen(b, row as int, f + 1, 0) + rest =~= before + row_fen(
                        b,
                        row as int,
                        f as int,
                        run0 as nat,
                    ) + rest);
                },
            }
            f += 1;
        }
        let ghost before = out@;
        if run > 0 {
            out.push(digit_char(run));
        }
        assert(out@ =~= before + run_text(run as nat));
        if row < 7 {
            out.push('/');
        }
        assert(out@ + placement(b, row + 1) =~= before + row_fen(b, row as int, 8, run as nat) + rest);
        row += 1;
    }
}

fn push_castling(out: &mut Vec<char>, r: CastlingRights)
    ensures
        final(out)@ == old(out)@ + castling_text(r),
{
    let ghost start = out@;
    let len0 = out.len();
    if r.white.kingside {
        out.push('K');
    }
    if r.white.queenside {
        out.push('Q');
    }
    if r.black.kingside {
        out.push('k');
    }
    if r.black.queenside {
        out.push('q');
    }
    if out.len() == len0 {
        out.push('-');
    }
    let ghost t = (if r.white.kingside { seq!['K'] } else { Seq::empty() }) + (if r.white.queenside {
        seq!['Q']
    } else {
        Seq::empty()
    }) + (if r.black.kingside { seq!['k'] } else { Seq::empty() }) + (if r.black.queenside {
        seq!['q']
    } else {
        Seq::empty()
    });
    assert(final(out)@ =~= start + castling_text(r));
}

/// The algebraic name of an on-board index, e.g. "e4".
pub fn push_square(out: &mut Vec<char>, idx: usize)
    requires
        on_board(idx as int),
    ensures
        final(out)@ == old(out)@ + square_text(idx as int),
{
    let file = (idx % 16) as u8;
    let rank = (8 - idx / 16) as u32;
    out.push(('a' as u8 + file) as char);
    out.push(digit_char(rank));
    assert(final(out)@ =~= old(out)@ + square_text(idx as int));
}

impl Chess {
    /// The position in Forsyth-Edwards Notation.
    pub fn get_fen(&self) -> (r: String)
        requires
            self.wf(),
        ensures
            r@ == fen_of(self@),
    {
        let mut out: Vec<char> = Vec::new();
        push_placement(&mut out, &self.board);
        out.push(' ');
        out.push(if self.turn == Color::WHITE { 'w' } else { 'b' });
        out.push(' ');
        push_castling(&mut out, self.castling_rights);
        out.push(' ');
        let ghost before_ep = out@;
        assert(before_ep =~= placement(self@.board, 0) + seq![' '] + (if self@.turn == Color::WHITE { seq!['w'] } else { seq!['b'] })
            + seq![' '] + castling_text(self@.castling_rights) + seq![' ']);
        match self.en_passant_sq {
            Some(sq) => {
                push_square(&mut out, sq.to_index());
            },
            None => {
                out.push('-');
            },
        }
        assert(out@ =~= before_ep + ep_text(self.en_passant_sq));
        assert(out@ =~= position_fen(key_of(self@)));
        let ghost pos = out@;
        out.push(' ');
        push_num(&mut out, self.half_moves);
        out.push(' ');
        push_num(&mut out, self.full_moves);
        assert(out@ =~= pos + seq![' '] + num_text(self.half_moves as nat) + seq![' '] + num_text(self.full_moves as nat));
        chars_to_string(&out)
    }
}

fn fen_piece(c: char) -> (r: Option<Piece>)
    ensures
        r == char_piece(c),
{
    if c == 'P' { Some(Piece { piece_type: PieceType::PAWN, color: Color::WHITE }) }
    else if c == 'N' { Some(Piece { piece_type: PieceType::KNIGHT, color: Color::WHITE }) }
    else if c == 'B' { Some(Piece { piece_type: PieceType::BISHOP, color: Color::WHITE }) }
    else if c == 'R' { Some(Piece { piece_type: PieceType::ROOK, color: Color::WHITE }) }
    else if c == 'Q' { Some(Piece { piece_type: PieceType::QUEEN, color: Color::WHITE }) }
    else if c == 'K' { Some(Piece { piece_type: PieceType::KING, color: Color::WHITE }) }
    else if c == 'p' { Some(Piece { piece_type: PieceType::PAWN, color: Color::BLACK }) }
    else if c == 'n' { Some(Piece { piece_type: PieceType::KNIGHT, color: Color::BLACK }) }
    else if c == 'b' { Some(Piece { piece_type: PieceType::BISHOP, color: Color::BLACK }) }
    else if c == 'r' { Some(Piece { piece_type: PieceType::ROOK, color: Color::BLACK }) }
    else if c == 'q' { Some(Piece { piece_type: PieceType::QUEEN, color: Color::BLACK }) }
    else if c == 'k' { Some(Piece { piece_type: PieceType::KING, color: Color::BLACK }) }
    else { None }
}

/// Reads a decimal number starting at `i`: its value and the index after its last digit;
/// `None` when no digit stands at `i` or the value does not fit in 32 bits. When the text
/// there is the decimal text of `x0`, followed by a space or the end, the value is `x0`.
fn parse_num(cs: &Vec<char>, i: usize, Ghost(x0): Ghost<u32>) -> (r: Option<(u32, usize)>)
    requires
        i <= cs@.len(),
    ensures
        r matches Some((v, j)) ==> i < j <= cs@.len() && v == dec_value(cs@.subrange(i as int, j as int))
            && all_digits(cs@.subrange(i as int, j as int)) && (j < cs@.len() ==> !('0' <= cs@[j as int] <= '9'))
            && (j < cs@.len() && cs@[j as int] == ' ' ==> j == first_space(cs@, i as int)),
        ({
            let t = num_text(x0 as nat);
            i + t.len() <= cs@.len() && cs@.subrange(i as int, i + t.len()) == t && (i + t.len() == cs@.len()
                || cs@[i + t.len()] == ' ')
        }) ==> r == Some((x0, (i + num_text(x0 as nat).len()) as usize)),
{
    let ghost t = num_text(x0 as nat);
    let ghost canon = i + t.len() <= cs@.len() && cs@.subrange(i as int, i + t.len()) == t && (i + t.len() == cs@.len()
        || cs@[i + t.len()] == ' ');
    proof { lemma_num_text(x0 as nat); }
    let mut j = i;
    let mut v: u32 = 0;
    assert(cs@.subrange(i as int, i as int) =~= Seq::<char>::empty());
    while j < cs.len() && '0' <= cs[j] && cs[j] <= '9'
        invariant
            i <= j <= cs@.len(),
            t == num_text(x0 as nat),
            all_digits(t),
            dec_value(t) == x0,
            canon == (i + t.len() <= cs@.len() && cs@.subrange(i as int, i + t.len()) == t && (i + t.len() == cs@.len()
                || cs@[i + t.len()] == ' ')),
            canon ==> j <= i + t.len() && cs@.subrange(i as int, j as int) == t.subrange(0, j - i),
            all_digits(cs@.subrange(i as int, j as int)),
            first_space(cs@, i as int) == first_space(cs@, j as int),
            v == dec_value(cs@.subrange(i as int, j as int)),
        decreases cs@.len() - j,
    {
        let d = (cs[j] as u32) - ('0' as u32);
        let ghost w1 = cs@.subrange(i as int, j + 1);
        proof {
            assert(w1.drop_last() =~= cs@.subrange(i as int, j as int));
            assert(dec_value(w1) == v * 10 + d);
            if canon {
                if j == i + t.len() {
                    assert(false);
                }
                assert(w1 =~= t.subrange(0, j + 1 - i));
                lemma_dec_prefix(t, j + 1 - i);
                assert(v * 10 + d <= u32::MAX);
                assert(v <= (u32::MAX - d) / 10) by (nonlinear_arith)
                    requires
                        v * 10 + d <= u32::MAX,
                        d <= 9,
                ;
            }
        }
        if v > (u32::MAX - d) / 10 {
            return None;
        }
        proof {
            assert(v * 10 + d <= u32::MAX) by (nonlinear_arith)
                requires
                    v <= (u32::MAX - d) / 10,
                    d <= 9,
            ;
        }
        v = v * 10 + d;
        proof {
            assert(cs@.subrange(i as int, j + 1) =~= cs@.subrange(i as int, j as int).push(cs@[j as int]));
        }
        j += 1;
    }
    if j == i {
        proof {
            if canon {
                assert(cs@[i as int] == t[0]);
            }
        }
        None
    } else {
        proof {
            if canon {
                if j < i + t.len() {
                    assert(cs@[j as int] == t[j - i]);
                }
                assert(cs@.subrange(i as int, j as int) =~= t);
            }
        }
        Some((v, j))
    }
}

fn fen_error() -> (r: ChessError) {
    ChessError::UnknownError("invalid FEN".to_string())
}

/// Where each field of `fen_of(u)` starts.
pub open spec fn side_at(u: ChessView) -> int {
    placement(u.board, 0).len() as int + 1
}

pub open spec fn castling_at(u: ChessView) -> int {
    side_at(u) + 2
}

pub open spec fn ep_at(u: ChessView) -> int {
    castling_at(u) + castling_text(u.castling_rights).len() + 1
}

pub open spec fn half_at(u: ChessView) -> int {
    ep_at(u) + ep_text(u.en_passant_sq).len() + 1
}

pub open spec fn full_at(u: ChessView) -> int {
    half_at(u) + num_text(u.half_moves as nat).len() + 1
}

proof fn lemma_fen_layout(u: ChessView)
    requires
        super::basic_wf(u),
    ensures
        ({
            let s = fen_of(u);
            let c = castling_text(u.castling_rights);
            let e = ep_text(u.en_passant_sq);
            let h = num_text(u.half_moves as nat);
            let f = num_text(u.full_moves as nat);
            &&& starts_with_placement(s, u.board)
            &&& s[side_at(u)] == (if u.turn == Color::WHITE { 'w' } else { 'b' })
            &&& s[side_at(u) + 1] == ' '
            &&& s.subrange(castling_at(u), castling_at(u) + c.len()) == c
            &&& s[castling_at(u) + c.len()] == ' '
            &&& s.subrange(ep_at(u), ep_at(u) + e.len()) == e
            &&& s[ep_at(u) + e.len()] == ' '
            &&& s.subrange(half_at(u), half_at(u) + h.len()) == h
            &&& s[half_at(u) + h.len()] == ' '
            &&& s.subrange(full_at(u), full_at(u) + f.len()) == f
            &&& s.len() == full_at(u) + f.len()
        }),
{
    let s = fen_of(u);
    let p = placement(u.board, 0);
    let side = if u.turn == Color::WHITE { seq!['w'] } else { seq!['b'] };
    let c = castling_text(u.castling_rights);
    let e = ep_text(u.en_passant_sq);
    let h = num_text(u.half_moves as nat);
    let f = num_text(u.full_moves as nat);
    let sp = seq![' '];
    assert(s =~= p + sp + side + sp + c + sp + e + sp + h + sp + f);
    assert(s.subrange(0, p.len() as int) =~= p);
    assert(s.subrange(castling_at(u), castling_at(u) + c.len()) =~= c);
    assert(s.subrange(ep_at(u), ep_at(u) + e.len()) =~= e);
    assert(s.subrange(half_at(u), half_at(u) + h.len()) =~= h);
    assert(s.subrange(full_at(u), full_at(u) + f.len()) =~= f);
}

impl Chess {
    /// Replaces the state by the position of a FEN string: placement (eight ranks of eight
    /// files, known piece letters), side to move, castling rights (none for a side without a
    /// king), en-passant target, clocks. The history is emptied and the repetition ledger
    /// counts this position once. An invalid string changes nothing. A string that is the
    /// FEN of some state is read back so that `get_fen` gives the same string.
    #[verifier::spinoff_prover]
    #[verifier::rlimit(90)]
    pub fn load_fen(&mut self, fen: &str) -> (r: ChessResult<()>)
        requires
            old(self).wf(),
        ensures
            final(self).wf(),
            r is Err ==> final(self)@ == old(self)@,
            r is Ok ==> final(self)@.history.len() == 0 && final(self)@.positions == seq![key_of(final(self)@)]
                && final(self)@.white_captures.len() == 0 && final(self)@.black_captures.len() == 0,
            r is Ok && fen_text(fen@) ==> fen_of(final(self)@) == fen@,
            loadable_fen(fen@) ==> r is Ok,
            r is Ok ==> fen_shape_ok(fen@) && rights_backed(final(self)@)
                && castling_field_ok(fen@, first_space(fen@, 0) + 3, final(self)@.castling_rights)
                && ep_field_ok(fen@, first_space(fen@, first_space(fen@, 0) + 3) + 1, final(self)@.en_passant_sq)
                && clocks_ok(fen@, final(self)@.half_moves, final(self)@.full_moves)
                && final(self)@.turn == (if fen@[first_space(fen@, 0) + 1] == 'w' { Color::WHITE } else { Color::BLACK }),
    {
        let cs = chars_of(fen);
        let n = cs.len();
        let ghost u = if loadable_fen(fen@) {
            choose|u: ChessView| super::basic_wf(u) && rights_backed(u) && fen_of(u) == fen@
        } else {
            choose|u: ChessView| super::basic_wf(u) && fen_of(u) == fen@
        };
        let ghost canon = fen_text(fen@);
        assert(loadable_fen(fen@) ==> canon);
        proof {
            if canon {
                lemma_fen_layout(u);
            }
        }
        let (board, i) = match parse_placement(&cs, Ghost(u.board)) {
            Some(x) => x,
            None => {
                return Err(fen_error());
            },
        };
        if n - i < 3 || cs[i + 2] != ' ' {
            return Err(fen_error());
        }
        let turn = if cs[i + 1] == 'w' {
            Color::WHITE
        } else if cs[i + 1] == 'b' {
            Color::BLACK
        } else {
            return Err(fen_error());
        };
        let (rights, j) = match parse_castling(&cs, i + 3, Ghost(u.castling_rights)) {
            Some(x) => x,
            None => {
                return Err(fen_error());
            },
        };
        let (ep, k) = match parse_ep(&cs, j + 1, Ghost(u.en_passant_sq)) {
            Some(x) => x,
            None => {
                return Err(fen_error());
            },
        };
        let (half, l) = match parse_num(&cs, k + 1, Ghost(u.half_moves)) {
            Some(x) => x,
            None => {
                return Err(fen_error());
            },
        };
        if l >= n || cs[l] != ' ' {
            return Err(fen_error());
        }
        let (full, m) = match parse_num(&cs, l + 1, Ghost(u.full_moves)) {
            Some(x) => x,
            None => {
                return Err(fen_error());
            },
        };
        if m != n {
            return Err(fen_error());
        }
        let wk = find_king(&board, Color::WHITE);
        let bk = find_king(&board, Color::BLACK);
        proof {
            if loadable_fen(fen@) {
                if let Some(ks) = u.kings.white {
                    assert(super::holds(board._board@, ks as int, PieceType::KING, Color::WHITE));
                }
                if let Some(ks) = u.kings.black {
                    assert(super::holds(board._board@, ks as int, PieceType::KING, Color::BLACK));
                }
            }
        }
        if (rights.white.kingside || rights.white.queenside) && wk.is_none() {
            return Err(fen_error());
        }
        if (rights.black.kingside || rights.black.queenside) && bk.is_none() {
            return Err(fen_error());
        }
        let mut g = Chess {
            board,
            turn,
            kings: Kings { white: wk, black: bk },
            castling_rights: rights,
            history: MoveHistory::new(),
            white_captures: Vec::new(),
            black_captures: Vec::new(),
            half_moves: half,
            full_moves: full,
            en_passant_sq: ep,
            positions: Vec::new(),
        };
        let key = g.position_key();
        g.positions.push(key);
        assert(g@.positions =~= seq![key_of(g@)]);
        proof {
            if canon {
                assert(key_of(g@) == key_of(u));
                assert(fen_of(g@) == fen_of(u));
            }
        }
        *self = g;
        Ok(())
    }
}

} // verus!


verus! {

/// The number of empty squares in row `row` from file `f` up to the next piece.
pub open spec fn run_len(b: Seq<Square>, row: int, f: int) -> nat
    decreases 8 - f,
{
    if f >= 8 || b[16 * row + f].piece is Some {
        0
    } else {
        1 + run_len(b, row, f + 1)
    }
}

proof fn lemma_run_facts(b: Seq<Square>, row: int, f: int, r: nat)
    requires
        0 <= f <= 8,
    ensures
        f + run_len(b, row, f) <= 8,
        forall|j: int| f <= j < f + run_len(b, row, f) ==> #[trigger] b[16 * row + j].piece is None,
        f + run_len(b, row, f) < 8 ==> b[16 * row + f + run_len(b, row, f)].piece is Some,
        row_fen(b, row, f, r) == row_fen(b, row, f + run_len(b, row, f), r + run_len(b, row, f)),
    decreases 8 - f,
{
    if f < 8 && b[16 * row + f].piece is None {
        lemma_run_facts(b, row, f + 1, r + 1);
    }
}

proof fn lemma_row_after_run(b: Seq<Square>, row: int, g: int, k: nat)
    requires
        k >= 1,
        0 <= g <= 8,
        g >= 8 || b[16 * row + g].piece is Some,
    ensures
        row_fen(b, row, g, k) == seq![digit(k as int)] + row_fen(b, row, g, 0),
{
    if g >= 8 {
        assert(row_fen(b, row, g, 0) =~= Seq::<char>::empty());
        assert(row_fen(b, row, g, k) =~= seq![digit(k as int)] + row_fen(b, row, g, 0));
    } else {
        let p = b[16 * row + g].piece.unwrap();
        assert(row_fen(b, row, g, 0) =~= seq![piece_char(p)] + row_fen(b, row, g + 1, 0));
        assert(row_fen(b, row, g, k) =~= seq![digit(k as int)] + row_fen(b, row, g, 0));
    }
}

proof fn lemma_char_piece(p: Piece)
    ensures
        char_piece(piece_char(p)) == Some(p),
        piece_char(p) != '/' && piece_char(p) != ' ',
        !('1' <= piece_char(p) <= '8'),
{
}

/// The text left of the placement field once rows before `row` and files before `f` of
/// `row` have been read.
pub open spec fn placement_rest(b: Seq<Square>, row: int, f: int) -> Seq<char> {
    row_fen(b, row, f, 0) + (if row < 7 { seq!['/'] + placement(b, row + 1) } else { Seq::empty() })
}

/// `s` starts with the placement field of `vb`, followed by a space.
pub open spec fn starts_with_placement(s: Seq<char>, vb: Seq<Square>) -> bool {
    let p = placement(vb, 0);
    &&& vb.len() == 128
    &&& super::offboard_empty(vb)
    &&& p.len() < s.len()
    &&& s.subrange(0, p.len() as int) == p
    &&& s[p.len() as int] == ' '
}

/// Slot `sq` of the board is in a row before `row`, or in `row` before file `f`.
pub open spec fn read_before(sq: int, row: int, f: int) -> bool {
    sq / 16 < row || (sq / 16 == row && sq % 16 < f)
}

proof fn lemma_placement_start(b: Seq<Square>, row: int)
    requires
        0 <= row < 8,
    ensures
        placement(b, row) == placement_rest(b, row, 0),
{
    if row < 7 {
        assert(placement(b, row) =~= placement_rest(b, row, 0));
    } else {
        assert(placement(b, row) =~= placement_rest(b, row, 0));
    }
}

/// Reads the placement field: eight ranks of eight files separated by `/`, each a run of
/// piece letters and digits for empty squares. Returns the board and the index of the
/// space after the field. When the text starts with the placement field of `vb`, the
/// board read is `vb`.
fn parse_placement(cs: &Vec<char>, Ghost(vb): Ghost<Seq<Square>>) -> (r: Option<(Board, usize)>)
    ensures
        r matches Some((b, i)) ==> b.wf() && super::offboard_empty(b._board@) && i < cs@.len() && cs@[i as int] == ' '
            && (starts_with_placement(cs@, vb) ==> b._board@ == vb && i == placement(vb, 0).len())
            && placement_ok(cs@, 0, 0) && i == first_space(cs@, 0),
        starts_with_placement(cs@, vb) ==> r is Some,
{
    let ghost s = cs@;
    let ghost canon = starts_with_placement(s, vb);
    let ghost total = placement(vb, 0);
    let n = cs.len();
    let mut board = Board::new();
    let mut i: usize = 0;
    let mut row: usize = 0;
    let mut f: usize = 0;
    proof {
        if canon {
            lemma_placement_start(vb, 0);
        }
        assert(s.subrange(0, n as int) =~= s);
    }
    while i < n && cs[i] != ' '
        invariant
            board.wf(),
            super::offboard_empty(board._board@),
            s == cs@,
            n == cs@.len(),
            total == placement(vb, 0),
            placement_ok(s.subrange(i as int, n as int), row as int, f as int) ==> placement_ok(s, 0, 0),
            first_space(s, 0) == first_space(s, i as int),
            canon == starts_with_placement(s, vb),
            i <= n,
            row <= 7,
            f <= 8,
            canon ==> i <= total.len() && total.subrange(i as int, total.len() as int) == placement_rest(vb, row as int, f as int),
            canon ==> forall|sq: int| 0 <= sq < 128 && on_board(sq) ==> (if read_before(sq, row as int, f as int) {
                board._board@[sq] == vb[sq]
            } else {
                board._board@[sq].piece is None
            }),
        decreases n - i,
    {
        let c = cs[i];
        let ghost rest = placement_rest(vb, row as int, f as int);
        let ghost row0 = row as int;
        let ghost f0 = f as int;
        proof {
            assert(s.subrange(i as int, n as int).subrange(1, n - i) =~= s.subrange(i + 1, n as int));
            assert(s.subrange(i as int, n as int)[0] == c);
        }
        proof {
            if canon {
                if i == total.len() {
                    assert(false);
                }
                assert(s[i as int] == total[i as int]);
                assert(rest.len() > 0);
                assert(c == rest[0]);
                lemma_run_facts(vb, row as int, f as int, 0);
                if f < 8 {
                    let k = run_len(vb, row as int, f as int);
                    if k >= 1 {
                        lemma_row_after_run(vb, row as int, f + k, k);
                        assert(rest =~= seq![digit(k as int)] + placement_rest(vb, row as int, f + k));
                        assert(c == digit(k as int));
                    } else {
                        let q = vb[16 * row + f].piece.unwrap();
                        lemma_char_piece(q);
                        assert(row_fen(vb, row as int, f as int, 0) =~= seq![piece_char(q)] + row_fen(vb, row as int, f + 1, 0));
                        assert(rest =~= seq![piece_char(q)] + placement_rest(vb, row as int, f + 1));
                        assert(c == piece_char(q));
                    }
                } else {
                    assert(row_fen(vb, row as int, f as int, 0) =~= Seq::<char>::empty());
                    if row == 7 {
                        assert(rest =~= Seq::<char>::empty());
                    }
                    assert(rest =~= seq!['/'] + placement(vb, row + 1));
                    assert(c == '/');
                }
            }
        }
        if c == '/' {
            if f != 8 || row >= 7 {
                return None;
            }
            proof {
                if canon {
                    assert(rest =~= seq!['/'] + placement(vb, row + 1));
                    lemma_placement_start(vb, row + 1);
                    assert(total.subrange(i + 1, total.len() as int) =~= rest.subrange(1, rest.len() as int));
                    assert forall|sq: int| 0 <= sq < 128 && on_board(sq) implies (read_before(sq, row + 1, 0)
                        <==> #[trigger] read_before(sq, row as int, f as int)) by {}
                }
            }
            row += 1;
            f = 0;
        } else if '1' <= c && c <= '8' {
            let d = (c as u32 - '0' as u32) as usize;
            if f + d > 8 {
                return None;
            }
            proof {
                if canon {
                    let k = run_len(vb, row as int, f as int);
                    if k == 0 {
                        let p = vb[16 * row + f].piece.unwrap();
                        lemma_char_piece(p);
                        assert(rest =~= seq![piece_char(p)] + (row_fen(vb, row as int, f + 1, 0) + rest.subrange(
                            row_fen(vb, row as int, f as int, 0).len() as int,
                            rest.len() as int,
                        )));
                        assert(false);
                    }
                    lemma_row_after_run(vb, row as int, f + k, k);
                    assert(digit(k as int) == c);
                    assert(d == k);
                    let tail = if row < 7 { seq!['/'] + placement(vb, row + 1) } else { Seq::<char>::empty() };
                    assert(rest =~= seq![c] + placement_rest(vb, row as int, f + d));
                    assert(total.subrange(i + 1, total.len() as int) =~= rest.subrange(1, rest.len() as int));
                    assert forall|sq: int| 0 <= sq < 128 && on_board(sq) && read_before(sq, row as int, f + d)
                        && !read_before(sq, row as int, f as int) implies vb[sq].piece is None by {
                        let j = sq % 16;
                        assert(sq == 16 * row + j);
                        assert(vb[16 * row + j].piece is None);
                    }
                }
            }
            f += d;
        } else {
            match fen_piece(c) {
                Some(p) => {
                    if f >= 8 {
                        return None;
                    }
                    proof {
                        if canon {
                            let k = run_len(vb, row as int, f as int);
                            if k > 0 {
                                lemma_row_after_run(vb, row as int, f + k, k);
                                assert(rest[0] == digit(k as int));
                                assert(false);
                            }
                            let q = vb[16 * row + f].piece.unwrap();
                            lemma_char_piece(q);
                            assert(row_fen(vb, row as int, f as int, 0) =~= seq![piece_char(q)] + row_fen(vb, row as int, f + 1, 0));
                            assert(rest =~= seq![piece_char(q)] + placement_rest(vb, row as int, f + 1));
                            assert(p == q);
                            assert(total.subrange(i + 1, total.len() as int) =~= rest.subrange(1, rest.len() as int));
                        }
                    }
                    let ghost before = board._board@;
                    board._board.set(16 * row + f, Square { piece: Some(p) });
                    proof {
                        if canon {
                            assert forall|sq: int| 0 <= sq < 128 && on_board(sq) implies (if read_before(sq, row as int, f + 1) {
                                board._board@[sq] == vb[sq]
                            } else {
                                board._board@[sq].piece is None
                            }) by {
                                if sq == 16 * row + f {
                                    assert(board._board@[sq] == vb[sq]);
                                } else {
                                    assert(board._board@[sq] == before[sq]);
                                    assert(read_before(sq, row as int, f + 1) == read_before(sq, row as int, f as int));
                                }
                            }
                        }
                    }
                    f += 1;
                },
                None => {
                    return None;
                },
            }
        }
        i += 1;
    }
    proof {
        if canon {
            if i < n && (row != 7 || f != 8) {
                assert(s[i as int] == ' ');
                if i == total.len() {
                    lemma_run_facts(vb, row as int, f as int, 0);
                    if f < 8 {
                        let k = run_len(vb, row as int, f as int);
                        if k >= 1 {
                            lemma_row_after_run(vb, row as int, f + k, k);
                        }
                        assert(row_fen(vb, row as int, f as int, 0).len() > 0);
                    }
                    assert(placement_rest(vb, row as int, f as int).len() > 0);
                    assert(false);
                }
                assert(s[i as int] == total[i as int]);
                let rest = placement_rest(vb, row as int, f as int);
                lemma_run_facts(vb, row as int, f as int, 0);
                if f < 8 {
                    let k = run_len(vb, row as int, f as int);
                    if k >= 1 {
                        lemma_row_after_run(vb, row as int, f + k, k);
                        assert(rest =~= seq![digit(k as int)] + placement_rest(vb, row as int, f + k));
                    } else {
                        let q = vb[16 * row + f].piece.unwrap();
                        lemma_char_piece(q);
                        assert(row_fen(vb, row as int, f as int, 0) =~= seq![piece_char(q)] + row_fen(vb, row as int, f + 1, 0));
                        assert(rest =~= seq![piece_char(q)] + placement_rest(vb, row as int, f + 1));
                    }
                } else {
                    assert(row_fen(vb, row as int, f as int, 0) =~= Seq::<char>::empty());
                    assert(rest =~= seq!['/'] + placement(vb, row + 1));
                }
                assert(s[i as int] == rest[0]);
            }
            if i >= n {
                assert(i <= total.len());
            }
        }
    }
    if row != 7 || f != 8 || i >= n {
        return None;
    }
    proof {
        if canon {
            assert(placement_rest(vb, 7, 8) =~= Seq::<char>::empty());
            assert(board._board@ =~= vb) by {
                assert forall|sq: int| 0 <= sq < 128 implies board._board@[sq] == vb[sq] by {
                    if !on_board(sq) {
                        assert(vb[sq].piece is None);
                        assert(board._board@[sq].piece is None);
                    } else {
                        assert(read_before(sq, 7, 8));
                    }
                }
            }
        }
    }
    Some((board, i))
}

} // verus!

verus! {

/// The rights named by the letters of `w`.
pub open spec fn rights_of_chars(w: Seq<char>) -> CastlingRights {
    CastlingRights {
        white: Castling { kingside: w.contains('K'), queenside: w.contains('Q') },
        black: Castling { kingside: w.contains('k'), queenside: w.contains('q') },
    }
}

pub open spec fn castling_char(c: char) -> bool {
    c == 'K' || c == 'Q' || c == 'k' || c == 'q'
}

proof fn lemma_castling_text(r: CastlingRights)
    ensures
        castling_text(r).len() >= 1,
        castling_text(r)[0] == '-' ==> castling_text(r) == seq!['-'] && r == (CastlingRights {
            white: Castling { kingside: false, queenside: false },
            black: Castling { kingside: false, queenside: false },
        }),
        castling_text(r)[0] != '-' ==> rights_of_chars(castling_text(r)) == r && forall|i: int|
            0 <= i < castling_text(r).len() ==> castling_char(#[trigger] castling_text(r)[i]),
{
    let t = castling_text(r);
    if r.white.kingside && r.white.queenside && r.black.kingside && r.black.queenside {
        assert(t =~= seq!['K', 'Q', 'k', 'q']);
        assert(t[0] == 'K');
        assert(t[1] == 'Q');
        assert(t[2] == 'k');
        assert(t[3] == 'q');
    }
    if r.white.kingside && r.white.queenside && r.black.kingside && !r.black.queenside {
        assert(t =~= seq!['K', 'Q', 'k']);
        assert(t[0] == 'K');
        assert(t[1] == 'Q');
        assert(t[2] == 'k');
    }
    if r.white.kingside && r.white.queenside && !r.black.kingside && r.black.queenside {
        assert(t =~= seq!['K', 'Q', 'q']);
        assert(t[0] == 'K');
        assert(t[1] == 'Q');
        assert(t[2] == 'q');
    }
    if r.white.kingside && r.white.queenside && !r.black.kingside && !r.black.queenside {
        assert(t =~= seq!['K', 'Q']);
        assert(t[0] == 'K');
        assert(t[1] == 'Q');
    }
    if r.white.kingside && !r.white.queenside && r.black.kingside && r.black.queenside {
        assert(t =~= seq!['K', 'k', 'q']);
        assert(t[0] == 'K');
        assert(t[1] == 'k');
        assert(t[2] == 'q');
    }
    if r.white.kingside && !r.white.queenside && r.black.kingside && !r.black.queenside {
        assert(t =~= seq!['K', 'k']);
        assert(t[0] == 'K');
        assert(t[1] == 'k');
    }
    if r.white.kingside && !r.white.queenside && !r.black.kingside && r.black.queenside {
        assert(t =~= seq!['K', 'q']);
        assert(t[0] == 'K');
        assert(t[1] == 'q');
    }
    if r.white.kingside && !r.white.queenside && !r.black.kingside && !r.black.queenside {
        assert(t =~= seq!['K']);
        assert(t[0] == 'K');
    }
    if !r.white.kingside && r.white.queenside && r.black.kingside && r.black.queenside {
        assert(t =~= seq!['Q', 'k', 'q']);
        assert(t[0] == 'Q');
        assert(t[1] == 'k');
        assert(t[2] == 'q');
    }
    if !r.white.kingside && r.white.queenside && r.black.kingside && !r.black.queenside {
        assert(t =~= seq!['Q', 'k']);
        assert(t[0] == 'Q');
        assert(t[1] == 'k');
    }
    if !r.white.kingside && r.white.queenside && !r.black.kingside && r.black.queenside {
        assert(t =~= seq!['Q', 'q']);
        assert(t[0] == 'Q');
        assert(t[1] == 'q');
    }
    if !r.white.kingside && r.white.queenside && !r.black.kingside && !r.black.queenside {
        assert(t =~= seq!['Q']);
        assert(t[0] == 'Q');
    }
    if !r.white.kingside && !r.white.queenside && r.black.kingside && r.black.queenside {
        assert(t =~= seq!['k', 'q']);
        assert(t[0] == 'k');
        assert(t[1] == 'q');
    }
    if !r.white.kingside && !r.white.queenside && r.black.kingside && !r.black.queenside {
        assert(t =~= seq!['k']);
        assert(t[0] == 'k');
    }
    if !r.white.kingside && !r.white.queenside && !r.black.kingside && r.black.queenside {
        assert(t =~= seq!['q']);
        assert(t[0] == 'q');
    }
    if !r.white.kingside && !r.white.queenside && !r.black.kingside && !r.black.queenside {
        assert(t =~= seq!['-']);
        assert(t[0] == '-');
    }
    if t[0] != '-' {
        assert(t.contains('K') == r.white.kingside);
        assert(t.contains('Q') == r.white.queenside);
        assert(t.contains('k') == r.black.kingside);
        assert(t.contains('q') == r.black.queenside);
    }
}

/// Reads the castling field starting at `start`: `-`, or letters among `K`, `Q`, `k`, `q`.
/// Returns the rights and the index of the space after the field. When the text there is
/// the castling field of `r0` followed by a space, the rights read are `r0`.
fn parse_castling(cs: &Vec<char>, start: usize, Ghost(r0): Ghost<CastlingRights>) -> (r: Option<(CastlingRights, usize)>)
    requires
        start <= cs@.len(),
    ensures
        r matches Some((rights, j)) ==> start < j < cs@.len() && cs@[j as int] == ' ' && castling_field_ok(cs@, start as int, rights)
            && j == first_space(cs@, start as int),
        ({
            let t = castling_text(r0);
            start + t.len() < cs@.len() && cs@.subrange(start as int, start + t.len()) == t && cs@[start + t.len()] == ' '
        }) ==> r == Some((r0, (start + castling_text(r0).len()) as usize)),
{
    let ghost t = castling_text(r0);
    let ghost canon = start + t.len() < cs@.len() && cs@.subrange(start as int, start + t.len()) == t && cs@[start + t.len()] == ' ';
    proof { lemma_castling_text(r0); }
    let n = cs.len();
    if start >= n {
        return None;
    }
    if cs[start] == '-' {
        if start + 1 >= n || cs[start + 1] != ' ' {
            return None;
        }
        proof {
            if canon {
                assert(t[0] == cs@[start as int]);
            }
        }
        let none = CastlingRights {
            white: Castling { kingside: false, queenside: false },
            black: Castling { kingside: false, queenside: false },
        };
        assert(first_space(cs@, start as int) == first_space(cs@, start + 1));
        return Some((none, start + 1));
    }
    let mut rights = CastlingRights {
        white: Castling { kingside: false, queenside: false },
        black: Castling { kingside: false, queenside: false },
    };
    let mut i = start;
    proof {
        if canon {
            assert(t[0] == cs@[start as int]);
        }
        assert(cs@.subrange(start as int, start as int) =~= Seq::<char>::empty());
    }
    while i < n && cs[i] != ' '
        invariant
            n == cs@.len(),
            start < n,
            start <= i <= n,
            t == castling_text(r0),
            canon == (start + t.len() < cs@.len() && cs@.subrange(start as int, start + t.len()) == t && cs@[start + t.len()] == ' '),
            canon ==> t[0] != '-' && i <= start + t.len(),
            canon ==> rights_of_chars(t) == r0 && forall|k: int| 0 <= k < t.len() ==> castling_char(#[trigger] t[k]),
            forall|k: int| start <= k < i ==> castling_char(#[trigger] cs@[k]),
            first_space(cs@, start as int) == first_space(cs@, i as int),
            rights == rights_of_chars(cs@.subrange(start as int, i as int)),
        decreases n - i,
    {
        let c = cs[i];
        if !(c == 'K' || c == 'Q' || c == 'k' || c == 'q') {
            proof {
                if canon {
                    if i < start + t.len() {
                        assert(cs@[i as int] == t[i - start]);
                        assert(castling_char(t[i - start]));
                    }
                }
            }
            return None;
        }
        if c == 'K' {
            rights.white.kingside = true;
        } else if c == 'Q' {
            rights.white.queenside = true;
        } else if c == 'k' {
            rights.black.kingside = true;
        } else {
            rights.black.queenside = true;
        }
        proof {
            let w0 = cs@.subrange(start as int, i as int);
            let w1 = cs@.subrange(start as int, i + 1);
            assert(w1 =~= w0.push(c));
            assert(w1[(i - start) as int] == c);
            assert(w1.contains(c));
            assert forall|x: char| x != c implies (w1.contains(x) == w0.contains(x)) by {
                if w1.contains(x) {
                    let k = choose|k: int| 0 <= k < w1.len() && w1[k] == x;
                    assert(w0[k] == x);
                }
                if w0.contains(x) {
                    let k = choose|k: int| 0 <= k < w0.len() && w0[k] == x;
                    assert(w1[k] == x);
                }
            }
            if canon {
                if i == start + t.len() {
                    assert(false);
                }
            }
        }
        i += 1;
    }
    if i >= n || i == start {
        proof {
            if canon {
                assert(cs@[start as int] == t[0]);
                assert(castling_char(t[0]));
            }
        }
        return None;
    }
    proof {
        if canon {
            if i < start + t.len() {
                assert(cs@[i as int] == t[i - start]);
                assert(castling_char(t[i - start]));
            }
            assert(cs@.subrange(start as int, i as int) == t);
        }
    }
    Some((rights, i))
}

/// Reads the en-passant field at `start`: `-` or a square. Returns it and the index of the
/// space after it. When the text there is the field of `e0` followed by a space, the value
/// read is `e0`.
fn parse_ep(cs: &Vec<char>, start: usize, Ghost(e0): Ghost<Option<SquareCoordinate>>) -> (r: Option<(Option<SquareCoordinate>, usize)>)
    requires
        start <= cs@.len(),
    ensures
        r matches Some((ep, j)) ==> start < j < cs@.len() && cs@[j as int] == ' ' && (ep matches Some(sq) ==> on_board(sq_index(sq)))
            && ep_field_ok(cs@, start as int, ep) && j == first_space(cs@, start as int),
        ({
            let t = ep_text(e0);
            (e0 matches Some(sq) ==> on_board(sq_index(sq))) && start + t.len() < cs@.len() && cs@.subrange(start as int, start + t.len()) == t && cs@[start + t.len()] == ' '
        }) ==> r == Some((e0, (start + ep_text(e0).len()) as usize)),
{
    let ghost t = ep_text(e0);
    let ghost canon = (e0 matches Some(sq) ==> on_board(sq_index(sq))) && start + t.len() < cs@.len() && cs@.subrange(start as int, start + t.len()) == t && cs@[start + t.len()] == ' ';
    let n = cs.len();
    if start >= n {
        return None;
    }
    proof {
        if canon {
            assert(cs@[start as int] == t[0]);
        }
    }
    if cs[start] == '-' {
        if start + 1 >= n || cs[start + 1] != ' ' {
            return None;
        }
        assert(first_space(cs@, start as int) == first_space(cs@, start + 1));
        return Some((None, start + 1));
    }
    if n - start < 3 {
        return None;
    }
    let fc = cs[start];
    let rc = cs[start + 1];
    if !('a' <= fc && fc <= 'h' && '1' <= rc && rc <= '8') || cs[start + 2] != ' ' {
        return None;
    }
    let file = (fc as u32 - 'a' as u32) as usize;
    let rank = (rc as u32 - '0' as u32) as usize;
    let idx = 16 * (8 - rank) + file;
    proof {
        lemma_coord_round_trip(idx as int);
        if canon {
            let sq = e0.unwrap();
            lemma_index_round_trip(sq);
            assert(cs@[start + 1] == t[1]);
            assert(idx == sq_index(sq));
        }
    }
    assert(first_space(cs@, start as int) == first_space(cs@, start + 1));
    assert(first_space(cs@, start + 1) == first_space(cs@, start + 2));
    Some((Some(to_coordinate(idx as u8)), start + 2))
}

/// The value of a string of decimal digits.
pub open spec fn dec_value(w: Seq<char>) -> nat
    decreases w.len(),
{
    if w.len() == 0 {
        0
    } else {
        dec_value(w.drop_last()) * 10 + (w.last() as nat - '0' as nat) as nat
    }
}

pub open spec fn all_digits(w: Seq<char>) -> bool {
    forall|i: int| 0 <= i < w.len() ==> '0' <= #[trigger] w[i] <= '9'
}

proof fn lemma_num_text(x: nat)
    ensures
        num_text(x).len() >= 1,
        all_digits(num_text(x)),
        dec_value(num_text(x)) == x,
    decreases x,
{
    let t = num_text(x);
    if x >= 10 {
        lemma_num_text(x / 10);
        assert(t.drop_last() =~= num_text(x / 10));
        assert(t.last() == digit((x % 10) as int));
        assert(t.last() as nat - '0' as nat == x % 10);
        assert(dec_value(t) == dec_value(num_text(x / 10)) * 10 + x % 10);
        assert((x / 10) * 10 + x % 10 == x);
    } else {
        assert(t.drop_last() =~= Seq::<char>::empty());
        assert(t.last() == digit(x as int));
        assert(dec_value(t) == dec_value(t.drop_last()) * 10 + (t.last() as nat - '0' as nat) as nat);
    }
}

proof fn lemma_dec_prefix(w: Seq<char>, m: int)
    requires
        all_digits(w),
        0 <= m <= w.len(),
    ensures
        dec_value(w.subrange(0, m)) <= dec_value(w),
    decreases w.len() - m,
{
    if m < w.len() {
        lemma_dec_prefix(w, m + 1);
        let a = w.subrange(0, m + 1);
        assert(a.drop_last() =~= w.subrange(0, m));
    } else {
        assert(w.subrange(0, m) =~= w);
    }
}

} // verus!

verus! {

/// `t` starts with a placement field followed by a space: ranks of piece letters and
/// digits `1`-`8` (runs of empty squares), each exactly eight files wide, eight ranks
/// separated by `/`. `row` ranks and `f` files of the current rank are already read.
pub open spec fn placement_ok(t: Seq<char>, row: int, f: int) -> bool
    decreases t.len(),
{
    if t.len() == 0 {
        false
    } else {
        let c = t[0];
        let rest = t.subrange(1, t.len() as int);
        if c == ' ' {
            row == 7 && f == 8
        } else if c == '/' {
            f == 8 && row < 7 && placement_ok(rest, row + 1, 0)
        } else if '1' <= c <= '8' {
            f + (c as int - '0' as int) <= 8 && placement_ok(rest, row, f + (c as int - '0' as int))
        } else if char_piece(c) is Some {
            f < 8 && placement_ok(rest, row, f + 1)
        } else {
            false
        }
    }
}

/// The index of the first space of `s` at or after `i` (the length when none).
pub open spec fn first_space(s: Seq<char>, i: int) -> int
    decreases s.len() - i,
{
    if i >= s.len() || i < 0 {
        s.len() as int
    } else if s[i] == ' ' {
        i
    } else {
        first_space(s, i + 1)
    }
}

} // verus!
