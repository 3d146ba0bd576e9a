//! One game position together with the repetition history needed to detect
//! threefold draws, and the classification of a position as ongoing, won,
//! or drawn.
//!
//! A `Game` value is never mutated in place except by `make_move`, which
//! also hands back a fresh copy of the new state, so older states stay
//! valid for concurrent readers.

use vstd::prelude::*;

use crate::board::{
    apply_move, board_after, board_from_fen, board_hash, board_in_check, board_moves,
    board_squares, board_status, board_white_to_move, hash_of, in_check, legal_move_list,
    move_is_legal, piece_on_square, start_board, white_to_move, Color, GenStatus, Piece,
};
use crate::counts::CountTable;
use vstd::string::{StrSliceExecFns, StringExecFns};

verus! {

/// The outcome of a finished game.
#[derive(Debug, PartialEq, Eq, Structural, Clone, Copy)]
pub enum GameResult {
    WhiteWin,
    BlackWin,
    Draw,
}

/// How often `h` occurs in `s`.
pub open spec fn occ(s: Seq<u64>, h: u64) -> nat
    decreases s.len(),
{
    if s.len() == 0 {
        0
    } else {
        occ(s.drop_last(), h) + if s.last() == h {
            1nat
        } else {
            0nat
        }
    }
}

pub proof fn lemma_occ_push(s: Seq<u64>, x: u64, h: u64)
    ensures
        occ(s.push(x), h) == occ(s, h) + (if h == x {
            1int
        } else {
            0int
        }),
{
    assert(s.push(x).drop_last() =~= s);
    assert(s.push(x).last() == x);
}

pub proof fn lemma_occ_le_len(s: Seq<u64>, h: u64)
    ensures
        occ(s, h) <= s.len(),
    decreases s.len(),
{
    if s.len() > 0 {
        lemma_occ_le_len(s.drop_last(), h);
    }
}

/// Whether some position in the table was visited three times or more.
pub open spec fn threefold_spec(m: Map<u64, u32>) -> bool {
    exists|h: u64| m.contains_key(h) && m[h] >= 3
}

/// The fixed point scale of all values: one unit is one ten-thousandth,
/// so the interval [-1, 1] of real-valued evaluations is [-10000, 10000].
pub const VALUE_SCALE: i64 = 10000;

/// How many of the first `n` squares satisfy `p`, which sees the square
/// index and the square's code.
pub open spec fn cnt_if(sq: Seq<int>, n: int, p: spec_fn(int, int) -> bool) -> int
    decreases n,
{
    if n <= 0 {
        0
    } else {
        cnt_if(sq, n - 1, p) + if p(n - 1, sq[n - 1]) {
            1int
        } else {
            0int
        }
    }
}

pub proof fn lemma_cnt_if_bounds(sq: Seq<int>, n: int, p: spec_fn(int, int) -> bool)
    requires
        n >= 0,
    ensures
        0 <= cnt_if(sq, n, p) <= n,
    decreases n,
{
    if n > 0 {
        lemma_cnt_if_bounds(sq, n - 1, p);
    }
}

/// A pawn, rook or queen of either side.
pub open spec fn pred_heavy() -> spec_fn(int, int) -> bool {
    |i: int, c: int| c == 1 || c == -1 || c == 4 || c == -4 || c == 5 || c == -5
}

/// Any piece.
pub open spec fn pred_occupied() -> spec_fn(int, int) -> bool {
    |i: int, c: int| c != 0
}

/// Exactly the code `a`.
pub open spec fn pred_code(a: int) -> spec_fn(int, int) -> bool {
    |i: int, c: int| c == a
}

/// The colour complex of square `i`: 0 and 1 split the board as the
/// (file + rank) parity does.
pub open spec fn sq_parity(i: int) -> int {
    (i / 8 + i % 8) % 2
}

/// A bishop of either side standing on a square of parity `par`.
pub open spec fn pred_bishop_par(par: int) -> spec_fn(int, int) -> bool {
    |i: int, c: int| (c == 2 || c == -2) && sq_parity(i) == par
}

/// The insufficient-material rule, over the 64 square codes:
/// with any pawn, rook or queen on the board the material is sufficient;
/// otherwise the only insufficient configurations are the bare kings,
/// one minor piece beside the kings, a knight on each side, and a bishop
/// on each side with both on the same colour complex.
pub open spec fn insufficient_spec(sq: Seq<int>) -> bool {
    let heavy = cnt_if(sq, 64, pred_heavy());
    let total = cnt_if(sq, 64, pred_occupied());
    let wn = cnt_if(sq, 64, pred_code(3));
    let bn = cnt_if(sq, 64, pred_code(-3));
    let wb = cnt_if(sq, 64, pred_code(2));
    let bb = cnt_if(sq, 64, pred_code(-2));
    let be = cnt_if(sq, 64, pred_bishop_par(0));
    let bo = cnt_if(sq, 64, pred_bishop_par(1));
    heavy == 0 && (total == 2 || (wn + bn == 1 && wb + bb == 0 && total == 3) || (wn == 1 && bn
        == 1 && wb + bb == 0 && total == 4) || (wb + bb == 1 && wn + bn == 0 && total == 3) || (wb
        == 1 && bb == 1 && wn + bn == 0 && total == 4 && (be == 0 || bo == 0)))
}

/// The six numbers the encoder writes for one square: +1 in the occupying
/// piece's channel for White, -1 for Black, zeros everywhere else.
pub open spec fn chan_vec(c: int) -> Seq<i8> {
    Seq::new(
        6,
        |k: int|
            if c == k + 1 {
                1i8
            } else if c == -(k + 1) {
                (-1) as i8
            } else {
                0i8
            },
    )
}

/// The encoding of the first `n` squares, six numbers each, in square
/// order (rank by rank from White's side, file a first).
pub open spec fn encode_prefix(sq: Seq<int>, n: int) -> Seq<i8>
    decreases n,
{
    if n <= 0 {
        Seq::empty()
    } else {
        encode_prefix(sq, n - 1) + chan_vec(sq[n - 1])
    }
}

pub proof fn lemma_encode_prefix_len(sq: Seq<int>, n: int)
    requires
        n >= 0,
    ensures
        encode_prefix(sq, n).len() == 6 * n,
    decreases n,
{
    if n > 0 {
        lemma_encode_prefix_len(sq, n - 1);
    }
}

pub proof fn lemma_cnt_if_all_false(sq: Seq<int>, n: int, p: spec_fn(int, int) -> bool)
    requires
        n >= 0,
        forall|i: int| 0 <= i < n ==> !p(i, sq[i]),
    ensures
        cnt_if(sq, n, p) == 0,
    decreases n,
{
    if n > 0 {
        lemma_cnt_if_all_false(sq, n - 1, p);
    }
}

/// Nothing on the board but the kings.
pub open spec fn only_kings(sq: Seq<int>) -> bool {
    forall|i: int| 0 <= i < 64 ==> sq[i] == 0 || sq[i] == 6 || sq[i] == -6
}

/// The fixed-point value of a finished game, seen from White.
pub open spec fn result_value_spec(o: Option<GameResult>) -> int {
    match o {
        Some(GameResult::WhiteWin) => VALUE_SCALE as int,
        Some(GameResult::BlackWin) => -(VALUE_SCALE as int),
        _ => 0,
    }
}

pub open spec fn file_chars() -> Seq<char> {
    seq!['a', 'b', 'c', 'd', 'e', 'f', 'g', 'h']
}

pub open spec fn rank_chars() -> Seq<char> {
    seq!['1', '2', '3', '4', '5', '6', '7', '8']
}

/// The letter of each promotion code; codes 0 and 1 never name one.
pub open spec fn promo_chars() -> Seq<char> {
    seq![' ', ' ', 'b', 'n', 'r', 'q']
}

/// The two-character text of a square index: file letter, then rank digit.
pub open spec fn square_text(sq: int) -> Seq<char> {
    seq![file_chars()[sq % 8], rank_chars()[sq / 8]]
}

/// The four- or five-character text of a move: source square, destination
/// square, and the promotion piece's letter when there is one.
pub open spec fn move_text(from: int, to: int, promo: int) -> Seq<char> {
    if promo == 0 {
        square_text(from) + square_text(to)
    } else {
        square_text(from) + square_text(to) + seq![promo_chars()[promo]]
    }
}

fn file_letter_str(f: u8) -> (s: &'static str)
    requires
        f < 8,
    ensures
        s@ == seq![file_chars()[f as int]],
{
    match f {
        0 => {
            proof {
                reveal_strlit("a");
                assert("a"@ =~= seq![file_chars()[0int]]);
            }
            "a"
        },
        1 => {
            proof {
                reveal_strlit("b");
                assert("b"@ =~= seq![file_chars()[1int]]);
            }
            "b"
        },
        2 => {
            proof {
                reveal_strlit("c");
                assert("c"@ =~= seq![file_chars()[2int]]);
            }
            "c"
        },
        3 => {
            proof {
                reveal_strlit("d");
                assert("d"@ =~= seq![file_chars()[3int]]);
            }
            "d"
        },
        4 => {
            proof {
                reveal_strlit("e");
                assert("e"@ =~= seq![file_chars()[4int]]);
            }
            "e"
        },
        5 => {
            proof {
                reveal_strlit("f");
                assert("f"@ =~= seq![file_chars()[5int]]);
            }
            "f"
        },
        6 => {
            proof {
                reveal_strlit("g");
                assert("g"@ =~= seq![file_chars()[6int]]);
            }
            "g"
        },
        _ => {
            proof {
                reveal_strlit("h");
                assert("h"@ =~= seq![file_chars()[7int]]);
            }
            "h"
        },
    }
}

fn rank_digit_str(r: u8) -> (s: &'static str)
    requires
        r < 8,
    ensures
        s@ == seq![rank_chars()[r as int]],
{
    match r {
        0 => {
            proof {
                reveal_strlit("1");
                assert("1"@ =~= seq![rank_chars()[0int]]);
            }
            "1"
        },
        1 => {
            proof {
                reveal_strlit("2");
                assert("2"@ =~= seq![rank_chars()[1int]]);
            }
            "2"
        },
        2 => {
            proof {
                reveal_strlit("3");
                assert("3"@ =~= seq![rank_chars()[2int]]);
            }
            "3"
        },
        3 => {
            proof {
                reveal_strlit("4");
                assert("4"@ =~= seq![rank_chars()[3int]]);
            }
            "4"
        },
        4 => {
            proof {
                reveal_strlit("5");
                assert("5"@ =~= seq![rank_chars()[4int]]);
            }
            "5"
        },
        5 => {
            proof {
                reveal_strlit("6");
                assert("6"@ =~= seq![rank_chars()[5int]]);
            }
            "6"
        },
        6 => {
            proof {
                reveal_strlit("7");
                assert("7"@ =~= seq![rank_chars()[6int]]);
            }
            "7"
        },
        _ => {
            proof {
                reveal_strlit("8");
                assert("8"@ =~= seq![rank_chars()[7int]]);
            }
            "8"
        },
    }
}

fn promo_letter_str(p: u8) -> (s: &'static str)
    requires
        2 <= p <= 5,
    ensures
        s@ == seq![promo_chars()[p as int]],
{
    match p {
        2 => {
            proof {
                reveal_strlit("b");
                assert("b"@ =~= seq![promo_chars()[2int]]);
            }
            "b"
        },
        3 => {
            proof {
                reveal_strlit("n");
                assert("n"@ =~= seq![promo_chars()[3int]]);
            }
            "n"
        },
        4 => {
            proof {
                reveal_strlit("r");
                assert("r"@ =~= seq![promo_chars()[4int]]);
            }
            "r"
        },
        _ => {
            proof {
                reveal_strlit("q");
                assert("q"@ =~= seq![promo_chars()[5int]]);
            }
            "q"
        },
    }
}

/// The move text of `(from, to, promo)` squares given as rank and file.
fn move_string(fr: u8, ff: u8, tr: u8, tf: u8, promo: u8) -> (s: String)
    requires
        fr < 8,
        ff < 8,
        tr < 8,
        tf < 8,
        promo == 0 || 2 <= promo <= 5,
    ensures
        s@ == move_text(fr as int * 8 + ff as int, tr as int * 8 + tf as int, promo as int),
{
    let ghost from = fr as int * 8 + ff as int;
    let ghost to = tr as int * 8 + tf as int;
    proof {
        assert(from / 8 == fr as int && from % 8 == ff as int) by (nonlinear_arith)
            requires
                from == fr as int * 8 + ff as int,
                fr < 8,
                ff < 8,
        ;
        assert(to / 8 == tr as int && to % 8 == tf as int) by (nonlinear_arith)
            requires
                to == tr as int * 8 + tf as int,
                tr < 8,
                tf < 8,
        ;
    }
    let mut s = String::from_str(file_letter_str(ff));
    s.append(rank_digit_str(fr));
    s.append(file_letter_str(tf));
    s.append(rank_digit_str(tr));
    if promo >= 2 {
        s.append(promo_letter_str(promo));
        proof {
            assert(s@ =~= move_text(from, to, promo as int));
        }
    } else {
        proof {
            assert(s@ =~= move_text(from, to, 0));
        }
    }
    s
}

/// The file index of a file letter; meaningful only on `'a'..='h'`.
pub open spec fn file_of(c: char) -> int {
    c as int - 97
}

/// The rank index of a rank digit; meaningful only on `'1'..='8'`.
pub open spec fn rank_of(c: char) -> int {
    c as int - 49
}

/// Whether a file letter and a rank digit name a square.
pub open spec fn square_chars_ok(f: char, r: char) -> bool {
    97 <= f as int <= 104 && 49 <= r as int <= 56
}

pub open spec fn promo_char_ok(c: char) -> bool {
    c == 'q' || c == 'r' || c == 'b' || c == 'n'
}

/// The promotion code of a promotion letter.
pub open spec fn promo_code_of(c: char) -> int {
    if c == 'q' {
        5
    } else if c == 'r' {
        4
    } else if c == 'b' {
        2
    } else if c == 'n' {
        3
    } else {
        0
    }
}

/// What move text means: exactly 4 or 5 characters, two squares and an
/// optional promotion letter, read into `(from, to, promo)` square codes.
pub open spec fn parse_move_spec(s: Seq<char>) -> Option<(int, int, int)> {
    if s.len() < 4 || s.len() > 5 {
        None
    } else if !square_chars_ok(s[0], s[1]) {
        None
    } else if !square_chars_ok(s[2], s[3]) {
        None
    } else if s.len() == 5 && !promo_char_ok(s[4]) {
        None
    } else {
        Some(
            (
                rank_of(s[1]) * 8 + file_of(s[0]),
                rank_of(s[3]) * 8 + file_of(s[2]),
                if s.len() == 5 {
                    promo_code_of(s[4])
                } else {
                    0
                },
            ),
        )
    }
}

/// A rejected move, carrying the rejected move text.
#[derive(Debug)]
pub enum IllegalMoveError {
    /// The text is not 4 or 5 characters long.
    BadLength(String),
    /// The first two characters name no square.
    BadFromSquare(String),
    /// The third and fourth characters name no square.
    BadToSquare(String),
    /// The fifth character names no promotion piece.
    BadPromotion(String),
    /// The move is well formed but not legal in the position.
    NotLegal(String),
}

impl IllegalMoveError {
    /// The rejected move text.
    pub open spec fn text_spec(&self) -> Seq<char> {
        match self {
            IllegalMoveError::BadLength(t) => t@,
            IllegalMoveError::BadFromSquare(t) => t@,
            IllegalMoveError::BadToSquare(t) => t@,
            IllegalMoveError::BadPromotion(t) => t@,
            IllegalMoveError::NotLegal(t) => t@,
        }
    }

    /// The rejected move text.
    pub fn text(&self) -> (r: &str)
        ensures
            r@ == self.text_spec(),
    {
        match self {
            IllegalMoveError::BadLength(t) => t.as_str(),
            IllegalMoveError::BadFromSquare(t) => t.as_str(),
            IllegalMoveError::BadToSquare(t) => t.as_str(),
            IllegalMoveError::BadPromotion(t) => t.as_str(),
            IllegalMoveError::NotLegal(t) => t.as_str(),
        }
    }
}

fn char_file_index(c: char) -> (r: Option<u8>)
    ensures
        match r {
            Some(f) => 97 <= c as int <= 104 && f < 8 && f as int == file_of(c),
            None => !(97 <= c as int <= 104),
        },
{
    let v = c as u32;
    if 97 <= v && v <= 104 {
        Some((v - 97) as u8)
    } else {
        None
    }
}

fn char_rank_index(c: char) -> (r: Option<u8>)
    ensures
        match r {
            Some(k) => 49 <= c as int <= 56 && k < 8 && k as int == rank_of(c),
            None => !(49 <= c as int <= 56),
        },
{
    let v = c as u32;
    if 49 <= v && v <= 56 {
        Some((v - 49) as u8)
    } else {
        None
    }
}

/// The square's code as a machine integer: 0 empty, positive White,
/// negative Black, magnitude `piece_channel + 1`.
fn code_of(o: Option<(Piece, Color)>) -> (c: i8)
    ensures
        c as int == crate::board::square_code(o),
{
    match o {
        None => 0,
        Some((p, col)) => {
            let k: i8 = match p {
                Piece::Pawn => 1,
                Piece::Bishop => 2,
                Piece::Knight => 3,
                Piece::Rook => 4,
                Piece::Queen => 5,
                Piece::King => 6,
            };
            match col {
                Color::White => k,
                Color::Black => -k,
            }
        },
    }
}

/// Whether the position's material cannot deliver mate for either side.
fn has_insufficient_material(board: &chess::Board) -> (r: bool)
    ensures
        r == insufficient_spec(board_squares(*board)),
{
    let ghost sq = board_squares(*board);
    let mut heavy: u32 = 0;
    let mut total: u32 = 0;
    let mut wn: u32 = 0;
    let mut bn: u32 = 0;
    let mut wb: u32 = 0;
    let mut bb: u32 = 0;
    let mut be: u32 = 0;
    let mut bo: u32 = 0;
    let mut rank: u8 = 0;
    while rank < 8
        invariant
            rank <= 8,
            heavy == cnt_if(sq, rank as int * 8, pred_heavy()),
            total == cnt_if(sq, rank as int * 8, pred_occupied()),
            wn == cnt_if(sq, rank as int * 8, pred_code(3)),
            bn == cnt_if(sq, rank as int * 8, pred_code(-3)),
            wb == cnt_if(sq, rank as int * 8, pred_code(2)),
            bb == cnt_if(sq, rank as int * 8, pred_code(-2)),
            be == cnt_if(sq, rank as int * 8, pred_bishop_par(0)),
            bo == cnt_if(sq, rank as int * 8, pred_bishop_par(1)),
            sq == board_squares(*board),
        decreases 8 - rank,
    {
        let mut file: u8 = 0;
        while file < 8
            invariant
                rank < 8,
                file <= 8,
                heavy == cnt_if(sq, rank as int * 8 + file as int, pred_heavy()),
                total == cnt_if(sq, rank as int * 8 + file as int, pred_occupied()),
                wn == cnt_if(sq, rank as int * 8 + file as int, pred_code(3)),
                bn == cnt_if(sq, rank as int * 8 + file as int, pred_code(-3)),
                wb == cnt_if(sq, rank as int * 8 + file as int, pred_code(2)),
                bb == cnt_if(sq, rank as int * 8 + file as int, pred_code(-2)),
                be == cnt_if(sq, rank as int * 8 + file as int, pred_bishop_par(0)),
                bo == cnt_if(sq, rank as int * 8 + file as int, pred_bishop_par(1)),
                sq == board_squares(*board),
            decreases 8 - file,
        {
            let ghost idx = rank as int * 8 + file as int;
            let c = code_of(piece_on_square(board, rank, file));
            proof {
                assert(sq[idx] == c as int);
                assert(idx / 8 == rank as int && idx % 8 == file as int) by (nonlinear_arith)
                    requires
                        idx == rank as int * 8 + file as int,
                        rank < 8,
                        file < 8,
                ;
                assert(sq_parity(idx) == (rank as int + file as int) % 2);
                lemma_cnt_if_bounds(sq, idx, pred_heavy());
                lemma_cnt_if_bounds(sq, idx, pred_occupied());
                lemma_cnt_if_bounds(sq, idx, pred_code(3));
                lemma_cnt_if_bounds(sq, idx, pred_code(-3));
                lemma_cnt_if_bounds(sq, idx, pred_code(2));
                lemma_cnt_if_bounds(sq, idx, pred_code(-2));
                lemma_cnt_if_bounds(sq, idx, pred_bishop_par(0));
                lemma_cnt_if_bounds(sq, idx, pred_bishop_par(1));
            }
            if c == 1 || c == -1 || c == 4 || c == -4 || c == 5 || c == -5 {
                heavy = heavy + 1;
            }
            if c != 0 {
                total = total + 1;
            }
            if c == 3 {
                wn = wn + 1;
            }
            if c == -3 {
                bn = bn + 1;
            }
            if c == 2 {
                wb = wb + 1;
            }
            if c == -2 {
                bb = bb + 1;
            }
            if c == 2 || c == -2 {
                if (rank + file) % 2 == 0 {
                    be = be + 1;
                } else {
                    bo = bo + 1;
                }
            }
            file = file + 1;
        }
        rank = rank + 1;
    }
    proof {
        lemma_cnt_if_bounds(sq, 64, pred_code(3));
        lemma_cnt_if_bounds(sq, 64, pred_code(-3));
        lemma_cnt_if_bounds(sq, 64, pred_code(2));
        lemma_cnt_if_bounds(sq, 64, pred_code(-2));
    }
    let r = heavy == 0 && (total == 2 || (wn + bn == 1 && wb + bb == 0 && total == 3) || (wn == 1
        && bn == 1 && wb + bb == 0 && total == 4) || (wb + bb == 1 && wn + bn == 0 && total == 3)
        || (wb == 1 && bb == 1 && wn + bn == 0 && total == 4 && (be == 0 || bo == 0)));
    proof {
        assert(r == insufficient_spec(sq));
    }
    r
}

/// A position and the repetition table of the line that led to it.
#[derive(Clone)]
pub struct Game {
    board: chess::Board,
    positions: CountTable,
    hist: Ghost<Seq<u64>>,
}

impl Game {
    /// The wrapped move-generator position.
    pub closed spec fn board_rep(&self) -> chess::Board {
        self.board
    }

    /// The repetition table: position hash to visit count.
    pub closed spec fn table(&self) -> Map<u64, u32> {
        self.positions@
    }

    /// Every position hash visited so far on this line, in order,
    /// the root included.
    pub closed spec fn history(&self) -> Seq<u64> {
        self.hist@
    }

    /// The 64 square codes of the current position.
    pub open spec fn squares(&self) -> Seq<int> {
        board_squares(self.board_rep())
    }

    /// The legal moves of the current position.
    pub open spec fn moves(&self) -> Seq<(int, int, int)> {
        board_moves(self.board_rep())
    }

    pub open spec fn white_to_move_spec(&self) -> bool {
        board_white_to_move(self.board_rep())
    }

    /// The current position's hash.
    pub open spec fn hash_spec(&self) -> u64 {
        board_hash(self.board_rep())
    }

    /// The repetition table counts exactly the visits recorded in the
    /// history, whose last entry is the current position.
    pub closed spec fn wf(&self) -> bool {
        &&& self.positions.wf()
        &&& board_squares(self.board).len() == 64
        &&& self.hist@.len() >= 1
        &&& self.hist@.last() == board_hash(self.board)
        &&& forall|h: u64| #[trigger] self.positions@.contains_key(h) <==> occ(self.hist@, h) >= 1
        &&& forall|h: u64|
            #[trigger] self.positions@.contains_key(h) ==> self.positions@[h] as nat == occ(
                self.hist@,
                h,
            )
    }

    /// A game at the standard starting position.
    pub fn new() -> (g: Game)
        ensures
            g.wf(),
            g.white_to_move_spec(),
            g.history() == seq![g.hash_spec()],
            g.table() == map![g.hash_spec() => 1u32],
    {
        let board = start_board();
        let h = hash_of(&board);
        let mut positions = CountTable::new();
        proof {
            assert(!positions@.contains_key(h));
        }
        positions.increment(h);
        let ghost hseq: Seq<u64> = seq![h];
        let g = Game { board, positions, hist: Ghost(hseq) };
        proof {
            Self::lemma_singleton_occ(h);
            assert(g.table() =~= map![h => 1u32]);
        }
        g
    }

    proof fn lemma_singleton_occ(h: u64)
        ensures
            occ(seq![h], h) == 1,
            forall|g: u64| g != h ==> occ(seq![h], g) == 0,
            seq![h].last() == h,
            seq![h].len() == 1,
    {
        let s: Seq<u64> = seq![h];
        assert(s.len() == 1);
        assert(s.last() == h);
        assert(s.drop_last() =~= Seq::<u64>::empty());
        assert(s.drop_last().len() == 0);
        assert(occ(s.drop_last(), h) == 0);
        assert(occ(s, h) == 1);
        assert forall|g: u64| g != h implies occ(s, g) == 0 by {
            assert(occ(s.drop_last(), g) == 0);
        }
    }

    /// A game whose starting point is the position in the given FEN text.
    /// The repetition table starts afresh with that position visited once.
    pub fn from_fen(fen: &str) -> (r: Result<Game, String>)
        ensures
            match r {
                Ok(g) => {
                    &&& g.wf()
                    &&& g.history() == seq![g.hash_spec()]
                    &&& g.table() == map![g.hash_spec() => 1u32]
                },
                Err(_) => true,
            },
    {
        match board_from_fen(fen) {
            Ok(board) => {
                let h = hash_of(&board);
                let mut positions = CountTable::new();
                proof {
                    assert(!positions@.contains_key(h));
                }
                positions.increment(h);
                let ghost hseq: Seq<u64> = seq![h];
                let g = Game { board, positions, hist: Ghost(hseq) };
                proof {
                    Self::lemma_singleton_occ(h);
                    assert(g.table() =~= map![h => 1u32]);
                }
                Ok(g)
            },
            Err(e) => Err(e),
        }
    }

    /// The current position's 64-bit hash.
    pub(crate) fn get_hash(&self) -> (r: u64)
        ensures
            r == self.hash_spec(),
    {
        hash_of(&self.board)
    }

    /// Whether some position on this line has now been seen three times.
    pub fn is_threefold_repetition(&self) -> (r: bool)
        requires
            self.wf(),
        ensures
            r == threefold_spec(self.table()),
    {
        self.positions.has_triple()
    }

    /// What the position is: `None` while the game goes on, otherwise the
    /// result. The causes are tested in this order: threefold repetition,
    /// insufficient material, then no legal moves (checkmate against the
    /// side to move when it stands in check, stalemate otherwise).
    pub open spec fn classify_spec(&self) -> Option<GameResult> {
        if threefold_spec(self.table()) {
            Some(GameResult::Draw)
        } else if insufficient_spec(self.squares()) {
            Some(GameResult::Draw)
        } else if self.moves().len() == 0 {
            if board_in_check(self.board_rep()) {
                if self.white_to_move_spec() {
                    Some(GameResult::BlackWin)
                } else {
                    Some(GameResult::WhiteWin)
                }
            } else {
                Some(GameResult::Draw)
            }
        } else {
            None
        }
    }

    pub open spec fn terminal_spec(&self) -> bool {
        self.classify_spec() is Some
    }

    /// How many moves `legal_moves` hands out: none once the game is over.
    pub open spec fn legal_moves_len(&self) -> int {
        if self.terminal_spec() {
            0
        } else {
            self.moves().len() as int
        }
    }

    /// Whether the game is over, by repetition, material, or the move
    /// generator's own verdict.
    pub fn is_terminal(&self) -> (r: bool)
        requires
            self.wf(),
        ensures
            r == self.terminal_spec(),
    {
        if self.is_threefold_repetition() {
            return true;
        }
        if has_insufficient_material(&self.board) {
            return true;
        }
        let status = board_status(&self.board);
        if !matches!(status, GenStatus::Ongoing) {
            return true;
        }
        let moves = legal_move_list(&self.board);
        if moves.len() == 0 {
            return true;
        }
        false
    }

    /// The game's result, or `None` while it goes on.
    pub fn get_game_result(&self) -> (r: Option<GameResult>)
        requires
            self.wf(),
        ensures
            r == self.classify_spec(),
    {
        if !self.is_terminal() {
            return None;
        }
        if self.is_threefold_repetition() {
            return Some(GameResult::Draw);
        }
        if has_insufficient_material(&self.board) {
            return Some(GameResult::Draw);
        }
        let moves = legal_move_list(&self.board);
        if moves.len() == 0 {
            if in_check(&self.board) {
                if white_to_move(&self.board) {
                    return Some(GameResult::BlackWin);
                } else {
                    return Some(GameResult::WhiteWin);
                }
            } else {
                return Some(GameResult::Draw);
            }
        }
        Some(GameResult::Draw)
    }

    /// The terminal value of the position in fixed point: White win is
    /// `VALUE_SCALE`, Black win its negation, a draw or an ongoing game 0.
    pub fn result_value(&self) -> (r: i64)
        requires
            self.wf(),
        ensures
            r as int == result_value_spec(self.classify_spec()),
    {
        match self.get_game_result() {
            Some(GameResult::WhiteWin) => VALUE_SCALE,
            Some(GameResult::BlackWin) => -VALUE_SCALE,
            Some(GameResult::Draw) => 0,
            None => 0,
        }
    }

    /// The legal moves of the position as move text, or nothing at all
    /// once the game is over, whatever the move generator would still
    /// enumerate.
    pub fn legal_moves(&self) -> (r: Vec<String>)
        requires
            self.wf(),
        ensures
            r@.len() == self.legal_moves_len(),
            forall|i: int|
                0 <= i < r@.len() ==> r@[i]@ == move_text(
                    self.moves()[i].0,
                    self.moves()[i].1,
                    self.moves()[i].2,
                ),
    {
        if self.is_terminal() {
            return Vec::new();
        }
        let list = legal_move_list(&self.board);
        let mut out: Vec<String> = Vec::new();
        let mut i: usize = 0;
        while i < list.len()
            invariant
                self.wf(),
                !self.terminal_spec(),
                list@.len() == self.moves().len(),
                forall|k: int|
                    0 <= k < list@.len() ==> (list@[k].0 as int, list@[k].1 as int, list@[k].2 as int)
                        == self.moves()[k],
                forall|k: int|
                    0 <= k < list@.len() ==> list@[k].0 < 64 && list@[k].1 < 64 && (list@[k].2 == 0
                        || 2 <= list@[k].2 <= 5),
                0 <= i <= list@.len(),
                out@.len() == i,
                forall|k: int|
                    0 <= k < i ==> out@[k]@ == move_text(
                        self.moves()[k].0,
                        self.moves()[k].1,
                        self.moves()[k].2,
                    ),
            decreases list@.len() - i,
        {
            let (fs, ts, pc) = (list[i].0, list[i].1, list[i].2);
            let fr = fs / 8;
            let ff = fs % 8;
            let tr = ts / 8;
            let tf = ts % 8;
            proof {
                assert(fr < 8 && ff < 8 && fr as int * 8 + ff as int == fs as int) by (nonlinear_arith)
                    requires
                        fs < 64,
                        fr == fs / 8,
                        ff == fs % 8,
                ;
                assert(tr < 8 && tf < 8 && tr as int * 8 + tf as int == ts as int) by (nonlinear_arith)
                    requires
                        ts < 64,
                        tr == ts / 8,
                        tf == ts % 8,
                ;
            }
            let s = move_string(fr, ff, tr, tf, pc);
            out.push(s);
            i = i + 1;
        }
        out
    }

    /// One clause of the `make_move` contract: which error comes back on
    /// which input, the rejected text carried along.
    pub open spec fn move_error_spec(&self, s: Seq<char>, e: &IllegalMoveError) -> bool {
        &&& e.text_spec() == s
        &&& match e {
            IllegalMoveError::BadLength(_) => s.len() < 4 || s.len() > 5,
            IllegalMoveError::BadFromSquare(_) => 4 <= s.len() <= 5 && !square_chars_ok(
                s[0],
                s[1],
            ),
            IllegalMoveError::BadToSquare(_) => 4 <= s.len() <= 5 && square_chars_ok(s[0], s[1])
                && !square_chars_ok(s[2], s[3]),
            IllegalMoveError::BadPromotion(_) => s.len() == 5 && square_chars_ok(s[0], s[1])
                && square_chars_ok(s[2], s[3]) && !promo_char_ok(s[4]),
            IllegalMoveError::NotLegal(_) => parse_move_spec(s) is Some && !self.moves().contains(
                parse_move_spec(s)->0,
            ),
        }
    }

    /// Read move text into rank-and-file square indices and a promotion
    /// code, and hold it against the position's legal moves.
    fn parse_move(&self, move_str: &str) -> (r: Result<(u8, u8, u8, u8, u8), IllegalMoveError>)
        ensures
            match r {
                Ok(t) => {
                    &&& parse_move_spec(move_str@) is Some
                    &&& t.0 < 8 && t.1 < 8 && t.2 < 8 && t.3 < 8 && (t.4 == 0 || 2 <= t.4 <= 5)
                    &&& parse_move_spec(move_str@)->0 == (
                        t.0 as int * 8 + t.1 as int,
                        t.2 as int * 8 + t.3 as int,
                        t.4 as int,
                    )
                    &&& self.moves().contains(parse_move_spec(move_str@)->0)
                },
                Err(e) => self.move_error_spec(move_str@, &e),
            },
    {
        let n = move_str.unicode_len();
        if n < 4 || n > 5 {
            return Err(IllegalMoveError::BadLength(String::from_str(move_str)));
        }
        let c0 = move_str.get_char(0);
        let c1 = move_str.get_char(1);
        let ff = match char_file_index(c0) {
            Some(f) => f,
            None => {
                return Err(IllegalMoveError::BadFromSquare(String::from_str(move_str)));
            },
        };
        let fr = match char_rank_index(c1) {
            Some(k) => k,
            None => {
                return Err(IllegalMoveError::BadFromSquare(String::from_str(move_str)));
            },
        };
        let c2 = move_str.get_char(2);
        let c3 = move_str.get_char(3);
        let tf = match char_file_index(c2) {
            Some(f) => f,
            None => {
                return Err(IllegalMoveError::BadToSquare(String::from_str(move_str)));
            },
        };
        let tr = match char_rank_index(c3) {
            Some(k) => k,
            None => {
                return Err(IllegalMoveError::BadToSquare(String::from_str(move_str)));
            },
        };
        let promo: u8 = if n == 5 {
            let c4 = move_str.get_char(4);
            if c4 == 'q' {
                5
            } else if c4 == 'r' {
                4
            } else if c4 == 'b' {
                2
            } else if c4 == 'n' {
                3
            } else {
                return Err(IllegalMoveError::BadPromotion(String::from_str(move_str)));
            }
        } else {
            0
        };
        if move_is_legal(&self.board, fr, ff, tr, tf, promo) {
            Ok((fr, ff, tr, tf, promo))
        } else {
            Err(IllegalMoveError::NotLegal(String::from_str(move_str)))
        }
    }

    /// Play the move named by `move_str`. On success the state advances to
    /// the new position, the new position's hash is counted once more in
    /// the repetition table, and a fresh copy of the new state is handed
    /// back; on failure nothing changes and the error says what was wrong
    /// with the text. Succeeds exactly on the text of a legal move.
    pub fn make_move(&mut self, move_str: &str) -> (r: Result<Game, IllegalMoveError>)
        requires
            old(self).wf(),
            old(self).history().len() < u32::MAX,
        ensures
            final(self).wf(),
            match r {
                Ok(g) => ({
                    let mv = parse_move_spec(move_str@)->0;
                    let nb = board_after(old(self).board_rep(), mv.0, mv.1, mv.2);
                    let nh = board_hash(nb);
                    &&& parse_move_spec(move_str@) is Some
                    &&& old(self).moves().contains(mv)
                    &&& final(self).board_rep() == nb
                    &&& final(self).white_to_move_spec() == !old(self).white_to_move_spec()
                    &&& final(self).history() == old(self).history().push(nh)
                    &&& final(self).table() == CountTable::bumped(old(self).table(), nh)
                    &&& g.board_rep() == nb
                    &&& g.history() == final(self).history()
                    &&& g.table() == final(self).table()
                    &&& g.wf()
                }),
                Err(e) => ({
                    &&& *final(self) == *old(self)
                    &&& old(self).move_error_spec(move_str@, &e)
                }),
            },
    {
        let (fr, ff, tr, tf, promo) = match self.parse_move(move_str) {
            Ok(t) => t,
            Err(e) => {
                return Err(e);
            },
        };
        let nb = apply_move(&self.board, fr, ff, tr, tf, promo);
        let nh = hash_of(&nb);
        proof {
            if self.positions@.contains_key(nh) {
                lemma_occ_le_len(self.hist@, nh);
            }
        }
        self.board = nb;
        self.positions.increment(nh);
        let ghost old_hist = self.hist@;
        self.hist = Ghost(self.hist@.push(nh));
        proof {
            assert forall|h: u64| #[trigger] self.positions@.contains_key(h) <==> occ(
                self.hist@,
                h,
            ) >= 1 by {
                lemma_occ_push(old_hist, nh, h);
            }
            assert forall|h: u64| #[trigger] self.positions@.contains_key(h) implies self
                .positions@[h] as nat == occ(self.hist@, h) by {
                lemma_occ_push(old_hist, nh, h);
            }
        }
        let g = Game { board: self.board, positions: self.positions.duplicate(), hist: Ghost(self.hist@) };
        Ok(g)
    }

    /// The position as a 384-number feature vector: the 64 squares in a
    /// fixed row-major order (rank 1 nearest White first, file a first),
    /// six numbers per square, one per piece kind in channel order. The
    /// result depends on the piece placement alone, never on the history.
    pub fn encode(&self) -> (r: Vec<i8>)
        requires
            self.wf(),
        ensures
            r@.len() == 384,
            r@ == encode_prefix(self.squares(), 64),
    {
        let ghost sq = self.squares();
        let mut out: Vec<i8> = Vec::new();
        let mut rank: u8 = 0;
        while rank < 8
            invariant
                rank <= 8,
                sq == self.squares(),
                self.wf(),
                out@ == encode_prefix(sq, rank as int * 8),
            decreases 8 - rank,
        {
            let mut file: u8 = 0;
            while file < 8
                invariant
                    rank < 8,
                    file <= 8,
                    sq == self.squares(),
                    self.wf(),
                    out@ == encode_prefix(sq, rank as int * 8 + file as int),
                decreases 8 - file,
            {
                let ghost idx = rank as int * 8 + file as int;
                let c = code_of(piece_on_square(&self.board, rank, file));
                let ghost pre = out@;
                let mut k: u8 = 0;
                while k < 6
                    invariant
                        k <= 6,
                        c as int == sq[idx],
                        pre == encode_prefix(sq, idx),
                        out@ == pre + chan_vec(c as int).take(k as int),
                    decreases 6 - k,
                {
                    let v: i8 = if c == k as i8 + 1 {
                        1
                    } else if c == -(k as i8 + 1) {
                        -1
                    } else {
                        0
                    };
                    out.push(v);
                    proof {
                        assert(chan_vec(c as int)[k as int] == v);
                        assert(out@ =~= pre + chan_vec(c as int).take(k as int + 1));
                    }
                    k = k + 1;
                }
                proof {
                    assert(chan_vec(c as int).take(6) =~= chan_vec(c as int));
                    assert(out@ =~= encode_prefix(sq, idx + 1));
                }
                file = file + 1;
            }
            rank = rank + 1;
        }
        proof {
            lemma_encode_prefix_len(sq, 64);
        }
        out
    }

    /// `"White"` when White is to move, else `"Black"`.
    pub fn current_player(&self) -> (r: &str)
        ensures
            r@ == (if self.white_to_move_spec() {
                "White"@
            } else {
                "Black"@
            }),
    {
        if white_to_move(&self.board) {
            "White"
        } else {
            "Black"
        }
    }
    /// Terminal and "no moves" are one thing: `legal_moves` hands back an
    /// empty list exactly when `classify` reports the game over, and a
    /// non-empty one otherwise.
    pub proof fn lemma_no_moves_iff_terminal(g: Game)
        requires
            g.wf(),
        ensures
            g.legal_moves_len() == 0 <==> g.classify_spec() is Some,
    {
    }

    /// A third visit of any position ends the game: the position
    /// classifies as a draw and no legal moves are handed out, whatever
    /// the move generator alone would still report.
    pub proof fn lemma_threefold_is_draw(g: Game)
        requires
            g.wf(),
            threefold_spec(g.table()),
        ensures
            g.classify_spec() == Some(GameResult::Draw),
            g.legal_moves_len() == 0,
    {
    }

    /// The repetition table is exactly the visit count of the history:
    /// a hash has an entry exactly when it was visited, and the entry
    /// counts its visits — so the table's total weight is the number of
    /// positions visited so far.
    pub proof fn lemma_table_counts_history(g: Game, h: u64)
        requires
            g.wf(),
        ensures
            g.table().contains_key(h) <==> occ(g.history(), h) >= 1,
            g.table().contains_key(h) ==> g.table()[h] as nat == occ(g.history(), h),
    {
    }

    /// The wire format is its own inverse: the text of any move reads
    /// back as exactly that move, so every text `legal_moves` hands out
    /// is accepted by `make_move`.
    pub proof fn lemma_move_text_parses_back(from: int, to: int, promo: int)
        requires
            0 <= from < 64,
            0 <= to < 64,
            promo == 0 || 2 <= promo <= 5,
        ensures
            parse_move_spec(move_text(from, to, promo)) == Some((from, to, promo)),
    {
        let s = move_text(from, to, promo);
        assert(file_chars()[0] == 'a' && file_chars()[1] == 'b' && file_chars()[2] == 'c'
            && file_chars()[3] == 'd' && file_chars()[4] == 'e' && file_chars()[5] == 'f'
            && file_chars()[6] == 'g' && file_chars()[7] == 'h');
        assert(rank_chars()[0] == '1' && rank_chars()[1] == '2' && rank_chars()[2] == '3'
            && rank_chars()[3] == '4' && rank_chars()[4] == '5' && rank_chars()[5] == '6'
            && rank_chars()[6] == '7' && rank_chars()[7] == '8');
        assert(promo_chars()[2] == 'b' && promo_chars()[3] == 'n' && promo_chars()[4] == 'r'
            && promo_chars()[5] == 'q');
        assert(0 <= from % 8 < 8 && 0 <= from / 8 < 8 && 8 * (from / 8) + from % 8 == from)
            by (nonlinear_arith)
            requires
                0 <= from < 64,
        ;
        assert(0 <= to % 8 < 8 && 0 <= to / 8 < 8 && 8 * (to / 8) + to % 8 == to)
            by (nonlinear_arith)
            requires
                0 <= to < 64,
        ;
        assert(s[0] == file_chars()[from % 8] && s[1] == rank_chars()[from / 8]);
        assert(s[2] == file_chars()[to % 8] && s[3] == rank_chars()[to / 8]);
        assert(file_of(s[0]) == from % 8 && rank_of(s[1]) == from / 8);
        assert(file_of(s[2]) == to % 8 && rank_of(s[3]) == to / 8);
        assert(square_chars_ok(s[0], s[1]) && square_chars_ok(s[2], s[3]));
        if promo == 0 {
            assert(s.len() == 4);
        } else {
            assert(s.len() == 5);
            assert(s[4] == promo_chars()[promo]);
            assert(promo_char_ok(s[4]) && promo_code_of(s[4]) == promo);
        }
    }

    /// With nothing on the board but the two kings the position
    /// classifies as a draw and no legal moves are handed out, even while
    /// the move generator reports the game ongoing.
    pub proof fn lemma_bare_kings_draw(g: Game)
        requires
            g.wf(),
            only_kings(g.squares()),
            cnt_if(g.squares(), 64, pred_occupied()) == 2,
        ensures
            g.classify_spec() == Some(GameResult::Draw),
            g.legal_moves_len() == 0,
    {
        let sq = g.squares();
        lemma_cnt_if_all_false(sq, 64, pred_heavy());
        assert(insufficient_spec(sq));
    }
}

} // verus!
