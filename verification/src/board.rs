//! The boundary to the `chess` move-generator crate.
//!
//! The board itself is opaque: everything the rest of the library knows about
//! a `chess::Board` value is said here, as contracts over a handful of
//! uninterpreted observations (the piece placement, the side to move, the
//! legal-move enumeration, the check status, the Zobrist hash, and the
//! position reached by a move).

use vstd::prelude::*;

verus! {

/// A piece kind, listed in the order of the encoder's channels.
#[derive(Debug, Clone, Copy, PartialEq, Eq, Structural)]
pub enum Piece {
    Pawn,
    Bishop,
    Knight,
    Rook,
    Queen,
    King,
}

/// A side.
#[derive(Debug, Clone, Copy, PartialEq, Eq, Structural)]
pub enum Color {
    White,
    Black,
}

/// The channel an occupied square's piece kind is written to by the encoder.
pub open spec fn piece_channel(p: Piece) -> int {
    match p {
        Piece::Pawn => 0,
        Piece::Bishop => 1,
        Piece::Knight => 2,
        Piece::Rook => 3,
        Piece::Queen => 4,
        Piece::King => 5,
    }
}

/// +1 for White, -1 for Black: the sign the encoder writes.
pub open spec fn color_sign(c: Color) -> int {
    match c {
        Color::White => 1,
        Color::Black => -1,
    }
}

/// One square's contents as a single integer code:
/// 0 for an empty square, otherwise `sign * (channel + 1)`,
/// so White pawn..king are 1..6 and Black pawn..king are -1..-6.
pub open spec fn square_code(o: Option<(Piece, Color)>) -> int {
    match o {
        Option::None => 0,
        Option::Some((p, c)) => color_sign(c) * (piece_channel(p) + 1),
    }
}

/// The contents of all 64 squares, indexed by `rank * 8 + file`
/// (rank 0 is White's back rank, file 0 is the a-file), each square
/// coded as in [`square_code`].
pub uninterp spec fn board_squares(b: chess::Board) -> Seq<int>;

/// Whether White is the side to move.
pub uninterp spec fn board_white_to_move(b: chess::Board) -> bool;

/// The 64-bit Zobrist hash of the position. The `chess` crate builds its
/// Zobrist tables from a fixed seed, so this is a function of the position.
pub uninterp spec fn board_hash(b: chess::Board) -> u64;

/// The legal moves of the position, in the move generator's enumeration
/// order, each as `(source, destination, promotion)`: squares are coded
/// `rank * 8 + file`, and the promotion is 0 for none, otherwise
/// `piece_channel + 1` of the promotion piece (2 bishop, 3 knight,
/// 4 rook, 5 queen).
pub uninterp spec fn board_moves(b: chess::Board) -> Seq<(int, int, int)>;

/// Whether the side to move stands in check.
pub uninterp spec fn board_in_check(b: chess::Board) -> bool;

/// The position reached from `b` by the legal move `(from, to, promo)`.
pub uninterp spec fn board_after(b: chess::Board, from: int, to: int, promo: int) -> chess::Board;

#[verifier::external_type_specification]
#[verifier::external_body]
pub struct ExBoard(chess::Board);

/// Relies on the derived `Clone` of `chess::Board`, a `Copy` type: the
/// clone is the same board.
pub assume_specification[ <chess::Board as Clone>::clone ](b: &chess::Board) -> (r: chess::Board)
    ensures
        r == *b,
;

/// Relies on `chess::Board::default`: the standard starting position,
/// with White to move.
#[verifier::external_body]
pub fn start_board() -> (b: chess::Board)
    ensures
        board_squares(b).len() == 64,
        board_white_to_move(b),
{
    chess::Board::default()
}

/// Relies on `str::parse::<chess::Board>`: builds a position from FEN text,
/// or reports the parser's error.
#[verifier::external_body]
pub fn board_from_fen(fen: &str) -> (r: Result<chess::Board, String>)
    ensures
        r is Ok ==> board_squares(r->Ok_0).len() == 64,
{
    match fen.parse::<chess::Board>() {
        Ok(b) => Ok(b),
        Err(e) => Err(format!("Invalid FEN: {}", e)),
    }
}

/// Relies on `chess::Board::piece_on` and `chess::Board::color_on`
/// (via `chess::Square::make_square`): the piece standing on one square.
#[verifier::external_body]
pub fn piece_on_square(b: &chess::Board, rank: u8, file: u8) -> (r: Option<(Piece, Color)>)
    requires
        rank < 8,
        file < 8,
    ensures
        square_code(r) == board_squares(*b)[rank as int * 8 + file as int],
{
    let sq = chess::Square::make_square(
        chess::Rank::from_index(rank as usize),
        chess::File::from_index(file as usize),
    );
    let c = if b.color_on(sq) == Some(chess::Color::White) { Color::White } else { Color::Black };
    match b.piece_on(sq) {
        Some(chess::Piece::Pawn) => Some((Piece::Pawn, c)),
        Some(chess::Piece::Knight) => Some((Piece::Knight, c)),
        Some(chess::Piece::Bishop) => Some((Piece::Bishop, c)),
        Some(chess::Piece::Rook) => Some((Piece::Rook, c)),
        Some(chess::Piece::Queen) => Some((Piece::Queen, c)),
        Some(chess::Piece::King) => Some((Piece::King, c)),
        None => None,
    }
}

/// Relies on `chess::MoveGen::new_legal`: the legal moves of the position,
/// each handed out as plain `(source, destination, promotion)` indices.
/// Promotions only ever name a bishop, knight, rook or queen.
#[verifier::external_body]
pub fn legal_move_list(b: &chess::Board) -> (r: Vec<(u8, u8, u8)>)
    ensures
        r@.len() == board_moves(*b).len(),
        forall|i: int|
            0 <= i < r@.len() ==> (r@[i].0 as int, r@[i].1 as int, r@[i].2 as int)
                == board_moves(*b)[i],
        forall|i: int|
            0 <= i < r@.len() ==> r@[i].0 < 64 && r@[i].1 < 64 && (r@[i].2 == 0 || 2 <= r@[i].2
                <= 5),
{
    chess::MoveGen::new_legal(b)
        .map(|m| {
            let promo = match m.get_promotion() {
                None => 0u8,
                Some(chess::Piece::Bishop) => 2,
                Some(chess::Piece::Knight) => 3,
                Some(chess::Piece::Rook) => 4,
                Some(chess::Piece::Queen) => 5,
                Some(_) => 0,
            };
            (m.get_source().to_index() as u8, m.get_dest().to_index() as u8, promo)
        })
        .collect()
}

/// Relies on `chess::Board::legal`: true exactly when the move stands in the
/// legal-move enumeration of the position.
#[verifier::external_body]
pub fn move_is_legal(b: &chess::Board, fr: u8, ff: u8, tr: u8, tf: u8, promo: u8) -> (r: bool)
    requires
        fr < 8,
        ff < 8,
        tr < 8,
        tf < 8,
        promo == 0 || 2 <= promo <= 5,
    ensures
        r == board_moves(*b).contains(
            (fr as int * 8 + ff as int, tr as int * 8 + tf as int, promo as int),
        ),
{
    let mv = chess::ChessMove::new(
        chess::Square::make_square(chess::Rank::from_index(fr as usize), chess::File::from_index(ff as usize)),
        chess::Square::make_square(chess::Rank::from_index(tr as usize), chess::File::from_index(tf as usize)),
        match promo {
            2 => Some(chess::Piece::Bishop),
            3 => Some(chess::Piece::Knight),
            4 => Some(chess::Piece::Rook),
            5 => Some(chess::Piece::Queen),
            _ => None,
        },
    );
    b.legal(mv)
}

/// Relies on `chess::Board::make_move_new`: the position after a legal move;
/// the side to move flips.
#[verifier::external_body]
pub fn apply_move(b: &chess::Board, fr: u8, ff: u8, tr: u8, tf: u8, promo: u8) -> (r: chess::Board)
    requires
        fr < 8,
        ff < 8,
        tr < 8,
        tf < 8,
        promo == 0 || 2 <= promo <= 5,
        board_moves(*b).contains(
            (fr as int * 8 + ff as int, tr as int * 8 + tf as int, promo as int),
        ),
    ensures
        r == board_after(*b, fr as int * 8 + ff as int, tr as int * 8 + tf as int, promo as int),
        board_squares(r).len() == 64,
        board_white_to_move(r) == !board_white_to_move(*b),
{
    let mv = chess::ChessMove::new(
        chess::Square::make_square(chess::Rank::from_index(fr as usize), chess::File::from_index(ff as usize)),
        chess::Square::make_square(chess::Rank::from_index(tr as usize), chess::File::from_index(tf as usize)),
        match promo {
            2 => Some(chess::Piece::Bishop),
            3 => Some(chess::Piece::Knight),
            4 => Some(chess::Piece::Rook),
            5 => Some(chess::Piece::Queen),
            _ => None,
        },
    );
    b.make_move_new(mv)
}

/// What the move generator reports of a position on its own.
#[derive(Debug, Clone, Copy, PartialEq, Eq, Structural)]
pub enum GenStatus {
    Ongoing,
    Stalemate,
    Checkmate,
}

/// Relies on `chess::Board::status`: `Ongoing` exactly when legal moves
/// remain; with none left, `Checkmate` in check and `Stalemate` otherwise.
#[verifier::external_body]
pub fn board_status(b: &chess::Board) -> (r: GenStatus)
    ensures
        r is Ongoing <==> board_moves(*b).len() > 0,
        r is Checkmate <==> (board_moves(*b).len() == 0 && board_in_check(*b)),
        r is Stalemate <==> (board_moves(*b).len() == 0 && !board_in_check(*b)),
{
    match b.status() {
        chess::BoardStatus::Ongoing => GenStatus::Ongoing,
        chess::BoardStatus::Stalemate => GenStatus::Stalemate,
        chess::BoardStatus::Checkmate => GenStatus::Checkmate,
    }
}

/// Relies on `chess::Board::checkers`: whether any opposing piece gives check.
#[verifier::external_body]
pub fn in_check(b: &chess::Board) -> (r: bool)
    ensures
        r == board_in_check(*b),
{
    b.checkers().popcnt() > 0
}

/// Relies on `chess::Board::get_hash`: the position's Zobrist hash.
#[verifier::external_body]
pub fn hash_of(b: &chess::Board) -> (r: u64)
    ensures
        r == board_hash(*b),
{
    b.get_hash()
}

/// Relies on `chess::Board::side_to_move`.
#[verifier::external_body]
pub fn white_to_move(b: &chess::Board) -> (r: bool)
    ensures
        r == board_white_to_move(*b),
{
    b.side_to_move() == chess::Color::White
}

} // verus!
