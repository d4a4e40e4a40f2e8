//! Boards of the `chess` crate, from which the network's input is built.
//! A board is read from FEN text; the names below stand for what the crate
//! answers of the board of a text, as functions of the text alone.

use vstd::prelude::*;
use crate::moves::{Role, chars_of};
use std::str::FromStr;

verus! {

/// Whether `Board::from_str` of the `chess` crate reads the FEN text.
pub uninterp spec fn chess_fen_valid(fen: Seq<char>) -> bool;

/// `Board::side_to_move` of the board of `fen`: whether White is to move.
pub uninterp spec fn chess_white_to_move(fen: Seq<char>) -> bool;

/// `Board::piece_on` of the board of `fen` for each square of `ALL_SQUARES`
/// (`a1`, `b1`, ..., `h8`): the kind of piece on it, if any.
pub uninterp spec fn chess_pieces(fen: Seq<char>) -> Seq<Option<Role>>;

/// `Board::color_on` of the board of `fen` for each square of `ALL_SQUARES`:
/// the colour of the piece on it, `true` for White, if any.
pub uninterp spec fn chess_colors(fen: Seq<char>) -> Seq<Option<bool>>;

/// `Board::castle_rights` of the board of `fen` for White (`white`) or
/// Black: whether that side keeps the right to castle king-side, then
/// queen-side.
pub uninterp spec fn chess_castling(fen: Seq<char>, white: bool) -> (bool, bool);

/// `Board::en_passant` of the board of `fen`, as `Square::to_int`.
pub uninterp spec fn chess_en_passant(fen: Seq<char>) -> Option<u8>;

/// A letter that stands for a piece in a FEN placement.
pub open spec fn is_piece_char(c: char) -> bool {
    c == 'p' || c == 'n' || c == 'b' || c == 'r' || c == 'q' || c == 'k' || c == 'P' || c == 'N' || c == 'B'
        || c == 'R' || c == 'Q' || c == 'K'
}

/// The placement field of a FEN text read from position `i` on (up to the
/// first space or the end), with `rank` ranks done, `file` squares of the
/// current rank done, and the white and black kings seen so far: eight
/// ranks of eight squares, separated by `/`, with exactly one king of each
/// colour.
pub open spec fn placement_from(s: Seq<char>, i: int, rank: int, file: int, wk: bool, bk: bool) -> bool
    decreases s.len() - i,
{
    if i < 0 || i >= s.len() || s[i] == ' ' {
        rank == 7 && file == 8 && wk && bk
    } else {
        let c = s[i];
        if c == '/' {
            file == 8 && rank < 7 && placement_from(s, i + 1, rank + 1, 0, wk, bk)
        } else if '1' <= c && c <= '8' {
            file + (c as int - '0' as int) <= 8 && placement_from(s, i + 1, rank, file + (c as int - '0' as int), wk, bk)
        } else if is_piece_char(c) {
            &&& file < 8
            &&& !(c == 'K' && wk)
            &&& !(c == 'k' && bk)
            &&& placement_from(s, i + 1, rank, file + 1, wk || c == 'K', bk || c == 'k')
        } else {
            false
        }
    }
}

/// The placement field of a FEN text lays out eight ranks of eight squares
/// with exactly one king of each colour: the boards that the `chess` crate
/// can be asked to read (on a board without a king for the side to move,
/// `Board::from_str` reads its tables out of bounds).
pub open spec fn kings_placed(fen: Seq<char>) -> bool {
    placement_from(fen, 0, 0, 0, false, false)
}

/// The `chess` crate can be asked to read the text, and reads it.
pub open spec fn chess_reads(fen: Seq<char>) -> bool {
    kings_placed(fen) && chess_fen_valid(fen)
}

/// Whether the placement field of a FEN text lays out eight ranks of eight
/// squares with exactly one king of each colour.
pub fn placement_checks(fen: &str) -> (r: bool)
    ensures
        r == kings_placed(fen@),
{
    let v = chars_of(fen);
    let mut i: usize = 0;
    let mut rank: u8 = 0;
    let mut file: u8 = 0;
    let mut wk = false;
    let mut bk = false;
    while i < v.len() && v[i] != ' '
        invariant
            v@ == fen@,
            i <= v.len(),
            rank <= 7,
            file <= 8,
            kings_placed(fen@) == placement_from(fen@, i as int, rank as int, file as int, wk, bk),
        decreases v.len() - i,
    {
        let c = v[i];
        if c == '/' {
            if !(file == 8 && rank < 7) {
                return false;
            }
            rank = rank + 1;
            file = 0;
        } else if '1' <= c && c <= '8' {
            let d: u8 = (c as u32 - '0' as u32) as u8;
            if file + d > 8 {
                return false;
            }
            file = file + d;
        } else if c == 'p' || c == 'n' || c == 'b' || c == 'r' || c == 'q' || c == 'k' || c == 'P' || c == 'N'
            || c == 'B' || c == 'R' || c == 'Q' || c == 'K' {
            if file >= 8 || (c == 'K' && wk) || (c == 'k' && bk) {
                return false;
            }
            file = file + 1;
            wk = wk || c == 'K';
            bk = bk || c == 'k';
        } else {
            return false;
        }
        i = i + 1;
    }
    rank == 7 && file == 8 && wk && bk
}

/// `Board::from_str` of the `chess` crate: whether it reads the text. It is
/// asked only of a text with a king of each colour in a well laid out
/// placement, where the crate's lookups stay in bounds.
#[verifier::external_body]
pub(crate) fn reads_as_board(fen: &str) -> (r: bool)
    requires
        kings_placed(fen@),
    ensures
        r == chess_fen_valid(fen@),
{
    chess::Board::from_str(fen).is_ok()
}

/// `Board::side_to_move` of the board of a FEN text.
#[verifier::external_body]
pub(crate) fn side_to_move(fen: &str) -> (r: bool)
    requires
        chess_reads(fen@),
    ensures
        r == chess_white_to_move(fen@),
{
    let board = chess::Board::from_str(fen).unwrap_or_default();
    board.side_to_move() == chess::Color::White
}

/// `Board::piece_on` of the board of a FEN text, for each of the 64 squares
/// of `ALL_SQUARES`.
#[verifier::external_body]
pub(crate) fn pieces_on(fen: &str) -> (r: Vec<Option<Role>>)
    requires
        chess_reads(fen@),
    ensures
        r@ == chess_pieces(fen@),
        r.len() == 64,
{
    let board = chess::Board::from_str(fen).unwrap_or_default();
    chess::ALL_SQUARES.iter().map(|sq| match board.piece_on(*sq)? {
        chess::Piece::Pawn => Some(Role::Pawn),
        chess::Piece::Knight => Some(Role::Knight),
        chess::Piece::Bishop => Some(Role::Bishop),
        chess::Piece::Rook => Some(Role::Rook),
        chess::Piece::Queen => Some(Role::Queen),
        chess::Piece::King => Some(Role::King),
    }).collect()
}

/// `Board::color_on` of the board of a FEN text, for each of the 64 squares
/// of `ALL_SQUARES`, `true` for White.
#[verifier::external_body]
pub(crate) fn colors_on(fen: &str) -> (r: Vec<Option<bool>>)
    requires
        chess_reads(fen@),
    ensures
        r@ == chess_colors(fen@),
        r.len() == 64,
{
    let board = chess::Board::from_str(fen).unwrap_or_default();
    chess::ALL_SQUARES.iter().map(|sq| board.color_on(*sq).map(|c| c == chess::Color::White)).collect()
}

/// `Board::castle_rights` of the board of a FEN text for White (`white`) or
/// Black, read by `CastleRights::has_kingside` and `has_queenside`.
#[verifier::external_body]
pub(crate) fn castle_rights(fen: &str, white: bool) -> (r: (bool, bool))
    requires
        chess_reads(fen@),
    ensures
        r == chess_castling(fen@, white),
{
    let board = chess::Board::from_str(fen).unwrap_or_default();
    let rights = board.castle_rights(if white { chess::Color::White } else { chess::Color::Black });
    (rights.has_kingside(), rights.has_queenside())
}

/// `Board::en_passant` of the board of a FEN text, as `Square::to_int`,
/// which is below 64.
#[verifier::external_body]
pub(crate) fn en_passant(fen: &str) -> (r: Option<u8>)
    requires
        chess_reads(fen@),
    ensures
        r == chess_en_passant(fen@),
        r matches Some(sq) ==> sq < 64,
{
    let board = chess::Board::from_str(fen).unwrap_or_default();
    board.en_passant().map(|sq| sq.to_int())
}

} // verus!
