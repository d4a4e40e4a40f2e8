//! Chess positions, held as the FEN text that the `shakmaty` crate writes
//! for them, and the questions that the library asks of them. The rules of
//! chess (which moves are legal, what a move leaves on the board) are
//! `shakmaty`'s; the names below stand for its answers, as functions of the
//! FEN text alone.

use vstd::prelude::*;
use crate::moves::{Role, UciMove};
use crate::encoding::moves_shaped;

verus! {

/// Whether `shakmaty` reads `fen` (`Fen::from_ascii`) as a legal position of
/// standard chess (`Fen::into_position::<Chess>` with standard castling).
pub uninterp spec fn fen_is_position(fen: Seq<char>) -> bool;

/// `Position::turn` of the position of `fen`: whether White is to move.
pub uninterp spec fn fen_white_to_move(fen: Seq<char>) -> bool;

/// `Board::role_at` on the board of the position of `fen`: the kind of piece
/// on square `sq`, if any.
pub uninterp spec fn fen_role_at(fen: Seq<char>, sq: u8) -> Option<Role>;

/// `Position::legal_moves` of the position of `fen`, each written as UCI
/// text in standard castling notation, in the order the crate lists them.
pub uninterp spec fn fen_legal_moves(fen: Seq<char>) -> Seq<Seq<char>>;

/// The position of `fen` after the move of the UCI text `uci`, written as
/// FEN: `None` where `UciMove::from_str` refuses the text or
/// `UciMove::to_move` finds no legal move for it.
pub uninterp spec fn fen_after_uci(fen: Seq<char>, uci: Seq<char>) -> Option<Seq<char>>;

/// `Position::fullmoves` of the position of `fen`: the number of the current
/// move.
pub uninterp spec fn fen_fullmoves(fen: Seq<char>) -> u32;

/// `Position::is_game_over` of the position of `fen`: whether the game has
/// ended there (no legal move, or material that cannot mate).
pub uninterp spec fn fen_is_game_over(fen: Seq<char>) -> bool;

/// `Position::is_checkmate` of the position of `fen`.
pub uninterp spec fn fen_is_checkmate(fen: Seq<char>) -> bool;

/// `Fen::from_ascii` then `Fen::into_position::<Chess>` of `shakmaty`:
/// whether the FEN text is a legal standard position.
#[verifier::external_body]
fn reads_as_position(fen: &str) -> (r: bool)
    ensures
        r == fen_is_position(fen@),
{
    shakmaty::fen::Fen::from_ascii(fen.as_bytes()).ok().and_then(
        |f| f.into_position::<shakmaty::Chess>(shakmaty::CastlingMode::Standard).ok(),
    ).is_some()
}

/// The FEN text of the starting position of standard chess: White to move,
/// all castling rights, no en passant square, no halfmove, move 1.
pub open spec fn start_fen_text() -> Seq<char> {
    "rnbqkbnr/pppppppp/8/8/8/8/PPPPPPPP/RNBQKBNR w KQkq - 0 1"@
}

/// `Chess::default` of `shakmaty`, written as FEN by `Fen::from_position`:
/// the starting position (`Chess::new`: the initial board, White to move,
/// standard castling rights, no en passant square, halfmoves 0, fullmoves
/// 1), which the crate writes as [`start_fen_text`]. The contract also
/// claims that the crate reads back the text it writes for its own starting
/// position.
#[verifier::external_body]
fn start_fen() -> (r: String)
    ensures
        r@ == start_fen_text(),
        fen_is_position(r@),
{
    shakmaty::fen::Fen::from_position(&shakmaty::Chess::default(), shakmaty::EnPassantMode::Legal).to_string()
}

/// `Position::turn` of `shakmaty` on the position of a FEN text.
#[verifier::external_body]
fn turn_of(fen: &str) -> (r: bool)
    requires
        fen_is_position(fen@),
    ensures
        r == fen_white_to_move(fen@),
{
    let pos: Option<shakmaty::Chess> = shakmaty::fen::Fen::from_ascii(fen.as_bytes()).ok().and_then(
        |f| f.into_position(shakmaty::CastlingMode::Standard).ok(),
    );
    pos.map_or(true, |p| shakmaty::Position::turn(&p).is_white())
}

/// `Board::role_at` of `shakmaty` on the board of the position of a FEN
/// text.
#[verifier::external_body]
fn role_on(fen: &str, sq: u8) -> (r: Option<Role>)
    requires
        fen_is_position(fen@),
        sq < 64,
    ensures
        r == fen_role_at(fen@, sq),
{
    let pos: Option<shakmaty::Chess> = shakmaty::fen::Fen::from_ascii(fen.as_bytes()).ok().and_then(
        |f| f.into_position(shakmaty::CastlingMode::Standard).ok(),
    );
    match shakmaty::Position::board(&pos?).role_at(shakmaty::Square::new(u32::from(sq)))? {
        shakmaty::Role::Pawn => Some(Role::Pawn),
        shakmaty::Role::Knight => Some(Role::Knight),
        shakmaty::Role::Bishop => Some(Role::Bishop),
        shakmaty::Role::Rook => Some(Role::Rook),
        shakmaty::Role::Queen => Some(Role::Queen),
        shakmaty::Role::King => Some(Role::King),
    }
}

/// `Position::legal_moves` of `shakmaty` on the position of a FEN text, each
/// move written by `Move::to_uci` in standard castling notation. The
/// contract also claims what the crate's move generation gives for standard
/// chess: every legal move is written as a normal move (castling as the
/// king's two-square step, en passant as the pawn's diagonal step), which is
/// a knight jump, or a step along a line (by a king, queen, rook, bishop or
/// pawn; with a promotion to a queen exactly when a pawn reaches the last
/// rank), or an under-promotion of a pawn from the seventh rank to the
/// eighth by at most one file; the moving piece is the one on the origin
/// square; and no two legal moves are written as the same move.
#[verifier::external_body]
fn legal_uci(fen: &str) -> (r: Vec<String>)
    requires
        fen_is_position(fen@),
    ensures
        r@.map_values(|s: String| s@) == fen_legal_moves(fen@),
        moves_shaped(fen@, r@.map_values(|s: String| s@)),
{
    let pos: Option<shakmaty::Chess> = shakmaty::fen::Fen::from_ascii(fen.as_bytes()).ok().and_then(
        |f| f.into_position(shakmaty::CastlingMode::Standard).ok(),
    );
    pos.map_or(Vec::new(), |p| {
        shakmaty::Position::legal_moves(&p).iter().map(|m| m.to_uci(shakmaty::CastlingMode::Standard).to_string()).collect()
    })
}

/// `UciMove::from_str`, `UciMove::to_move` and `Position::play_unchecked` of
/// `shakmaty` on the position of a FEN text, the result written by
/// `Fen::from_position`.
#[verifier::external_body]
fn play_uci(fen: &str, uci: &str) -> (r: Option<String>)
    requires
        fen_is_position(fen@),
    ensures
        r matches Some(s) ==> fen_after_uci(fen@, uci@) == Some(s@),
        r is None ==> fen_after_uci(fen@, uci@) is None,
{
    let mut pos: shakmaty::Chess = shakmaty::fen::Fen::from_ascii(fen.as_bytes()).ok()?.into_position(
        shakmaty::CastlingMode::Standard,
    ).ok()?;
    let m = uci.parse::<shakmaty::uci::UciMove>().ok()?.to_move(&pos).ok()?;
    shakmaty::Position::play_unchecked(&mut pos, m);
    Some(shakmaty::fen::Fen::from_position(&pos, shakmaty::EnPassantMode::Legal).to_string())
}

/// `Position::fullmoves` of `shakmaty` on the position of a FEN text; the
/// crate keeps it as a `NonZeroU32`.
#[verifier::external_body]
fn fullmoves_of(fen: &str) -> (r: u32)
    requires
        fen_is_position(fen@),
    ensures
        r == fen_fullmoves(fen@),
        r >= 1,
{
    let pos: Option<shakmaty::Chess> = shakmaty::fen::Fen::from_ascii(fen.as_bytes()).ok().and_then(
        |f| f.into_position(shakmaty::CastlingMode::Standard).ok(),
    );
    pos.map_or(1, |p| shakmaty::Position::fullmoves(&p).get())
}

/// `Position::is_game_over` of `shakmaty` on the position of a FEN text.
#[verifier::external_body]
fn game_over_at(fen: &str) -> (r: bool)
    requires
        fen_is_position(fen@),
    ensures
        r == fen_is_game_over(fen@),
{
    let pos: Option<shakmaty::Chess> = shakmaty::fen::Fen::from_ascii(fen.as_bytes()).ok().and_then(
        |f| f.into_position(shakmaty::CastlingMode::Standard).ok(),
    );
    pos.map_or(false, |p| shakmaty::Position::is_game_over(&p))
}

/// `Position::is_checkmate` of `shakmaty` on the position of a FEN text.
#[verifier::external_body]
fn checkmate_at(fen: &str) -> (r: bool)
    requires
        fen_is_position(fen@),
    ensures
        r == fen_is_checkmate(fen@),
{
    let pos: Option<shakmaty::Chess> = shakmaty::fen::Fen::from_ascii(fen.as_bytes()).ok().and_then(
        |f| f.into_position(shakmaty::CastlingMode::Standard).ok(),
    );
    pos.map_or(false, |p| shakmaty::Position::is_checkmate(&p))
}

/// A legal position of standard chess, kept as its FEN text.
pub struct Position {
    fen: String,
}

impl View for Position {
    type V = Seq<char>;

    /// The FEN text of the position.
    closed spec fn view(&self) -> Seq<char> {
        self.fen@
    }
}

impl Clone for Position {
    fn clone(&self) -> (r: Self)
        ensures
            r@ == self@,
    {
        proof {
            use_type_invariant(self);
        }
        Position { fen: self.fen.clone() }
    }
}

/// Whether a move is legal in the position of `fen`: `shakmaty` plays it
/// from its UCI text, and reads back the position it leaves.
pub open spec fn legal_in(fen: Seq<char>, m: UciMove) -> bool {
    fen_after_uci(fen, m.text()) matches Some(f) && fen_is_position(f)
}

impl Position {
    #[verifier::type_invariant]
    spec fn readable(self) -> bool {
        fen_is_position(self.fen@)
    }

    /// The position of a FEN text, where `shakmaty` reads it as a legal
    /// position.
    pub fn from_fen(fen: &str) -> (r: Option<Position>)
        ensures
            r is Some <==> fen_is_position(fen@),
            r matches Some(p) ==> p@ == fen@,
    {
        if reads_as_position(fen) {
            Some(Position { fen: fen.to_owned() })
        } else {
            None
        }
    }

    /// The starting position.
    pub fn start() -> (p: Position)
        ensures
            p@ == start_fen_text(),
    {
        Position { fen: start_fen() }
    }

    /// The FEN text of the position.
    pub fn fen(&self) -> (r: &str)
        ensures
            r@ == self@,
    {
        self.fen.as_str()
    }

    /// Whether White is to move.
    pub fn white_to_move(&self) -> (r: bool)
        ensures
            r == fen_white_to_move(self@),
    {
        proof {
            use_type_invariant(self);
        }
        turn_of(self.fen.as_str())
    }

    /// The kind of piece on a square, if any.
    pub fn role_at(&self, sq: u8) -> (r: Option<Role>)
        requires
            sq < 64,
        ensures
            r == fen_role_at(self@, sq),
    {
        proof {
            use_type_invariant(self);
        }
        role_on(self.fen.as_str(), sq)
    }

    /// The legal moves, as UCI text.
    pub fn legal_moves(&self) -> (r: Vec<String>)
        ensures
            r@.map_values(|s: String| s@) == fen_legal_moves(self@),
            moves_shaped(self@, fen_legal_moves(self@)),
    {
        proof {
            use_type_invariant(self);
        }
        legal_uci(self.fen.as_str())
    }

    /// The position after the move of a UCI text: `None` where the text
    /// names no legal move (or, which `shakmaty` never gives, where the
    /// position it leaves cannot be read back).
    pub fn play(&self, uci: &str) -> (r: Option<Position>)
        ensures
            r is Some <==> (fen_after_uci(self@, uci@) matches Some(f) && fen_is_position(f)),
            r matches Some(p) ==> fen_after_uci(self@, uci@) == Some(p@),
    {
        proof {
            use_type_invariant(self);
        }
        match play_uci(self.fen.as_str(), uci) {
            Some(s) => {
                if reads_as_position(s.as_str()) {
                    Some(Position { fen: s })
                } else {
                    None
                }
            },
            None => None,
        }
    }

    /// Whether the game has ended in this position.
    pub fn is_game_over(&self) -> (r: bool)
        ensures
            r == fen_is_game_over(self@),
    {
        proof {
            use_type_invariant(self);
        }
        game_over_at(self.fen.as_str())
    }

    /// Whether the side to move is checkmated.
    pub fn is_checkmate(&self) -> (r: bool)
        ensures
            r == fen_is_checkmate(self@),
    {
        proof {
            use_type_invariant(self);
        }
        checkmate_at(self.fen.as_str())
    }

    /// The number of the current move, from 1.
    pub fn fullmoves(&self) -> (r: u32)
        ensures
            r == fen_fullmoves(self@),
            r >= 1,
    {
        proof {
            use_type_invariant(self);
        }
        fullmoves_of(self.fen.as_str())
    }
}

} // verus!
