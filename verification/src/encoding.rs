//! The network's move index and the UCI move it stands for, both ways.
//!
//! The network sees the board from the side to move: for Black every square
//! is mirrored (`sq ^ 56`), so that its own pawns always move up. A move is
//! then numbered `plane * 64 + from`, where `from` is its origin square in that
//! view and `plane` says how it moves:
//! - planes `0..56`: a line move, `7 * direction + (distance - 1)`, with the
//!   directions N, NE, E, SE, S, SW, W, NW;
//! - planes `56..64`: a knight jump, in the order of [`knight_delta`];
//! - planes `64..73`: an under-promotion from the seventh to the eighth rank,
//!   `64 + 3 * (file step + 1) + k` with `k` 0, 1, 2 for knight, bishop, rook.
//!
//! A promotion to a queen is numbered as the line move it is.

use vstd::prelude::*;
use crate::moves::{Role, UciMove};
use crate::position::{Position, fen_white_to_move, fen_role_at};

verus! {

/// Number of move indices: `73 * 64`.
pub const NB_INDICES: usize = 4672;

// ---------------------------------------------------------------------------
// Squares and steps
// ---------------------------------------------------------------------------

/// The same square seen from the other side of the board.
pub open spec fn mirror_square(sq: int) -> int {
    (7 - sq / 8) * 8 + sq % 8
}

/// The square as the side to move sees it.
pub open spec fn view_square(sq: int, white: bool) -> int {
    if white {
        sq
    } else {
        mirror_square(sq)
    }
}

/// File and rank steps of each line direction, N first and then clockwise.
pub open spec fn direction_spec(k: int) -> (int, int) {
    if k == 0 {
        (0, 1)
    } else if k == 1 {
        (1, 1)
    } else if k == 2 {
        (1, 0)
    } else if k == 3 {
        (1, -1)
    } else if k == 4 {
        (0, -1)
    } else if k == 5 {
        (-1, -1)
    } else if k == 6 {
        (-1, 0)
    } else {
        (-1, 1)
    }
}

/// File and rank steps of each knight jump.
pub open spec fn knight_spec(k: int) -> (int, int) {
    if k == 0 {
        (1, 2)
    } else if k == 1 {
        (2, 1)
    } else if k == 2 {
        (2, -1)
    } else if k == 3 {
        (1, -2)
    } else if k == 4 {
        (-1, -2)
    } else if k == 5 {
        (-2, -1)
    } else if k == 6 {
        (-2, 1)
    } else {
        (-1, 2)
    }
}

pub open spec fn sign(x: int) -> int {
    if x > 0 {
        1
    } else if x < 0 {
        -1
    } else {
        0
    }
}

pub open spec fn abs(x: int) -> int {
    if x < 0 {
        -x
    } else {
        x
    }
}

/// The direction whose steps have the given signs.
pub open spec fn direction_of(sf: int, sr: int) -> int {
    if sf == 0 && sr == 1 {
        0
    } else if sf == 1 && sr == 1 {
        1
    } else if sf == 1 && sr == 0 {
        2
    } else if sf == 1 && sr == -1 {
        3
    } else if sf == 0 && sr == -1 {
        4
    } else if sf == -1 && sr == -1 {
        5
    } else if sf == -1 && sr == 0 {
        6
    } else {
        7
    }
}

/// The knight plane offset of a jump.
pub open spec fn knight_of(df: int, dr: int) -> int {
    if df == 1 && dr == 2 {
        0
    } else if df == 2 && dr == 1 {
        1
    } else if df == 2 && dr == -1 {
        2
    } else if df == 1 && dr == -2 {
        3
    } else if df == -1 && dr == -2 {
        4
    } else if df == -2 && dr == -1 {
        5
    } else if df == -2 && dr == 1 {
        6
    } else {
        7
    }
}

pub open spec fn is_knight_jump(df: int, dr: int) -> bool {
    (abs(dr) == 2 && abs(df) == 1) || (abs(dr) == 1 && abs(df) == 2)
}

// ---------------------------------------------------------------------------
// From a move to its index
// ---------------------------------------------------------------------------

/// Origin square of a move; 0 for a drop or the null move.
pub open spec fn origin(m: UciMove) -> int {
    match m {
        UciMove::Normal { from, .. } => from as int,
        _ => 0,
    }
}

/// Target square of a move; 0 for the null move.
pub open spec fn target(m: UciMove) -> int {
    match m {
        UciMove::Normal { to, .. } => to as int,
        UciMove::Put { to, .. } => to as int,
        UciMove::Null => 0,
    }
}

pub open spec fn promotion_of(m: UciMove) -> Option<Role> {
    match m {
        UciMove::Normal { promotion, .. } => promotion,
        _ => None,
    }
}

/// Steps of a move in files and ranks, as the side to move sees it.
pub open spec fn file_step(m: UciMove, white: bool) -> int {
    view_square(target(m), white) % 8 - view_square(origin(m), white) % 8
}

pub open spec fn rank_step(m: UciMove, white: bool) -> int {
    view_square(target(m), white) / 8 - view_square(origin(m), white) / 8
}

pub open spec fn is_under_promotion(m: UciMove) -> bool {
    promotion_of(m) matches Some(r) && r != Role::Queen
}

/// The index of a move can be computed: an under-promotion never steps
/// more than one file to the left.
pub open spec fn encodable(m: UciMove, white: bool) -> bool {
    is_under_promotion(m) ==> file_step(m, white) >= -1
}

/// The index of a move given its origin square and its steps as the side to
/// move sees them, and its promotion.
pub open spec fn encode_parts(df: int, dr: int, from: int, promotion: Option<Role>) -> Option<int> {
    if promotion matches Some(r) && r != Role::Queen {
        let k: int = match promotion {
            Some(Role::Knight) => 0,
            Some(Role::Bishop) => 1,
            Some(Role::Rook) => 2,
            _ => -1,
        };
        if k < 0 {
            None
        } else {
            Some((64 + (df + 1) * 3 + k) * 64 + from)
        }
    } else if is_knight_jump(df, dr) {
        Some((56 + knight_of(df, dr)) * 64 + from)
    } else {
        let dist = if abs(dr) >= abs(df) {
            abs(dr)
        } else {
            abs(df)
        };
        if dist == 0 {
            None
        } else {
            Some((direction_of(sign(df), sign(dr)) * 7 + dist - 1) * 64 + from)
        }
    }
}

/// The index of a move, or `None` for a move that has none.
pub open spec fn encode(m: UciMove, white: bool) -> Option<int> {
    encode_parts(
        file_step(m, white),
        rank_step(m, white),
        view_square(origin(m), white),
        promotion_of(m),
    )
}

// ---------------------------------------------------------------------------
// From an index to its move
// ---------------------------------------------------------------------------

/// The move that an index stands for, as the side to move sees it.
/// `origin_pawn` says whether a pawn stands on the move's origin square; a
/// line move of a pawn to the last rank is then a promotion to a queen.
pub open spec fn decode(index: int, origin_pawn: bool) -> Option<UciMove> {
    if index < 0 || index > 4671 {
        None
    } else {
        let from = index % 64;
        let plane = index / 64;
        let ff = from % 8;
        let fr = from / 8;
        let (tf, tr, promotion) = if plane < 56 {
            let (df, dr) = direction_spec(plane / 7);
            let d = plane % 7 + 1;
            let tr = fr + dr * d;
            (ff + df * d, tr, if origin_pawn && tr == 7 { Some(Role::Queen) } else { None })
        } else if plane < 64 {
            let (df, dr) = knight_spec(plane - 56);
            (ff + df, fr + dr, None)
        } else {
            let residue = plane - 64;
            let p = if residue % 3 == 0 {
                Role::Knight
            } else if residue % 3 == 1 {
                Role::Bishop
            } else {
                Role::Rook
            };
            (ff + residue / 3 - 1, if fr == 6 { 7 } else { -1 }, Some(p))
        };
        if 0 <= tf <= 7 && 0 <= tr <= 7 {
            Some(UciMove::Normal { from: from as u8, to: (tr * 8 + tf) as u8, promotion })
        } else {
            None
        }
    }
}

/// An index has a move: it is below 4672 and its move stays on the board.
pub open spec fn index_has_move(index: int) -> bool {
    decode(index, false) is Some
}

/// A move mirrored to the other side of the board.
pub open spec fn mirror_move(m: UciMove) -> UciMove {
    match m {
        UciMove::Normal { from, to, promotion } => UciMove::Normal {
            from: mirror_square(from as int) as u8,
            to: mirror_square(to as int) as u8,
            promotion,
        },
        _ => m,
    }
}

/// The move on the real board that an index stands for, with White or Black
/// to move and with or without a pawn on the real origin square.
pub open spec fn decode_for(index: int, white: bool, origin_pawn: bool) -> Option<UciMove> {
    match decode(index, origin_pawn) {
        Some(m) => Some(if white { m } else { mirror_move(m) }),
        None => None,
    }
}

// ---------------------------------------------------------------------------
// Executable functions
// ---------------------------------------------------------------------------

proof fn lemma_square_bits(x: u8)
    requires
        x < 64,
    ensures
        x >> 3u8 == x / 8,
        x & 7u8 == x % 8,
        x ^ 56u8 == mirror_square(x as int),
        (x ^ 56u8) < 64,
{
    assert(x >> 3u8 == x / 8) by (bit_vector);
    assert(x & 7u8 == x % 8) by (bit_vector);
    assert(x ^ 56u8 == (7 - x / 8) * 8 + x % 8) by (bit_vector)
        requires
            x < 64,
    ;
    assert((x ^ 56u8) < 64) by (bit_vector)
        requires
            x < 64,
    ;
}

proof fn lemma_index_bits(plane: usize, from: u8)
    requires
        plane < 128,
        from < 64,
    ensures
        (plane << 6usize) | (from as usize) == plane * 64 + from,
{
    let f = from as usize;
    assert((plane << 6usize) | f == plane * 64 + f) by (bit_vector)
        requires
            plane < 128,
            f < 64,
    ;
}

/// File and rank steps of a line direction.
pub fn direction(k: usize) -> (r: (i8, i8))
    requires
        k < 8,
    ensures
        r.0 as int == direction_spec(k as int).0,
        r.1 as int == direction_spec(k as int).1,
{
    if k == 0 {
        (0, 1)
    } else if k == 1 {
        (1, 1)
    } else if k == 2 {
        (1, 0)
    } else if k == 3 {
        (1, -1)
    } else if k == 4 {
        (0, -1)
    } else if k == 5 {
        (-1, -1)
    } else if k == 6 {
        (-1, 0)
    } else {
        (-1, 1)
    }
}

/// File and rank steps of a knight jump.
pub fn knight_delta(k: usize) -> (r: (i8, i8))
    requires
        k < 8,
    ensures
        r.0 as int == knight_spec(k as int).0,
        r.1 as int == knight_spec(k as int).1,
{
    if k == 0 {
        (1, 2)
    } else if k == 1 {
        (2, 1)
    } else if k == 2 {
        (2, -1)
    } else if k == 3 {
        (1, -2)
    } else if k == 4 {
        (-1, -2)
    } else if k == 5 {
        (-2, -1)
    } else if k == 6 {
        (-2, 1)
    } else {
        (-1, 2)
    }
}

/// The index of a move, as the side to move (`is_white`) sees it, or `None`
/// where it has none (a null move, or a promotion to a pawn or a king).
pub fn real_to_ia(m: &UciMove, is_white: bool) -> (r: Option<usize>)
    requires
        m.wf(),
        encodable(*m, is_white),
    ensures
        r matches Some(i) ==> encode(*m, is_white) == Some(i as int),
        r is None ==> encode(*m, is_white) is None,
{
    let from_sq: u8 = match m {
        UciMove::Normal { from, .. } => *from,
        _ => 0,
    };
    let to_sq: u8 = match m {
        UciMove::Normal { to, .. } => *to,
        UciMove::Put { to, .. } => *to,
        UciMove::Null => 0,
    };
    proof {
        lemma_square_bits(from_sq);
        lemma_square_bits(to_sq);
    }
    let (from_val, to_val): (u8, u8) = if is_white {
        (from_sq, to_sq)
    } else {
        (from_sq ^ 56, to_sq ^ 56)
    };
    proof {
        lemma_square_bits(from_val);
        lemma_square_bits(to_val);
    }
    let from_rank: i8 = (from_val >> 3) as i8;
    let from_file: i8 = (from_val & 7) as i8;
    let to_rank: i8 = (to_val >> 3) as i8;
    let to_file: i8 = (to_val & 7) as i8;
    let delta_rank: i8 = to_rank - from_rank;
    let delta_file: i8 = to_file - from_file;
    assert(delta_file as int == file_step(*m, is_white));
    assert(delta_rank as int == rank_step(*m, is_white));

    let promotion: Option<Role> = match m {
        UciMove::Normal { promotion, .. } => *promotion,
        _ => None,
    };
    index_of_steps(delta_file, delta_rank, from_val, promotion)
}

/// The index of a move given its steps and origin square as the side to move
/// sees them, and its promotion.
pub fn index_of_steps(delta_file: i8, delta_rank: i8, from_val: u8, promotion: Option<Role>) -> (r: Option<usize>)
    requires
        -7 <= delta_file <= 7,
        -7 <= delta_rank <= 7,
        from_val < 64,
        promotion matches Some(p) && p != Role::Queen ==> delta_file >= -1,
    ensures
        r matches Some(i) ==> encode_parts(delta_file as int, delta_rank as int, from_val as int, promotion) == Some(i as int),
        r is None ==> encode_parts(delta_file as int, delta_rank as int, from_val as int, promotion) is None,
{
    if let Some(role) = promotion {
        if role != Role::Queen {
            let promo_idx: usize = match role {
                Role::Knight => 0,
                Role::Bishop => 1,
                Role::Rook => 2,
                _ => {
                    return None;
                },
            };
            let dir_idx: i8 = delta_file + 1;
            let plane: usize = 64 + (dir_idx as usize * 3) + promo_idx;
            proof {
                lemma_index_bits(plane, from_val);
            }
            return Some((plane << 6) | (from_val as usize));
        }
    }
    let abs_r: i8 = if delta_rank < 0 {
        -delta_rank
    } else {
        delta_rank
    };
    let abs_f: i8 = if delta_file < 0 {
        -delta_file
    } else {
        delta_file
    };
    let plane: usize;
    if (abs_r == 2 && abs_f == 1) || (abs_r == 1 && abs_f == 2) {
        plane = knight_plane(delta_file, delta_rank);
    } else {
        let dist: i8 = if abs_r >= abs_f {
            abs_r
        } else {
            abs_f
        };
        if dist == 0 {
            return None;
        }
        plane = line_plane(delta_file, delta_rank, dist);
    }
    proof {
        lemma_index_bits(plane, from_val);
    }
    Some((plane << 6) | (from_val as usize))
}

fn knight_plane(delta_file: i8, delta_rank: i8) -> (plane: usize)
    requires
        is_knight_jump(delta_file as int, delta_rank as int),
    ensures
        plane == 56 + knight_of(delta_file as int, delta_rank as int),
{
    if delta_file == 1 && delta_rank == 2 {
        56
    } else if delta_file == 2 && delta_rank == 1 {
        57
    } else if delta_file == 2 && delta_rank == -1 {
        58
    } else if delta_file == 1 && delta_rank == -2 {
        59
    } else if delta_file == -1 && delta_rank == -2 {
        60
    } else if delta_file == -2 && delta_rank == -1 {
        61
    } else if delta_file == -2 && delta_rank == 1 {
        62
    } else {
        63
    }
}

fn line_plane(delta_file: i8, delta_rank: i8, dist: i8) -> (plane: usize)
    requires
        1 <= dist <= 7,
    ensures
        plane == direction_of(sign(delta_file as int), sign(delta_rank as int)) * 7 + dist - 1,
{
    let sign_r: i8 = if delta_rank > 0 {
        1
    } else if delta_rank < 0 {
        -1
    } else {
        0
    };
    let sign_f: i8 = if delta_file > 0 {
        1
    } else if delta_file < 0 {
        -1
    } else {
        0
    };
    let dir_idx: usize = if sign_f == 0 && sign_r == 1 {
        0
    } else if sign_f == 1 && sign_r == 1 {
        1
    } else if sign_f == 1 && sign_r == 0 {
        2
    } else if sign_f == 1 && sign_r == -1 {
        3
    } else if sign_f == 0 && sign_r == -1 {
        4
    } else if sign_f == -1 && sign_r == -1 {
        5
    } else if sign_f == -1 && sign_r == 0 {
        6
    } else {
        7
    };
    (dir_idx * 7) + (dist as usize - 1)
}

/// The move that an index stands for, as the side to move sees it, given
/// whether a pawn stands on its origin square.
pub fn move_of_index(index: usize, origin_pawn: bool) -> (r: Option<UciMove>)
    ensures
        r == decode(index as int, origin_pawn),
{
    if index > 4671 {
        return None;
    }
    let from_sq_idx: u8 = (index & 63) as u8;
    let plane: usize = index >> 6;
    assert(index & 63 == index % 64 && index >> 6usize == index / 64) by (bit_vector);
    proof {
        lemma_square_bits(from_sq_idx);
    }
    let from_file: i8 = (from_sq_idx & 7) as i8;
    let from_rank: i8 = (from_sq_idx >> 3) as i8;
    let to_file: i8;
    let to_rank: i8;
    let promotion: Option<Role>;
    if plane < 56 {
        let (df, dr) = direction(plane / 7);
        let distance: i8 = ((plane % 7) + 1) as i8;
        assert(-7 <= df * distance <= 7 && -7 <= dr * distance <= 7) by (nonlinear_arith)
            requires
                -1 <= df <= 1,
                -1 <= dr <= 1,
                1 <= distance <= 7,
        ;
        to_file = from_file + (df * distance);
        to_rank = from_rank + (dr * distance);
        promotion = if origin_pawn && to_rank == 7 {
            Some(Role::Queen)
        } else {
            None
        };
    } else if plane < 64 {
        let (df, dr) = knight_delta(plane - 56);
        to_file = from_file + df;
        to_rank = from_rank + dr;
        promotion = None;
    } else {
        let residue: usize = plane - 64;
        to_file = from_file + ((residue / 3) as i8 - 1);
        if from_rank == 6 {
            to_rank = 7;
        } else {
            return None;
        }
        promotion = if residue % 3 == 0 {
            Some(Role::Knight)
        } else if residue % 3 == 1 {
            Some(Role::Bishop)
        } else {
            Some(Role::Rook)
        };
    }
    if !(0 <= to_file && to_file <= 7) || !(0 <= to_rank && to_rank <= 7) {
        return None;
    }
    let tr: u8 = to_rank as u8;
    let tf: u8 = to_file as u8;
    assert((tr << 3u8) | tf == tr * 8 + tf) by (bit_vector)
        requires
            tr < 8,
            tf < 8,
    ;
    Some(UciMove::Normal { from: from_sq_idx, to: (tr << 3) | tf, promotion })
}

/// A square mirrored to the other side of the board.
pub fn flip_square(sq: u8) -> (r: u8)
    requires
        sq < 64,
    ensures
        r == mirror_square(sq as int),
        r < 64,
{
    proof {
        lemma_square_bits(sq);
    }
    sq ^ 56
}

/// The move that a UCI text names has the shape of a move of chess in the
/// position of `fen`: a normal move that an index can stand for (see
/// [`representable`]), with the pawn question answered by the piece that the
/// position has on the move's origin square.
pub open spec fn chess_move_in(fen: Seq<char>, t: Seq<char>) -> bool {
    UciMove::parse_spec(t) matches Some(m) && representable(
        m,
        fen_white_to_move(fen),
        fen_role_at(fen, origin(m) as u8) == Some(Role::Pawn),
    )
}

/// Every text of `ts` names a move of chess shape in the position of `fen`,
/// and no two of them name the same move.
pub open spec fn moves_shaped(fen: Seq<char>, ts: Seq<Seq<char>>) -> bool {
    &&& forall|i: int| 0 <= i < ts.len() ==> chess_move_in(fen, #[trigger] ts[i])
    &&& forall|i: int, j: int|
        0 <= i < j < ts.len() ==> UciMove::parse_spec(#[trigger] ts[i]) != UciMove::parse_spec(#[trigger] ts[j])
}

/// Whether, in the position of `fen`, a pawn stands on the real square of
/// the origin of `index`.
pub open spec fn origin_pawn_in(index: int, fen: Seq<char>) -> bool {
    fen_role_at(fen, view_square(index % 64, fen_white_to_move(fen)) as u8) == Some(Role::Pawn)
}

/// The move on the board of the position of `fen` that an index stands for.
pub open spec fn move_in(index: int, fen: Seq<char>) -> Option<UciMove> {
    decode_for(index, fen_white_to_move(fen), origin_pawn_in(index, fen))
}

/// The move that an index stands for in `board`, as the side to move sees
/// it. With a board, a line move of a pawn to the last rank is a promotion to
/// a queen; without one it never is.
pub fn index_to_move(index: usize, board: Option<&Position>) -> (r: Option<UciMove>)
    ensures
        board is None ==> r == decode(index as int, false),
        board matches Some(b) ==> r == decode(index as int, origin_pawn_in(index as int, b@)),
{
    let mut origin_pawn = false;
    if index <= 4671 && (index >> 6) < 56 {
        if let Some(b) = board {
            let from_sq_idx: u8 = (index & 63) as u8;
            assert(index & 63 == index % 64) by (bit_vector);
            assert(index >> 6 == index / 64) by (bit_vector);
            let sq_reel: u8 = if b.white_to_move() {
                from_sq_idx
            } else {
                flip_square(from_sq_idx)
            };
            origin_pawn = b.role_at(sq_reel) == Some(Role::Pawn);
        }
    } else {
        assert(index >> 6 == index / 64) by (bit_vector);
    }
    move_of_index(index, origin_pawn)
}

/// The real-board move that an index stands for, with White or Black to move
/// and with or without a pawn on the real origin square.
pub fn ia_to_real_for(index: usize, white: bool, origin_pawn: bool) -> (r: Option<UciMove>)
    ensures
        r == decode_for(index as int, white, origin_pawn),
{
    match move_of_index(index, origin_pawn) {
        Some(m) => Some(if white { m } else { mirror(m) }),
        None => None,
    }
}

/// A move mirrored to the other side of the board.
pub fn mirror(m: UciMove) -> (r: UciMove)
    requires
        m.wf(),
    ensures
        r == mirror_move(m),
        r.wf(),
{
    match m {
        UciMove::Normal { from, to, promotion } => UciMove::Normal {
            from: flip_square(from),
            to: flip_square(to),
            promotion,
        },
        _ => m,
    }
}

/// Why an index gives no move.
#[derive(Clone, Copy, Debug, PartialEq, Eq, Structural)]
pub enum MoveIndexError {
    /// The index is 4672 or more, or its move leaves the board.
    InvalidIndex(usize),
}

/// The move on the board of `board` that the network's index stands for.
/// It fails exactly on the indices that have no move.
pub fn ia_to_real(index: usize, board: &Position) -> (r: Result<UciMove, MoveIndexError>)
    ensures
        r is Ok <==> index_has_move(index as int),
        r matches Err(e) ==> e == MoveIndexError::InvalidIndex(index),
        r matches Ok(m) ==> m.wf() && move_in(index as int, board@) == Some(m),
{
    let ghost p = origin_pawn_in(index as int, board@);
    proof {
        lemma_decode_shape(index as int, p);
        lemma_decode_shape(index as int, false);
    }
    let move_ia = match index_to_move(index, Some(board)) {
        Some(m) => m,
        None => {
            return Err(MoveIndexError::InvalidIndex(index));
        },
    };
    if board.white_to_move() {
        return Ok(move_ia);
    }
    Ok(mirror(move_ia))
}

/// Whether a decoded move exists does not depend on the pawn question, and
/// a decoded move lies on the board.
pub proof fn lemma_decode_shape(index: int, p: bool)
    ensures
        decode(index, p) is Some <==> index_has_move(index),
        decode(index, p) matches Some(m) ==> m.wf() && m is Normal,
{
}

// ---------------------------------------------------------------------------
// Laws
// ---------------------------------------------------------------------------

proof fn lemma_mirror_involution(sq: int)
    requires
        0 <= sq < 64,
    ensures
        0 <= mirror_square(sq) < 64,
        mirror_square(mirror_square(sq)) == sq,
        mirror_square(sq) % 8 == sq % 8,
        mirror_square(sq) / 8 == 7 - sq / 8,
{
}

proof fn lemma_square_parts(f: int, r: int)
    requires
        0 <= f < 8,
        0 <= r < 8,
    ensures
        (r * 8 + f) % 8 == f,
        (r * 8 + f) / 8 == r,
{
}

proof fn lemma_line_step(k: int, d: int)
    requires
        0 <= k < 8,
        1 <= d <= 7,
    ensures
        ({
            let (df, dr) = direction_spec(k);
            &&& !is_knight_jump(df * d, dr * d)
            &&& (if abs(dr * d) >= abs(df * d) { abs(dr * d) } else { abs(df * d) }) == d
            &&& sign(df * d) == df
            &&& sign(dr * d) == dr
            &&& direction_of(df, dr) == k
        }),
{
    let (df, dr) = direction_spec(k);
    if k == 0 {
        assert(df == 0 && dr == 1);
    } else if k == 1 {
        assert(df == 1 && dr == 1);
    } else if k == 2 {
        assert(df == 1 && dr == 0);
    } else if k == 3 {
        assert(df == 1 && dr == -1);
    } else if k == 4 {
        assert(df == 0 && dr == -1);
    } else if k == 5 {
        assert(df == -1 && dr == -1);
    } else if k == 6 {
        assert(df == -1 && dr == 0);
    } else {
        assert(df == -1 && dr == 1);
    }
    assert(df * d == df * d);
}

/// Decoding in the view of the side to move and then encoding gives back the
/// index.
#[verifier::spinoff_prover]
#[verifier::rlimit(40)]
proof fn lemma_decode_encode_view(index: int, p: bool)
    requires
        decode(index, p) is Some,
    ensures
        encodable(decode(index, p).unwrap(), true),
        encode(decode(index, p).unwrap(), true) == Some(index),
{
    let m = decode(index, p).unwrap();
    let from = index % 64;
    let plane = index / 64;
    let ff = from % 8;
    let fr = from / 8;
    let to = target(m);
    let tf = to % 8;
    let tr = to / 8;
    assert(index == plane * 64 + from);
    assert(0 <= tf < 8 && 0 <= tr < 8);
    if plane < 56 {
        let k = plane / 7;
        let d = plane % 7 + 1;
        assert(plane == k * 7 + d - 1);
        assert(0 <= k < 8);
        let (df, dr) = direction_spec(k);
        assert(tf == ff + df * d && tr == fr + dr * d) by {
            lemma_square_parts(ff + df * d, fr + dr * d);
        }
        assert(file_step(m, true) == df * d);
        assert(rank_step(m, true) == dr * d);
        lemma_line_step(k, d);
        assert(encode(m, true) == Some(index));
    } else if plane < 64 {
        let (df, dr) = knight_spec(plane - 56);
        assert(tf == ff + df && tr == fr + dr) by {
            lemma_square_parts(ff + df, fr + dr);
        }
        assert(file_step(m, true) == df);
        assert(rank_step(m, true) == dr);
        assert(encode(m, true) == Some(index));
    } else {
        let residue = plane - 64;
        assert(tf == ff + residue / 3 - 1 && tr == 7) by {
            lemma_square_parts(ff + residue / 3 - 1, 7);
        }
        assert(file_step(m, true) == residue / 3 - 1);
        assert(residue == (residue / 3) * 3 + residue % 3);
        assert(encode(m, true) == Some(index));
    }
}

/// Law: every index that has a move is the index of that move. Decoding an
/// index for White or Black, with or without a pawn on the origin square,
/// and encoding the move for the same side gives back the index.
pub proof fn law_index_to_move_to_index(index: int, white: bool, origin_pawn: bool)
    requires
        decode_for(index, white, origin_pawn) is Some,
    ensures
        encodable(decode_for(index, white, origin_pawn).unwrap(), white),
        encode(decode_for(index, white, origin_pawn).unwrap(), white) == Some(index),
{
    lemma_decode_encode_view(index, origin_pawn);
    lemma_decode_shape(index, origin_pawn);
    let mv = decode(index, origin_pawn).unwrap();
    if !white {
        let mr = mirror_move(mv);
        lemma_mirror_involution(origin(mv));
        lemma_mirror_involution(target(mv));
        assert(view_square(origin(mr), false) == origin(mv));
        assert(view_square(target(mr), false) == target(mv));
        assert(file_step(mr, false) == file_step(mv, true));
        assert(rank_step(mr, false) == rank_step(mv, true));
    }
}

/// A move that its index stands for: a normal move on the board that is a
/// knight jump, a line move (promoting to a queen exactly when a pawn on its
/// origin square reaches the last rank), or an under-promotion from the
/// seventh rank to the eighth by at most one file, all as the side to move
/// sees it.
pub open spec fn representable(m: UciMove, white: bool, origin_pawn: bool) -> bool {
    let df = file_step(m, white);
    let dr = rank_step(m, white);
    let fr = view_square(origin(m), white) / 8;
    let tr = view_square(target(m), white) / 8;
    &&& m is Normal
    &&& m.wf()
    &&& {
        ||| is_knight_jump(df, dr) && promotion_of(m) is None
        ||| (df == 0 || dr == 0 || abs(df) == abs(dr)) && !(df == 0 && dr == 0) && promotion_of(m)
            == (if origin_pawn && tr == 7 {
            Some(Role::Queen)
        } else {
            None
        })
        ||| (promotion_of(m) == Some(Role::Knight) || promotion_of(m) == Some(Role::Bishop)
            || promotion_of(m) == Some(Role::Rook)) && fr == 6 && tr == 7 && -1 <= df <= 1
    }
}

proof fn lemma_knight_table(df: int, dr: int)
    requires
        is_knight_jump(df, dr),
    ensures
        0 <= knight_of(df, dr) < 8,
        knight_spec(knight_of(df, dr)) == (df, dr),
{
}

proof fn lemma_direction_table(df: int, dr: int, d: int)
    requires
        df == 0 || dr == 0 || abs(df) == abs(dr),
        !(df == 0 && dr == 0),
        d == (if abs(dr) >= abs(df) { abs(dr) } else { abs(df) }),
    ensures
        0 <= direction_of(sign(df), sign(dr)) < 8,
        direction_spec(direction_of(sign(df), sign(dr))) == (sign(df), sign(dr)),
        sign(df) * d == df,
        sign(dr) * d == dr,
{
}

#[verifier::spinoff_prover]
#[verifier::rlimit(40)]
proof fn lemma_encode_decode_knight(m: UciMove, p: bool)
    requires
        m is Normal,
        m.wf(),
        is_knight_jump(file_step(m, true), rank_step(m, true)),
        promotion_of(m) is None,
    ensures
        encodable(m, true),
        encode(m, true) matches Some(i) && 0 <= i <= 4671 && decode(i, p) == Some(m),
{
    let from = origin(m);
    let to = target(m);
    let df = file_step(m, true);
    let dr = rank_step(m, true);
    assert(from == (from / 8) * 8 + from % 8 && to == (to / 8) * 8 + to % 8);
    lemma_knight_table(df, dr);
    let i = (56 + knight_of(df, dr)) * 64 + from;
    assert(i % 64 == from && i / 64 == 56 + knight_of(df, dr));
    assert(encode(m, true) == Some(i));
    assert(decode(i, p) == Some(m));
}

#[verifier::spinoff_prover]
#[verifier::rlimit(40)]
proof fn lemma_encode_decode_under(m: UciMove, p: bool)
    requires
        m is Normal,
        m.wf(),
        promotion_of(m) == Some(Role::Knight) || promotion_of(m) == Some(Role::Bishop)
            || promotion_of(m) == Some(Role::Rook),
        origin(m) / 8 == 6,
        target(m) / 8 == 7,
        -1 <= file_step(m, true) <= 1,
    ensures
        encodable(m, true),
        encode(m, true) matches Some(i) && 0 <= i <= 4671 && decode(i, p) == Some(m),
{
    let from = origin(m);
    let to = target(m);
    let df = file_step(m, true);
    assert(from == (from / 8) * 8 + from % 8 && to == (to / 8) * 8 + to % 8);
    let k: int = if promotion_of(m) == Some(Role::Knight) {
        0
    } else if promotion_of(m) == Some(Role::Bishop) {
        1
    } else {
        2
    };
    let plane = 64 + (df + 1) * 3 + k;
    let i = plane * 64 + from;
    assert(i % 64 == from && i / 64 == plane);
    assert((plane - 64) / 3 == df + 1 && (plane - 64) % 3 == k);
    assert(encode(m, true) == Some(i));
    assert(decode(i, p) == Some(m));
}

#[verifier::spinoff_prover]
#[verifier::rlimit(40)]
proof fn lemma_encode_decode_line(m: UciMove, p: bool)
    requires
        m is Normal,
        m.wf(),
        ({
            let df = file_step(m, true);
            let dr = rank_step(m, true);
            (df == 0 || dr == 0 || abs(df) == abs(dr)) && !(df == 0 && dr == 0)
        }),
        promotion_of(m) == (if p && target(m) / 8 == 7 {
            Some(Role::Queen)
        } else {
            None
        }),
    ensures
        encodable(m, true),
        encode(m, true) matches Some(i) && 0 <= i <= 4671 && decode(i, p) == Some(m),
{
    let from = origin(m);
    let to = target(m);
    let df = file_step(m, true);
    let dr = rank_step(m, true);
    assert(from == (from / 8) * 8 + from % 8 && to == (to / 8) * 8 + to % 8);
    let d = if abs(dr) >= abs(df) {
        abs(dr)
    } else {
        abs(df)
    };
    lemma_direction_table(df, dr, d);
    let dir = direction_of(sign(df), sign(dr));
    let plane = dir * 7 + d - 1;
    let i = plane * 64 + from;
    assert(1 <= d <= 7);
    assert(i % 64 == from && i / 64 == plane);
    assert(plane / 7 == dir && plane % 7 + 1 == d);
    assert(!is_knight_jump(df, dr));
    assert(encode(m, true) == Some(i));
    assert(decode(i, p) == Some(m));
}

proof fn lemma_encode_decode_view(m: UciMove, p: bool)
    requires
        representable(m, true, p),
    ensures
        encodable(m, true),
        encode(m, true) matches Some(i) && 0 <= i <= 4671 && decode(i, p) == Some(m),
{
    let df = file_step(m, true);
    let dr = rank_step(m, true);
    if is_knight_jump(df, dr) && promotion_of(m) is None {
        lemma_encode_decode_knight(m, p);
    } else if promotion_of(m) == Some(Role::Knight) || promotion_of(m) == Some(Role::Bishop)
        || promotion_of(m) == Some(Role::Rook) {
        lemma_encode_decode_under(m, p);
    } else {
        lemma_encode_decode_line(m, p);
    }
}

/// Law: a move that an index can stand for is given back by its index.
/// Encoding such a move for the side to move and decoding the index for the
/// same side and the same piece on the origin square gives back the move.
pub proof fn law_move_to_index_to_move(m: UciMove, white: bool, origin_pawn: bool)
    requires
        representable(m, white, origin_pawn),
    ensures
        encodable(m, white),
        encode(m, white) matches Some(i) && 0 <= i <= 4671 && decode_for(i, white, origin_pawn)
            == Some(m),
{
    if white {
        lemma_encode_decode_view(m, origin_pawn);
    } else {
        let mv = mirror_move(m);
        lemma_mirror_involution(origin(m));
        lemma_mirror_involution(target(m));
        assert(origin(mv) == view_square(origin(m), false));
        assert(target(mv) == view_square(target(m), false));
        assert(file_step(mv, true) == file_step(m, false));
        assert(rank_step(mv, true) == rank_step(m, false));
        assert(representable(mv, true, origin_pawn));
        lemma_encode_decode_view(mv, origin_pawn);
        assert(encode(m, false) == encode(mv, true));
        assert(mirror_move(mv) == m);
    }
}

// ---------------------------------------------------------------------------
// The plane tables, number by number
// ---------------------------------------------------------------------------

/// The move from square `s` by `df` files and `dr` ranks, with
/// `promotion`, where it stays on the board.
pub open spec fn step_from(s: int, df: int, dr: int, promotion: Option<Role>) -> Option<UciMove> {
    if 0 <= s % 8 + df <= 7 && 0 <= s / 8 + dr <= 7 {
        Some(UciMove::Normal { from: s as u8, to: (s + 8 * dr + df) as u8, promotion })
    } else {
        None
    }
}

/// A promotion to a queen where a pawn reaches the last rank.
pub open spec fn queen_if(pawn: bool, rank: int) -> Option<Role> {
    if pawn && rank == 7 {
        Some(Role::Queen)
    } else {
        None
    }
}

proof fn lemma_index_parts(plane: int, s: int)
    requires
        0 <= plane < 73,
        0 <= s < 64,
    ensures
        (plane * 64 + s) / 64 == plane,
        (plane * 64 + s) % 64 == s,
        s == (s / 8) * 8 + s % 8,
        0 <= s % 8 < 8,
        0 <= s / 8 < 8,
{
    assert((plane * 64 + s) / 64 == plane && (plane * 64 + s) % 64 == s) by (nonlinear_arith)
        requires
            0 <= plane < 73,
            0 <= s < 64,
    ;
}

/// Law: the line planes, seen from the side to move. Plane `7 * k + d - 1`
/// moves a piece `d` squares (1 to 7) from its origin square `s` in
/// direction `k`: north, north-east, east, south-east, south, south-west,
/// west, north-west in turn; a pawn that reaches the last rank promotes to
/// a queen.
pub proof fn law_line_planes_decode(d: int, s: int, p: bool)
    requires
        1 <= d <= 7,
        0 <= s < 64,
    ensures
        decode((d - 1) * 64 + s, p) == step_from(s, 0, d, queen_if(p, s / 8 + d)),
        decode((7 + d - 1) * 64 + s, p) == step_from(s, d, d, queen_if(p, s / 8 + d)),
        decode((14 + d - 1) * 64 + s, p) == step_from(s, d, 0, queen_if(p, s / 8)),
        decode((21 + d - 1) * 64 + s, p) == step_from(s, d, -d, queen_if(p, s / 8 - d)),
        decode((28 + d - 1) * 64 + s, p) == step_from(s, 0, -d, queen_if(p, s / 8 - d)),
        decode((35 + d - 1) * 64 + s, p) == step_from(s, -d, -d, queen_if(p, s / 8 - d)),
        decode((42 + d - 1) * 64 + s, p) == step_from(s, -d, 0, queen_if(p, s / 8)),
        decode((49 + d - 1) * 64 + s, p) == step_from(s, -d, d, queen_if(p, s / 8 + d)),
{
    assert((d - 1) / 7 == 0 && (d - 1) % 7 == d - 1);
    assert((7 + d - 1) / 7 == 1 && (7 + d - 1) % 7 == d - 1);
    assert((14 + d - 1) / 7 == 2 && (14 + d - 1) % 7 == d - 1);
    assert((21 + d - 1) / 7 == 3 && (21 + d - 1) % 7 == d - 1);
    assert((28 + d - 1) / 7 == 4 && (28 + d - 1) % 7 == d - 1);
    assert((35 + d - 1) / 7 == 5 && (35 + d - 1) % 7 == d - 1);
    assert((42 + d - 1) / 7 == 6 && (42 + d - 1) % 7 == d - 1);
    assert((49 + d - 1) / 7 == 7 && (49 + d - 1) % 7 == d - 1);
    lemma_index_parts(d - 1, s);
    lemma_index_parts(7 + d - 1, s);
    lemma_index_parts(14 + d - 1, s);
    lemma_index_parts(21 + d - 1, s);
    lemma_index_parts(28 + d - 1, s);
    lemma_index_parts(35 + d - 1, s);
    lemma_index_parts(42 + d - 1, s);
    lemma_index_parts(49 + d - 1, s);
}

/// Law: the knight planes, seen from the side to move. Planes 56 to 63 are
/// the jumps (+1, +2), (+2, +1), (+2, -1), (+1, -2), (-1, -2), (-2, -1),
/// (-2, +1), (-1, +2) in files and ranks, in that order.
pub proof fn law_knight_planes_decode(s: int, p: bool)
    requires
        0 <= s < 64,
    ensures
        decode(56 * 64 + s, p) == step_from(s, 1, 2, None),
        decode(57 * 64 + s, p) == step_from(s, 2, 1, None),
        decode(58 * 64 + s, p) == step_from(s, 2, -1, None),
        decode(59 * 64 + s, p) == step_from(s, 1, -2, None),
        decode(60 * 64 + s, p) == step_from(s, -1, -2, None),
        decode(61 * 64 + s, p) == step_from(s, -2, -1, None),
        decode(62 * 64 + s, p) == step_from(s, -2, 1, None),
        decode(63 * 64 + s, p) == step_from(s, -1, 2, None),
{
    lemma_index_parts(56, s);
    lemma_index_parts(57, s);
    lemma_index_parts(58, s);
    lemma_index_parts(59, s);
    lemma_index_parts(60, s);
    lemma_index_parts(61, s);
    lemma_index_parts(62, s);
    lemma_index_parts(63, s);
}

/// Law: the under-promotion planes, seen from the side to move. Plane
/// `64 + 3 * j + k` moves a pawn of the seventh rank to the eighth, `j - 1`
/// files aside (left, straight, right), promoting to a knight, a bishop or
/// a rook for `k` 0, 1, 2; from any other rank it stands for no move.
pub proof fn law_under_promotion_planes_decode(j: int, s: int, p: bool)
    requires
        0 <= j <= 2,
        0 <= s < 64,
    ensures
        decode((64 + 3 * j) * 64 + s, p) == (if s / 8 == 6 { step_from(s, j - 1, 1, Some(Role::Knight)) } else { None }),
        decode((64 + 3 * j + 1) * 64 + s, p) == (if s / 8 == 6 { step_from(s, j - 1, 1, Some(Role::Bishop)) } else { None }),
        decode((64 + 3 * j + 2) * 64 + s, p) == (if s / 8 == 6 { step_from(s, j - 1, 1, Some(Role::Rook)) } else { None }),
{
    lemma_index_parts(64 + 3 * j, s);
    lemma_index_parts(64 + 3 * j + 1, s);
    lemma_index_parts(64 + 3 * j + 2, s);
}

/// Law: the index of a line move (no promotion, or to a queen), from its
/// steps `df`, `dr` in files and ranks and its origin square `s`, all as the
/// side to move sees them: plane `7 * k + distance - 1` for direction `k`
/// in the order N, NE, E, SE, S, SW, W, NW.
pub proof fn law_line_planes_encode(m: UciMove, white: bool)
    requires
        m is Normal,
        m.wf(),
        promotion_of(m) is None || promotion_of(m) == Some(Role::Queen),
    ensures
        ({
            let df = file_step(m, white);
            let dr = rank_step(m, white);
            let s = view_square(origin(m), white);
            &&& df == 0 && dr > 0 ==> encode(m, white) == Some((dr - 1) * 64 + s)
            &&& df > 0 && dr == df ==> encode(m, white) == Some((7 + df - 1) * 64 + s)
            &&& df > 0 && dr == 0 ==> encode(m, white) == Some((14 + df - 1) * 64 + s)
            &&& df > 0 && dr == -df ==> encode(m, white) == Some((21 + df - 1) * 64 + s)
            &&& df == 0 && dr < 0 ==> encode(m, white) == Some((28 - dr - 1) * 64 + s)
            &&& df < 0 && dr == df ==> encode(m, white) == Some((35 - df - 1) * 64 + s)
            &&& df < 0 && dr == 0 ==> encode(m, white) == Some((42 - df - 1) * 64 + s)
            &&& df < 0 && dr == -df ==> encode(m, white) == Some((49 - df - 1) * 64 + s)
        }),
{
}

/// Law: the index of a knight jump (no promotion), from its steps and its
/// origin square `s` as the side to move sees them: planes 56 to 63 for
/// (+1, +2), (+2, +1), (+2, -1), (+1, -2), (-1, -2), (-2, -1), (-2, +1),
/// (-1, +2).
pub proof fn law_knight_planes_encode(m: UciMove, white: bool)
    requires
        m is Normal,
        promotion_of(m) is None,
    ensures
        ({
            let df = file_step(m, white);
            let dr = rank_step(m, white);
            let s = view_square(origin(m), white);
            &&& df == 1 && dr == 2 ==> encode(m, white) == Some(56 * 64 + s)
            &&& df == 2 && dr == 1 ==> encode(m, white) == Some(57 * 64 + s)
            &&& df == 2 && dr == -1 ==> encode(m, white) == Some(58 * 64 + s)
            &&& df == 1 && dr == -2 ==> encode(m, white) == Some(59 * 64 + s)
            &&& df == -1 && dr == -2 ==> encode(m, white) == Some(60 * 64 + s)
            &&& df == -2 && dr == -1 ==> encode(m, white) == Some(61 * 64 + s)
            &&& df == -2 && dr == 1 ==> encode(m, white) == Some(62 * 64 + s)
            &&& df == -1 && dr == 2 ==> encode(m, white) == Some(63 * 64 + s)
        }),
{
}

/// Law: the index of an under-promotion, from its file step `df` (-1, 0 or
/// +1) and its origin square `s` as the side to move sees them: plane
/// `64 + 3 * (df + 1)` for a knight, one more for a bishop, two more for a
/// rook.
pub proof fn law_under_promotion_planes_encode(m: UciMove, white: bool)
    requires
        m is Normal,
        -1 <= file_step(m, white) <= 1,
    ensures
        ({
            let df = file_step(m, white);
            let s = view_square(origin(m), white);
            &&& promotion_of(m) == Some(Role::Knight) ==> encode(m, white) == Some((64 + 3 * (df + 1)) * 64 + s)
            &&& promotion_of(m) == Some(Role::Bishop) ==> encode(m, white) == Some((64 + 3 * (df + 1) + 1) * 64 + s)
            &&& promotion_of(m) == Some(Role::Rook) ==> encode(m, white) == Some((64 + 3 * (df + 1) + 2) * 64 + s)
        }),
{
}

/// Law: the side to move's view of the board. White sees the board as it
/// is; Black sees it upside down, each square keeping its file and going
/// from rank `r` to rank `7 - r`, and seeing a move's steps reversed in
/// ranks.
pub proof fn law_side_to_move_view(sq: int, m: UciMove)
    requires
        0 <= sq < 64,
        m.wf(),
    ensures
        view_square(sq, true) == sq,
        view_square(sq, false) % 8 == sq % 8,
        view_square(sq, false) / 8 == 7 - sq / 8,
        file_step(m, false) == file_step(m, true),
        rank_step(m, false) == -rank_step(m, true),
{
    lemma_mirror_involution(sq);
    lemma_mirror_involution(origin(m));
    lemma_mirror_involution(target(m));
}

} // verus!
