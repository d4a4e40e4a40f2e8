//! The board as the network reads it: 19 planes of 8 x 8 cells, each 0 or 1,
//! laid out plane by plane, rank by rank (1216 bytes, cell `(p, r, f)` at
//! `p * 64 + r * 8 + f`). The board is seen from the side to move: for Black
//! rank `r` of the board is row `7 - r`.
//!
//! - planes 0 to 5: the pieces of the side to move, pawn to king;
//! - planes 6 to 11: the opponent's pieces;
//! - planes 12 to 15: full when the side to move may castle king-side,
//!   queen-side, then the same for the opponent;
//! - plane 16: one cell marked next to the pawn that may be taken en passant;
//! - planes 17 and 18: the squares of the side to move, then the opponent's.

use vstd::prelude::*;
use crate::moves::Role;
use crate::board::{
    chess_castling, chess_colors, chess_en_passant, chess_reads, chess_pieces, chess_white_to_move,
    chess_fen_valid, kings_placed, placement_checks,
    castle_rights, colors_on, en_passant, pieces_on, reads_as_board, side_to_move,
};

verus! {

/// Number of cells of a tensor.
pub const TENSOR_LEN: usize = 1216;

/// What the tensor is made from: the side to move, each square's piece with
/// its colour (`true` for White), the castling rights of White and Black, and
/// the square of the pawn that may be taken en passant.
#[derive(Debug, PartialEq, Eq)]
pub struct BoardSnapshot {
    pub white_to_move: bool,
    pub pieces: Vec<Option<(Role, bool)>>,
    pub white_kingside: bool,
    pub white_queenside: bool,
    pub black_kingside: bool,
    pub black_queenside: bool,
    pub en_passant: Option<u8>,
}

/// The board of a snapshot in mathematical terms.
pub struct BoardModel {
    pub white_to_move: bool,
    pub pieces: Seq<Option<(Role, bool)>>,
    pub white_kingside: bool,
    pub white_queenside: bool,
    pub black_kingside: bool,
    pub black_queenside: bool,
    pub en_passant: Option<u8>,
}

impl View for BoardSnapshot {
    type V = BoardModel;

    open spec fn view(&self) -> BoardModel {
        BoardModel {
            white_to_move: self.white_to_move,
            pieces: self.pieces@,
            white_kingside: self.white_kingside,
            white_queenside: self.white_queenside,
            black_kingside: self.black_kingside,
            black_queenside: self.black_queenside,
            en_passant: self.en_passant,
        }
    }
}

/// Plane offset of a kind of piece.
pub open spec fn role_index(r: Role) -> int {
    match r {
        Role::Pawn => 0,
        Role::Knight => 1,
        Role::Bishop => 2,
        Role::Rook => 3,
        Role::Queen => 4,
        Role::King => 5,
    }
}

/// Row of the en passant plane marked for an en passant square: the rank
/// beyond it as the side to move sees it.
pub open spec fn ep_row(ep: int, white: bool) -> int {
    if white {
        ep / 8 + 1
    } else {
        7 - (ep / 8 - 1)
    }
}

impl BoardModel {
    /// 64 squares, and an en passant square whose marked row is on the board.
    pub open spec fn wf(self) -> bool {
        &&& self.pieces.len() == 64
        &&& self.en_passant matches Some(e) ==> e < 64 && 0 <= ep_row(e as int, self.white_to_move) <= 7
    }

    /// The value of cell `(p, row, f)` of the tensor.
    pub open spec fn cell(self, p: int, row: int, f: int) -> u8 {
        let white = self.white_to_move;
        let rank = if white {
            row
        } else {
            7 - row
        };
        let piece = self.pieces[rank * 8 + f];
        let (my_ks, my_qs, his_ks, his_qs) = if white {
            (self.white_kingside, self.white_queenside, self.black_kingside, self.black_queenside)
        } else {
            (self.black_kingside, self.black_queenside, self.white_kingside, self.white_queenside)
        };
        let on = if p < 6 {
            piece matches Some((r, c)) && c == white && role_index(r) == p
        } else if p < 12 {
            piece matches Some((r, c)) && c != white && role_index(r) == p - 6
        } else if p == 12 {
            my_ks
        } else if p == 13 {
            my_qs
        } else if p == 14 {
            his_ks
        } else if p == 15 {
            his_qs
        } else if p == 16 {
            self.en_passant matches Some(e) && e % 8 == f && ep_row(e as int, white) == row
        } else if p == 17 {
            piece matches Some((_, c)) && c == white
        } else {
            piece matches Some((_, c)) && c != white
        };
        if on {
            1
        } else {
            0
        }
    }
}

/// The tensor of a snapshot.
pub open spec fn tensor_spec(s: BoardModel) -> Seq<u8> {
    Seq::new(1216, |i: int| s.cell(i / 64, (i % 64) / 8, i % 8))
}

fn role_plane(r: Role) -> (p: usize)
    ensures
        p == role_index(r),
{
    match r {
        Role::Pawn => 0,
        Role::Knight => 1,
        Role::Bishop => 2,
        Role::Rook => 3,
        Role::Queen => 4,
        Role::King => 5,
    }
}

/// The value of one cell of the tensor of a snapshot.
pub fn tensor_cell(s: &BoardSnapshot, p: usize, row: usize, f: usize) -> (v: u8)
    requires
        s@.wf(),
        p < 19,
        row < 8,
        f < 8,
    ensures
        v == s@.cell(p as int, row as int, f as int),
{
    let white = s.white_to_move;
    let rank = if white {
        row
    } else {
        7 - row
    };
    let piece = s.pieces[rank * 8 + f];
    let (my_ks, my_qs, his_ks, his_qs) = if white {
        (s.white_kingside, s.white_queenside, s.black_kingside, s.black_queenside)
    } else {
        (s.black_kingside, s.black_queenside, s.white_kingside, s.white_queenside)
    };
    let on = if p < 6 {
        match piece {
            Some((r, c)) => c == white && role_plane(r) == p,
            None => false,
        }
    } else if p < 12 {
        match piece {
            Some((r, c)) => c != white && role_plane(r) == p - 6,
            None => false,
        }
    } else if p == 12 {
        my_ks
    } else if p == 13 {
        my_qs
    } else if p == 14 {
        his_ks
    } else if p == 15 {
        his_qs
    } else if p == 16 {
        match s.en_passant {
            Some(e) => {
                let e_rank: usize = (e / 8) as usize;
                let pawn_rank: usize = if white {
                    e_rank + 1
                } else {
                    e_rank - 1
                };
                let view_rank: usize = if white {
                    pawn_rank
                } else {
                    7 - pawn_rank
                };
                (e % 8) as usize == f && view_rank == row
            },
            None => false,
        }
    } else if p == 17 {
        match piece {
            Some((_, c)) => c == white,
            None => false,
        }
    } else {
        match piece {
            Some((_, c)) => c != white,
            None => false,
        }
    };
    if on {
        1
    } else {
        0
    }
}

/// The tensor of a board (the board of the `chess` crate, read into a
/// snapshot).
pub fn board_to_tensor(s: &BoardSnapshot) -> (t: Vec<u8>)
    requires
        s@.wf(),
    ensures
        t@ == tensor_spec(s@),
        t.len() == 1216,
{
    let mut t: Vec<u8> = Vec::new();
    let mut i: usize = 0;
    while i < TENSOR_LEN
        invariant
            s@.wf(),
            i <= 1216,
            t@ == tensor_spec(s@).take(i as int),
        decreases 1216 - i,
    {
        let v = tensor_cell(s, i / 64, (i % 64) / 8, i % 8);
        t.push(v);
        assert(t@ == tensor_spec(s@).take(i as int + 1));
        i = i + 1;
    }
    assert(tensor_spec(s@).take(1216) == tensor_spec(s@));
    t
}

/// A square's piece with its colour, where the board gives both.
pub open spec fn piece_with_color(r: Option<Role>, c: Option<bool>) -> Option<(Role, bool)> {
    match (r, c) {
        (Some(r), Some(c)) => Some((r, c)),
        _ => None,
    }
}

/// The en passant square kept in a snapshot: one whose marked row lies on
/// the board.
pub open spec fn kept_en_passant(ep: Option<u8>, white: bool) -> Option<u8> {
    match ep {
        Some(e) => if 0 <= ep_row(e as int, white) <= 7 {
            Some(e)
        } else {
            None
        },
        None => None,
    }
}

/// The board that the `chess` crate reads from a FEN text.
pub open spec fn board_of_fen(fen: Seq<char>) -> BoardModel {
    let white = chess_white_to_move(fen);
    let (wk, wq) = chess_castling(fen, true);
    let (bk, bq) = chess_castling(fen, false);
    BoardModel {
        white_to_move: white,
        pieces: Seq::new(64, |i: int| piece_with_color(chess_pieces(fen)[i], chess_colors(fen)[i])),
        white_kingside: wk,
        white_queenside: wq,
        black_kingside: bk,
        black_queenside: bq,
        en_passant: kept_en_passant(chess_en_passant(fen), white),
    }
}

/// The snapshot of the board of a FEN text that the `chess` crate reads. A
/// piece whose colour the board does not give, and an en passant square
/// whose marked row would leave the board, are left out; the crate's boards
/// have neither.
pub fn snapshot_of(fen: &str) -> (s: BoardSnapshot)
    requires
        chess_reads(fen@),
    ensures
        s@ == board_of_fen(fen@),
        s@.wf(),
{
    let white = side_to_move(fen);
    let roles = pieces_on(fen);
    let colors = colors_on(fen);
    let mut pieces: Vec<Option<(Role, bool)>> = Vec::new();
    let mut sq: usize = 0;
    while sq < 64
        invariant
            sq <= 64,
            roles@ == chess_pieces(fen@),
            colors@ == chess_colors(fen@),
            roles.len() == 64,
            colors.len() == 64,
            pieces@ == Seq::new(sq as nat, |i: int| piece_with_color(roles@[i], colors@[i])),
        decreases 64 - sq,
    {
        let entry = match (roles[sq], colors[sq]) {
            (Some(r), Some(c)) => Some((r, c)),
            _ => None,
        };
        pieces.push(entry);
        sq = sq + 1;
    }
    let (white_kingside, white_queenside) = castle_rights(fen, true);
    let (black_kingside, black_queenside) = castle_rights(fen, false);
    let ep = match en_passant(fen) {
        Some(e) => if (white && e / 8 <= 6) || (!white && e / 8 >= 1) {
            Some(e)
        } else {
            None
        },
        None => None,
    };
    let s = BoardSnapshot {
        white_to_move: white,
        pieces,
        white_kingside,
        white_queenside,
        black_kingside,
        black_queenside,
        en_passant: ep,
    };
    assert(s@.pieces == board_of_fen(fen@).pieces);
    s
}

/// The tensor of the position a FEN text gives, for a text that the `chess`
/// crate reads.
pub fn fen_to_tensor(fen_str: &str) -> (t: Vec<u8>)
    requires
        chess_reads(fen_str@),
    ensures
        t@ == tensor_spec(board_of_fen(fen_str@)),
        t.len() == 1216,
{
    let s = snapshot_of(fen_str);
    board_to_tensor(&s)
}

/// Whether the `chess` crate reads a FEN text: a text whose placement has
/// a king of each colour in eight ranks of eight squares, and that the
/// crate's `Board::from_str` accepts.
pub fn chess_accepts_fen(fen_str: &str) -> (r: bool)
    ensures
        r == chess_reads(fen_str@),
        r == (kings_placed(fen_str@) && chess_fen_valid(fen_str@)),
{
    placement_checks(fen_str) && reads_as_board(fen_str)
}

/// The tensor of the position a FEN text gives, or `None` where the `chess`
/// crate refuses the text or cannot be asked to read it (see
/// [`chess_accepts_fen`]).
pub fn try_fen_to_tensor(fen_str: &str) -> (t: Option<Vec<u8>>)
    ensures
        t is Some <==> chess_reads(fen_str@),
        t matches Some(v) ==> v@ == tensor_spec(board_of_fen(fen_str@)),
{
    if chess_accepts_fen(fen_str) {
        Some(fen_to_tensor(fen_str))
    } else {
        None
    }
}

/// A square's piece with its colour swapped.
pub open spec fn swap_color(p: Option<(Role, bool)>) -> Option<(Role, bool)> {
    match p {
        Some((r, c)) => Some((r, !c)),
        None => None,
    }
}

/// The same square with its rank mirrored (rank `r` becomes `7 - r`).
pub open spec fn mirror_sq(sq: int) -> int {
    (7 - sq / 8) * 8 + sq % 8
}

/// The board seen in a mirror: ranks mirrored, colours swapped, the other
/// side to move, castling rights exchanged between the colours and the en
/// passant square mirrored.
pub open spec fn mirror_board(b: BoardModel) -> BoardModel {
    BoardModel {
        white_to_move: !b.white_to_move,
        pieces: Seq::new(64, |sq: int| swap_color(b.pieces[mirror_sq(sq)])),
        white_kingside: b.black_kingside,
        white_queenside: b.black_queenside,
        black_kingside: b.white_kingside,
        black_queenside: b.white_queenside,
        en_passant: match b.en_passant {
            Some(e) => Some(mirror_sq(e as int) as u8),
            None => None,
        },
    }
}

proof fn lemma_mirror_cell(b: BoardModel, p: int, row: int, f: int)
    requires
        b.wf(),
        0 <= p < 19,
        0 <= row < 8,
        0 <= f < 8,
    ensures
        mirror_board(b).cell(p, row, f) == b.cell(p, row, f),
{
    let m = mirror_board(b);
    let rank = if b.white_to_move { row } else { 7 - row };
    let rank2 = if m.white_to_move { row } else { 7 - row };
    assert(mirror_sq(rank2 * 8 + f) == rank * 8 + f);
    assert(m.pieces[rank2 * 8 + f] == swap_color(b.pieces[rank * 8 + f]));
    if let Some(e) = b.en_passant {
        let e2 = mirror_sq(e as int);
        assert(e2 % 8 == e % 8);
        assert(ep_row(e2, m.white_to_move) == ep_row(e as int, b.white_to_move));
    }
}

/// Law: the tensor depends only on the position as the side to move sees
/// it. Mirroring the board (ranks, colours, side to move, castling rights
/// and en passant square) leaves the tensor as it is.
pub proof fn law_tensor_colour_mirror(b: BoardModel)
    requires
        b.wf(),
    ensures
        mirror_board(b).wf(),
        tensor_spec(mirror_board(b)) == tensor_spec(b),
{
    let m = mirror_board(b);
    if let Some(e) = b.en_passant {
        assert(ep_row(mirror_sq(e as int), m.white_to_move) == ep_row(e as int, b.white_to_move));
    }
    assert forall|i: int| 0 <= i < 1216 implies #[trigger] tensor_spec(m)[i] == tensor_spec(b)[i] by {
        lemma_mirror_cell(b, i / 64, (i % 64) / 8, i % 8);
    }
    assert(tensor_spec(m) =~= tensor_spec(b));
}

proof fn lemma_cell_index(p: int, row: int, f: int)
    requires
        0 <= p < 19,
        0 <= row < 8,
        0 <= f < 8,
    ensures
        (p * 64 + row * 8 + f) / 64 == p,
        ((p * 64 + row * 8 + f) % 64) / 8 == row,
        (p * 64 + row * 8 + f) % 8 == f,
        0 <= p * 64 + row * 8 + f < 1216,
{
    assert((p * 64 + row * 8 + f) / 64 == p && (p * 64 + row * 8 + f) % 64 == row * 8 + f) by (nonlinear_arith)
        requires
            0 <= p < 19,
            0 <= row < 8,
            0 <= f < 8,
    ;
    assert((row * 8 + f) / 8 == row && (p * 64 + row * 8 + f) % 8 == f) by (nonlinear_arith)
        requires
            0 <= p < 19,
            0 <= row < 8,
            0 <= f < 8,
    ;
}

/// Law: what each plane of the tensor holds, at row `row` and file `f` of
/// the board as the side to move sees it (row `r` is rank `r` for White,
/// rank `7 - r` for Black). Planes 0 to 5 mark the side to move's pawn,
/// knight, bishop, rook, queen and king, planes 6 to 11 the opponent's;
/// planes 12 to 15 are full when the side to move may castle king-side,
/// queen-side, then the same for the opponent; plane 16 marks the cell next
/// to the en passant square, one row beyond it; planes 17 and 18 mark the
/// squares of the side to move and of the opponent. Every cell is 0 or 1.
pub proof fn law_tensor_planes(b: BoardModel, row: int, f: int)
    requires
        b.wf(),
        0 <= row < 8,
        0 <= f < 8,
    ensures
        ({
            let t = tensor_spec(b);
            let w = b.white_to_move;
            let pc = b.pieces[(if w { row } else { 7 - row }) * 8 + f];
            let c = row * 8 + f;
            &&& (t[c] == 1) == (pc == Some((Role::Pawn, w)))
            &&& (t[64 + c] == 1) == (pc == Some((Role::Knight, w)))
            &&& (t[2 * 64 + c] == 1) == (pc == Some((Role::Bishop, w)))
            &&& (t[3 * 64 + c] == 1) == (pc == Some((Role::Rook, w)))
            &&& (t[4 * 64 + c] == 1) == (pc == Some((Role::Queen, w)))
            &&& (t[5 * 64 + c] == 1) == (pc == Some((Role::King, w)))
            &&& (t[6 * 64 + c] == 1) == (pc == Some((Role::Pawn, !w)))
            &&& (t[7 * 64 + c] == 1) == (pc == Some((Role::Knight, !w)))
            &&& (t[8 * 64 + c] == 1) == (pc == Some((Role::Bishop, !w)))
            &&& (t[9 * 64 + c] == 1) == (pc == Some((Role::Rook, !w)))
            &&& (t[10 * 64 + c] == 1) == (pc == Some((Role::Queen, !w)))
            &&& (t[11 * 64 + c] == 1) == (pc == Some((Role::King, !w)))
            &&& (t[12 * 64 + c] == 1) == (if w { b.white_kingside } else { b.black_kingside })
            &&& (t[13 * 64 + c] == 1) == (if w { b.white_queenside } else { b.black_queenside })
            &&& (t[14 * 64 + c] == 1) == (if w { b.black_kingside } else { b.white_kingside })
            &&& (t[15 * 64 + c] == 1) == (if w { b.black_queenside } else { b.white_queenside })
            &&& (t[16 * 64 + c] == 1) == (b.en_passant matches Some(e) && e % 8 == f && row == (if w {
                e / 8 + 1
            } else {
                8 - e / 8
            }))
            &&& (t[17 * 64 + c] == 1) == (pc matches Some((_, col)) && col == w)
            &&& (t[18 * 64 + c] == 1) == (pc matches Some((_, col)) && col != w)
            &&& forall|q: int| 0 <= q < 19 ==> #[trigger] t[q * 64 + c] == 0 || t[q * 64 + c] == 1
        }),
{
    assert forall|q: int| 0 <= q < 19 implies #[trigger] tensor_spec(b)[q * 64 + row * 8 + f] == b.cell(q, row, f) by {
        lemma_cell_index(q, row, f);
    }
    let t = tensor_spec(b);
    let c = row * 8 + f;
    assert(t[c] == b.cell(0, row, f));
    assert(t[64 + c] == b.cell(1, row, f));
    assert(t[2 * 64 + c] == b.cell(2, row, f));
    assert(t[3 * 64 + c] == b.cell(3, row, f));
    assert(t[4 * 64 + c] == b.cell(4, row, f));
    assert(t[5 * 64 + c] == b.cell(5, row, f));
    assert(t[6 * 64 + c] == b.cell(6, row, f));
    assert(t[7 * 64 + c] == b.cell(7, row, f));
    assert(t[8 * 64 + c] == b.cell(8, row, f));
    assert(t[9 * 64 + c] == b.cell(9, row, f));
    assert(t[10 * 64 + c] == b.cell(10, row, f));
    assert(t[11 * 64 + c] == b.cell(11, row, f));
    assert(t[12 * 64 + c] == b.cell(12, row, f));
    assert(t[13 * 64 + c] == b.cell(13, row, f));
    assert(t[14 * 64 + c] == b.cell(14, row, f));
    assert(t[15 * 64 + c] == b.cell(15, row, f));
    assert(t[16 * 64 + c] == b.cell(16, row, f));
    assert(t[17 * 64 + c] == b.cell(17, row, f));
    assert(t[18 * 64 + c] == b.cell(18, row, f));
}

} // verus!
