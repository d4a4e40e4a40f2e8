//! The mask of legal moves handed to the network: one bit per move index,
//! 584 bytes, bit `idx % 8` of byte `idx / 8` for index `idx`.

use vstd::prelude::*;
use crate::moves::UciMove;
use crate::encoding::{
    encodable, encode, real_to_ia, representable, move_in, origin_pawn_in, law_move_to_index_to_move,
    moves_shaped, chess_move_in, origin, view_square, decode, decode_for, lemma_decode_shape,
};
use crate::moves::Role;
use crate::position::fen_role_at;
use crate::position::{Position, fen_legal_moves, fen_white_to_move};

verus! {

/// Number of bytes of a mask.
pub const MASK_BYTES: usize = 584;

/// Whether the bit of an index is set in a mask.
pub open spec fn has_bit(mask: Seq<u8>, idx: int) -> bool {
    (mask[idx / 8] >> ((idx % 8) as u8)) & 1u8 == 1u8
}

/// The mask with the bit of an index set.
pub open spec fn set_bit(mask: Seq<u8>, idx: int) -> Seq<u8> {
    mask.update(idx / 8, mask[idx / 8] | (1u8 << ((idx % 8) as u8)))
}

/// The index a move contributes to the mask, if any: its index when it has
/// one below 4672.
pub open spec fn mask_index(m: UciMove, white: bool) -> Option<int> {
    if encodable(m, white) {
        match encode(m, white) {
            Some(i) => if 0 <= i < 4672 {
                Some(i)
            } else {
                None
            },
            None => None,
        }
    } else {
        None
    }
}

/// The mask of a list of moves, for the side to move.
pub open spec fn mask_spec(moves: Seq<UciMove>, white: bool) -> Seq<u8>
    decreases moves.len(),
{
    if moves.len() == 0 {
        Seq::new(584, |i: int| 0u8)
    } else {
        let rest = mask_spec(moves.drop_last(), white);
        match mask_index(moves.last(), white) {
            Some(i) => set_bit(rest, i),
            None => rest,
        }
    }
}

/// One of the moves has this index.
pub open spec fn is_move_index(moves: Seq<UciMove>, white: bool, idx: int) -> bool {
    exists|k: int| 0 <= k < moves.len() && mask_index(#[trigger] moves[k], white) == Some(idx)
}

/// The indices whose bits are set among the first `n` bits, in increasing
/// order.
pub open spec fn indices_upto(mask: Seq<u8>, n: int) -> Seq<usize>
    decreases n,
{
    if n <= 0 {
        Seq::empty()
    } else if has_bit(mask, n - 1) {
        indices_upto(mask, n - 1).push((n - 1) as usize)
    } else {
        indices_upto(mask, n - 1)
    }
}

/// The indices whose bits are set, in increasing order.
pub open spec fn mask_indices_spec(mask: Seq<u8>) -> Seq<usize> {
    indices_upto(mask, (mask.len() * 8) as int)
}

proof fn lemma_bit_or(b: u8, k: u8, j: u8)
    requires
        k < 8,
        j < 8,
    ensures
        ((b | (1u8 << k)) >> j) & 1u8 == 1u8 <==> (j == k || (b >> j) & 1u8 == 1u8),
{
    assert(((b | (1u8 << k)) >> j) & 1u8 == 1u8 <==> (j == k || (b >> j) & 1u8 == 1u8))
        by (bit_vector)
        requires
            k < 8,
            j < 8,
    ;
}

proof fn lemma_zero_bits(j: u8)
    requires
        j < 8,
    ensures
        (0u8 >> j) & 1u8 != 1u8,
{
    assert((0u8 >> j) & 1u8 != 1u8) by (bit_vector);
}

proof fn lemma_set_bit(mask: Seq<u8>, i: int, j: int)
    requires
        mask.len() == 584,
        0 <= i < 4672,
        0 <= j < 4672,
    ensures
        set_bit(mask, i).len() == 584,
        has_bit(set_bit(mask, i), j) <==> (j == i || has_bit(mask, j)),
{
    lemma_bit_or(mask[i / 8], (i % 8) as u8, (j % 8) as u8);
    if i / 8 == j / 8 && i != j {
        assert(i % 8 != j % 8);
    }
}

/// The bits of the mask of a list of moves are those of its indices.
pub proof fn lemma_mask_bits(moves: Seq<UciMove>, white: bool, idx: int)
    requires
        0 <= idx < 4672,
    ensures
        mask_spec(moves, white).len() == 584,
        has_bit(mask_spec(moves, white), idx) <==> is_move_index(moves, white, idx),
    decreases moves.len(),
{
    if moves.len() == 0 {
        lemma_zero_bits((idx % 8) as u8);
    } else {
        let rest = moves.drop_last();
        lemma_mask_bits(rest, white, idx);
        if let Some(i) = mask_index(moves.last(), white) {
            lemma_set_bit(mask_spec(rest, white), i, idx);
        }
        if is_move_index(moves, white, idx) {
            let k = choose|k: int| 0 <= k < moves.len() && mask_index(#[trigger] moves[k], white) == Some(idx);
            if k < moves.len() - 1 {
                assert(rest[k] == moves[k]);
            }
        }
        if is_move_index(rest, white, idx) {
            let k = choose|k: int| 0 <= k < rest.len() && mask_index(#[trigger] rest[k], white) == Some(idx);
            assert(moves[k] == rest[k]);
        }
    }
}

/// Membership in the increasing list of set bits.
pub proof fn lemma_indices_upto(mask: Seq<u8>, n: int, idx: int)
    requires
        0 <= n <= mask.len() * 8,
        mask.len() * 8 <= usize::MAX,
        0 <= idx <= usize::MAX,
    ensures
        indices_upto(mask, n).contains(idx as usize) ==> idx < n && has_bit(mask, idx),
        0 <= idx < n && has_bit(mask, idx) ==> indices_upto(mask, n).contains(idx as usize),
        forall|k: int| 0 <= k < indices_upto(mask, n).len() ==> #[trigger] indices_upto(mask, n)[k] < n,
    decreases n,
{
    if n > 0 {
        lemma_indices_upto(mask, n - 1, idx);
        let prev = indices_upto(mask, n - 1);
        if has_bit(mask, n - 1) {
            assert(indices_upto(mask, n) == prev.push((n - 1) as usize));
            if idx == n - 1 {
                assert(indices_upto(mask, n).last() == idx as usize);
            }
            if 0 <= idx < n && has_bit(mask, idx) {
                if idx == n - 1 {
                    assert(indices_upto(mask, n)[prev.len() as int] == idx as usize);
                } else {
                    let k = choose|k: int| 0 <= k < prev.len() && prev[k] == idx as usize;
                    assert(indices_upto(mask, n)[k] == idx as usize);
                }
            }
            if indices_upto(mask, n).contains(idx as usize) && idx != n - 1 {
                let k = choose|k: int| 0 <= k < indices_upto(mask, n).len() && indices_upto(mask, n)[k] == idx as usize;
                assert(k < prev.len());
                assert(prev[k] == idx as usize);
            }
        }
    }
}

/// The set bits come in strictly increasing order.
pub proof fn lemma_indices_increasing(mask: Seq<u8>, n: int)
    requires
        0 <= n <= mask.len() * 8,
        mask.len() * 8 <= usize::MAX,
    ensures
        forall|a: int, b: int|
            0 <= a < b < indices_upto(mask, n).len() ==> indices_upto(mask, n)[a] < indices_upto(mask, n)[b],
    decreases n,
{
    if n > 0 {
        lemma_indices_increasing(mask, n - 1);
        lemma_indices_upto(mask, n - 1, 0);
    }
}

/// Law: the indices read back from a mask come in strictly increasing
/// order, each once.
pub proof fn law_indices_increasing(mask: Seq<u8>)
    requires
        mask.len() * 8 <= usize::MAX,
    ensures
        forall|a: int, b: int|
            0 <= a < b < mask_indices_spec(mask).len() ==> mask_indices_spec(mask)[a] < mask_indices_spec(mask)[b],
{
    lemma_indices_increasing(mask, (mask.len() * 8) as int);
}

/// Law: reading the indices back from the mask of a list of moves gives
/// exactly the indices of those moves.
pub proof fn law_mask_round_trip(moves: Seq<UciMove>, white: bool, idx: int)
    requires
        0 <= idx < 4672,
    ensures
        mask_spec(moves, white).len() == 584,
        mask_indices_spec(mask_spec(moves, white)).contains(idx as usize) <==> is_move_index(
            moves,
            white,
            idx,
        ),
{
    lemma_mask_bits(moves, white, idx);
    lemma_indices_upto(mask_spec(moves, white), 4672, idx);
}

/// Law: the layout of the mask. For each index `i` below 4672, bit `i % 8`
/// (counting from the least significant bit) of byte `i / 8` is set exactly
/// when `i` is the index of one of the moves.
pub proof fn law_mask_bit_layout(moves: Seq<UciMove>, white: bool, i: int)
    requires
        0 <= i < 4672,
    ensures
        mask_spec(moves, white).len() == 584,
        (mask_spec(moves, white)[i / 8] >> ((i % 8) as u8)) & 1u8 == 1u8 <==> is_move_index(moves, white, i),
{
    lemma_mask_bits(moves, white, i);
}

/// Law: reading a mask back. An index is read back exactly when it lies
/// within the mask and bit `i % 8` (from the least significant bit) of byte
/// `i / 8` is set.
pub proof fn law_mask_read_layout(mask: Seq<u8>, i: int)
    requires
        mask.len() * 8 <= usize::MAX,
        0 <= i <= usize::MAX,
    ensures
        mask_indices_spec(mask).contains(i as usize) <==> 0 <= i < mask.len() * 8 && (mask[i / 8] >> ((i % 8) as u8))
            & 1u8 == 1u8,
{
    lemma_indices_upto(mask, (mask.len() * 8) as int, i);
}

/// The mask of the given moves, for the side to move. A move without an
/// index, or with one of 4672 or more, sets no bit.
pub fn legal_mask(moves: &Vec<UciMove>, is_white: bool) -> (mask: Vec<u8>)
    requires
        forall|k: int| 0 <= k < moves.len() ==> (#[trigger] moves[k]).wf(),
    ensures
        mask@ == mask_spec(moves@, is_white),
        mask.len() == 584,
{
    let mut legal_mask: Vec<u8> = Vec::new();
    let mut j: usize = 0;
    while j < MASK_BYTES
        invariant
            j <= 584,
            legal_mask@ == Seq::new(j as nat, |i: int| 0u8),
        decreases 584 - j,
    {
        legal_mask.push(0);
        j = j + 1;
    }
    assert(legal_mask@ == mask_spec(moves@.take(0), is_white));
    let mut k: usize = 0;
    while k < moves.len()
        invariant
            k <= moves.len(),
            forall|q: int| 0 <= q < moves.len() ==> (#[trigger] moves[q]).wf(),
            legal_mask@ == mask_spec(moves@.take(k as int), is_white),
            legal_mask@.len() == 584,
        decreases moves.len() - k,
    {
        let m = moves[k];
        assert(moves@.take(k as int + 1).drop_last() == moves@.take(k as int));
        assert(moves@.take(k as int + 1).last() == m);
        if encodable_check(&m, is_white) {
            if let Some(idx) = real_to_ia(&m, is_white) {
                if idx < 4672 {
                    let byte: u8 = legal_mask[idx / 8] | (1u8 << ((idx % 8) as u8));
                    legal_mask.set(idx / 8, byte);
                }
            }
        }
        k = k + 1;
    }
    assert(moves@.take(moves.len() as int) == moves@);
    legal_mask
}

/// Whether the index of a move can be computed (see [`encodable`]).
pub fn encodable_check(m: &UciMove, is_white: bool) -> (r: bool)
    requires
        m.wf(),
    ensures
        r == encodable(*m, is_white),
{
    match m {
        UciMove::Normal { from, to, promotion: Some(p) } => {
            if *p == crate::moves::Role::Queen {
                true
            } else {
                let f = if is_white {
                    *from
                } else {
                    crate::encoding::flip_square(*from)
                };
                let t = if is_white {
                    *to
                } else {
                    crate::encoding::flip_square(*to)
                };
                (t % 8) as i8 - (f % 8) as i8 >= -1
            }
        },
        _ => true,
    }
}

/// The moves that a list of UCI texts names, in order, a text that names
/// none left out.
pub open spec fn parsed_moves(texts: Seq<Seq<char>>) -> Seq<UciMove>
    decreases texts.len(),
{
    if texts.len() == 0 {
        Seq::empty()
    } else {
        let rest = parsed_moves(texts.drop_last());
        match UciMove::parse_spec(texts.last()) {
            Some(m) => rest.push(m),
            None => rest,
        }
    }
}

/// The mask of the legal moves of the position of `fen`.
pub open spec fn legal_mask_of(fen: Seq<char>) -> Seq<u8> {
    mask_spec(parsed_moves(fen_legal_moves(fen)), fen_white_to_move(fen))
}

/// Law: an index whose bit is set in the legal-move mask of a position is
/// the index of one of its legal moves, and in that position the index
/// stands for that very move, wherever the move is one an index can stand
/// for (see [`representable`], with the piece on its origin square as the
/// position has it).
pub proof fn law_mask_index_is_legal_move(fen: Seq<char>, idx: int)
    requires
        0 <= idx < 4672,
        mask_indices_spec(legal_mask_of(fen)).contains(idx as usize),
    ensures
        exists|m: UciMove| {
            &&& parsed_moves(fen_legal_moves(fen)).contains(m)
            &&& mask_index(m, fen_white_to_move(fen)) == Some(idx)
            &&& representable(m, fen_white_to_move(fen), origin_pawn_in(idx, fen)) ==> move_in(idx, fen)
                == Some(m)
        },
{
    let moves = parsed_moves(fen_legal_moves(fen));
    let white = fen_white_to_move(fen);
    law_mask_round_trip(moves, white, idx);
    let k = choose|k: int| 0 <= k < moves.len() && mask_index(#[trigger] moves[k], white) == Some(idx);
    let m = moves[k];
    if representable(m, white, origin_pawn_in(idx, fen)) {
        law_move_to_index_to_move(m, white, origin_pawn_in(idx, fen));
    }
    assert(moves.contains(m));
}

/// The move that a UCI text names has an index that stands, in the
/// position of `fen`, for that very move, and whose bit is set in `mask`.
pub open spec fn indexed_in(fen: Seq<char>, mask: Seq<u8>, t: Seq<char>) -> bool {
    UciMove::parse_spec(t) matches Some(m) && encode(m, fen_white_to_move(fen)) matches Some(i) && 0 <= i < 4672
        && move_in(i, fen) == Some(m) && mask_indices_spec(mask).contains(i as usize)
}

/// Where every text names a move, the parsed moves are the texts' moves,
/// one for one.
proof fn lemma_parsed_all(ts: Seq<Seq<char>>)
    requires
        forall|i: int| 0 <= i < ts.len() ==> UciMove::parse_spec(#[trigger] ts[i]) is Some,
    ensures
        parsed_moves(ts).len() == ts.len(),
        forall|k: int| 0 <= k < ts.len() ==> Some(#[trigger] parsed_moves(ts)[k]) == UciMove::parse_spec(ts[k]),
    decreases ts.len(),
{
    if ts.len() > 0 {
        let rest = ts.drop_last();
        assert forall|i: int| 0 <= i < rest.len() implies UciMove::parse_spec(#[trigger] rest[i]) is Some by {
            assert(rest[i] == ts[i]);
        }
        lemma_parsed_all(rest);
        assert forall|k: int| 0 <= k < ts.len() implies Some(#[trigger] parsed_moves(ts)[k]) == UciMove::parse_spec(ts[k]) by {
            if k < ts.len() - 1 {
                assert(rest[k] == ts[k]);
            }
        }
    }
}

/// A move of chess shape in a position: its index, and back in that
/// position the index stands for the move.
proof fn lemma_shaped_index(fen: Seq<char>, m: UciMove)
    requires
        representable(m, fen_white_to_move(fen), fen_role_at(fen, origin(m) as u8) == Some(Role::Pawn)),
    ensures
        encodable(m, fen_white_to_move(fen)),
        encode(m, fen_white_to_move(fen)) matches Some(i) && 0 <= i < 4672 && move_in(i, fen) == Some(m)
            && mask_index(m, fen_white_to_move(fen)) == Some(i),
{
    let w = fen_white_to_move(fen);
    let p = fen_role_at(fen, origin(m) as u8) == Some(Role::Pawn);
    law_move_to_index_to_move(m, w, p);
    let i = encode(m, w)->0;
    lemma_decode_shape(i, p);
    let d = decode(i, p)->0;
    assert(decode_for(i, w, p) == Some(m));
    assert(origin(d) == i % 64);
    assert(view_square(i % 64, w) == origin(m));
    assert(origin_pawn_in(i, fen) == p);
}

/// Law: the index of every legal move of a position stands, in that
/// position, for that very move, and its bit is set in the position's mask
/// of legal moves.
pub proof fn law_legal_move_round_trip(fen: Seq<char>, k: int)
    requires
        moves_shaped(fen, fen_legal_moves(fen)),
        0 <= k < fen_legal_moves(fen).len(),
    ensures
        indexed_in(fen, legal_mask_of(fen), fen_legal_moves(fen)[k]),
{
    let ts = fen_legal_moves(fen);
    let w = fen_white_to_move(fen);
    assert(chess_move_in(fen, ts[k]));
    let m = UciMove::parse_spec(ts[k])->0;
    lemma_shaped_index(fen, m);
    let i = encode(m, w)->0;
    assert forall|j: int| 0 <= j < ts.len() implies UciMove::parse_spec(#[trigger] ts[j]) is Some by {
        assert(chess_move_in(fen, ts[j]));
    }
    lemma_parsed_all(ts);
    let moves = parsed_moves(ts);
    assert(moves[k] == m);
    assert(is_move_index(moves, w, i));
    law_mask_round_trip(moves, w, i);
}

/// Law: the mask of a position has exactly as many bits set as the
/// position has legal moves.
pub proof fn law_mask_counts_legal_moves(fen: Seq<char>)
    requires
        moves_shaped(fen, fen_legal_moves(fen)),
    ensures
        mask_indices_spec(legal_mask_of(fen)).len() == fen_legal_moves(fen).len(),
{
    let ts = fen_legal_moves(fen);
    let w = fen_white_to_move(fen);
    let mask = legal_mask_of(fen);
    assert forall|j: int| 0 <= j < ts.len() implies UciMove::parse_spec(#[trigger] ts[j]) is Some by {
        assert(chess_move_in(fen, ts[j]));
    }
    lemma_parsed_all(ts);
    let moves = parsed_moves(ts);
    assert forall|k: int| 0 <= k < moves.len() implies
        representable(#[trigger] moves[k], w, fen_role_at(fen, origin(moves[k]) as u8) == Some(Role::Pawn)) by {
        assert(chess_move_in(fen, ts[k]));
    }
    let ix = Seq::new(moves.len(), |k: int| encode(moves[k], w)->0 as usize);
    assert forall|k: int| 0 <= k < moves.len() implies
        mask_index(#[trigger] moves[k], w) == Some(ix[k] as int) && move_in(ix[k] as int, fen) == Some(moves[k]) by {
        lemma_shaped_index(fen, moves[k]);
    }
    assert(ix.no_duplicates()) by {
        assert forall|a: int, b: int| 0 <= a < ix.len() && 0 <= b < ix.len() && a != b implies ix[a] != ix[b] by {
            if ix[a] == ix[b] {
                assert(move_in(ix[a] as int, fen) == Some(moves[a]));
                assert(move_in(ix[b] as int, fen) == Some(moves[b]));
                if a < b {
                    assert(UciMove::parse_spec(ts[a]) != UciMove::parse_spec(ts[b]));
                } else {
                    assert(UciMove::parse_spec(ts[b]) != UciMove::parse_spec(ts[a]));
                }
            }
        }
    }
    ix.unique_seq_to_set();
    let out = mask_indices_spec(mask);
    assert(mask.len() == 584) by {
        lemma_mask_bits(moves, w, 0);
    }
    law_indices_increasing(mask);
    assert(out.no_duplicates()) by {
        assert forall|a: int, b: int| 0 <= a < out.len() && 0 <= b < out.len() && a != b implies out[a] != out[b] by {
            if a < b {
                assert(out[a] < out[b]);
            } else {
                assert(out[b] < out[a]);
            }
        }
    }
    out.unique_seq_to_set();
    assert forall|x: usize| out.to_set().contains(x) <==> ix.to_set().contains(x) by {
        lemma_indices_upto(mask, 4672, x as int);
        if out.to_set().contains(x) {
            assert(out.contains(x));
            law_mask_round_trip(moves, w, x as int);
            let k = choose|k: int| 0 <= k < moves.len() && mask_index(#[trigger] moves[k], w) == Some(x as int);
            assert(ix[k] == x);
            assert(ix.contains(x));
        }
        if ix.to_set().contains(x) {
            let k = choose|k: int| 0 <= k < ix.len() && ix[k] == x;
            assert(mask_index(moves[k], w) == Some(x as int));
            assert(0 <= x < 4672);
            law_mask_round_trip(moves, w, x as int);
            assert(out.contains(x));
        }
    }
    assert(out.to_set() =~= ix.to_set());
}

/// The mask of the legal moves of `pos`. Every legal move with an index
/// below 4672 sets its bit; a move whose index cannot be computed (an
/// under-promotion stepping two or more files left, which no legal move
/// does) sets none.
pub fn coups_legaux(pos: &Position) -> (mask: Vec<u8>)
    ensures
        mask.len() == 584,
        mask@ == legal_mask_of(pos@),
        mask_indices_spec(mask@).len() == fen_legal_moves(pos@).len(),
        forall|k: int| 0 <= k < fen_legal_moves(pos@).len() ==> indexed_in(pos@, mask@, #[trigger] fen_legal_moves(pos@)[k]),
{
    let is_white = pos.white_to_move();
    let legals = pos.legal_moves();
    let ghost texts = legals@.map_values(|s: String| s@);
    let mut moves: Vec<UciMove> = Vec::new();
    let mut k: usize = 0;
    while k < legals.len()
        invariant
            k <= legals.len(),
            texts == legals@.map_values(|s: String| s@),
            moves@ == parsed_moves(texts.take(k as int)),
            forall|q: int| 0 <= q < moves.len() ==> (#[trigger] moves[q]).wf(),
        decreases legals.len() - k,
    {
        assert(texts.take(k as int + 1).drop_last() == texts.take(k as int));
        assert(texts.take(k as int + 1).last() == legals[k as int]@);
        if let Some(m) = UciMove::parse(legals[k].as_str()) {
            moves.push(m);
        }
        k = k + 1;
    }
    assert(texts.take(legals.len() as int) == texts);
    proof {
        law_mask_counts_legal_moves(pos@);
        assert forall|k: int| 0 <= k < fen_legal_moves(pos@).len() implies indexed_in(
            pos@,
            legal_mask_of(pos@),
            #[trigger] fen_legal_moves(pos@)[k],
        ) by {
            law_legal_move_round_trip(pos@, k);
        }
    }
    legal_mask(&moves, is_white)
}

/// The legal moves of `pos`, in the order `shakmaty` lists them, each with
/// the index that stands for it in the network's policy.
pub fn legal_moves_with_indices(pos: &Position) -> (r: Vec<(UciMove, usize)>)
    ensures
        r.len() == fen_legal_moves(pos@).len(),
        forall|k: int|
            0 <= k < r.len() ==> {
                &&& Some((#[trigger] r@[k]).0) == UciMove::parse_spec(fen_legal_moves(pos@)[k])
                &&& encode(r@[k].0, fen_white_to_move(pos@)) == Some(r@[k].1 as int)
                &&& r@[k].1 < 4672
                &&& move_in(r@[k].1 as int, pos@) == Some(r@[k].0)
            },
{
    let is_white = pos.white_to_move();
    let legals = pos.legal_moves();
    let ghost texts = legals@.map_values(|s: String| s@);
    let mut out: Vec<(UciMove, usize)> = Vec::new();
    let mut k: usize = 0;
    while k < legals.len()
        invariant
            k <= legals.len(),
            texts == legals@.map_values(|s: String| s@),
            texts == fen_legal_moves(pos@),
            is_white == fen_white_to_move(pos@),
            moves_shaped(pos@, texts),
            out.len() == k,
            forall|q: int|
                0 <= q < k ==> {
                    &&& Some((#[trigger] out@[q]).0) == UciMove::parse_spec(texts[q])
                    &&& encode(out@[q].0, is_white) == Some(out@[q].1 as int)
                    &&& out@[q].1 < 4672
                    &&& move_in(out@[q].1 as int, pos@) == Some(out@[q].0)
                },
        decreases legals.len() - k,
    {
        assert(chess_move_in(pos@, texts[k as int]));
        assert(texts[k as int] == legals[k as int]@);
        let m = match UciMove::parse(legals[k].as_str()) {
            Some(m) => m,
            None => {
                proof {
                    assert(false);
                }
                return out;
            },
        };
        proof {
            lemma_shaped_index(pos@, m);
        }
        if !encodable_check(&m, is_white) {
            proof {
                assert(false);
            }
            return out;
        }
        let idx = match real_to_ia(&m, is_white) {
            Some(i) => i,
            None => {
                proof {
                    assert(false);
                }
                return out;
            },
        };
        out.push((m, idx));
        k = k + 1;
    }
    out
}

/// The indices whose bits are set in a mask, in increasing order.
pub fn mask_indices(mask: &Vec<u8>) -> (r: Vec<usize>)
    requires
        mask.len() * 8 <= usize::MAX,
    ensures
        r@ == mask_indices_spec(mask@),
{
    let mut out: Vec<usize> = Vec::new();
    let mut byte_idx: usize = 0;
    while byte_idx < mask.len()
        invariant
            byte_idx <= mask.len(),
            mask.len() * 8 <= usize::MAX,
            out@ == indices_upto(mask@, byte_idx as int * 8),
        decreases mask.len() - byte_idx,
    {
        let byte = mask[byte_idx];
        let mut bit_idx: usize = 0;
        while bit_idx < 8
            invariant
                byte_idx < mask.len(),
                mask.len() * 8 <= usize::MAX,
                bit_idx <= 8,
                byte == mask@[byte_idx as int],
                out@ == indices_upto(mask@, byte_idx as int * 8 + bit_idx as int),
            decreases 8 - bit_idx,
        {
            let idx: usize = byte_idx * 8 + bit_idx;
            assert(idx / 8 == byte_idx && idx % 8 == bit_idx);
            let b: u8 = bit_idx as u8;
            assert((byte & (1u8 << b) != 0u8) == ((byte >> b) & 1u8 == 1u8)) by (bit_vector)
                requires
                    b < 8,
            ;
            if byte & (1u8 << b) != 0 {
                out.push(idx);
            }
            bit_idx = bit_idx + 1;
        }
        byte_idx = byte_idx + 1;
    }
    out
}

} // verus!
