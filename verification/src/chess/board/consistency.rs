use vstd::prelude::*;
use crate::chess::constants::{Piece, Color, castle_rook_squares};
use crate::chess::chess_move::Move;
use crate::chess::board::Position;
use crate::chess::board::bitboard::{bit, lsb_num, en_passant_rm_spec, lemma_lsb_single};
use crate::chess::board::hash::Keys;
use crate::chess::board::make_move::{apply_move, sq_mask, toggle, promo_piece};
use crate::chess::board::laws::{pos_wf, move_fits, ep_victim, bb_after, color_after, piece_after, lemma_apply_parts};
use crate::chess::board::hash_laws::{lemma_bits_flip, lemma_xor_identities};
use crate::chess::board::eval_laws::boards_agree;
use crate::chess::board::fen::{start_position, start_pieces, scored, Placement, put_piece, place_chars, place_ranks, empty_placement, fen_piece, fen_side, is_digit, fen_spec, split};

verus! {

/// The colour (0 white, 1 black) that the colour boards give square `sq`.
pub open spec fn colour_at(p: Position, sq: int) -> nat {
    if bit(p.color_bb[1], sq) { 1 } else { 0 }
}

/// The piece array and the boards describe the same pieces: a piece board
/// holds a square exactly when the square holds that board's piece in the
/// colour the colour boards give it, the white board holds exactly the
/// occupied squares the black board does not, and the black board holds
/// only occupied squares.
pub open spec fn consistent(p: Position) -> bool {
    &&& p.piece_bb.len() == 12
    &&& p.color_bb.len() == 2
    &&& p.piece.len() == 64
    &&& forall|sq: int, i: int|
        0 <= sq < 64 && 0 <= i < 12 ==> #[trigger] bit(p.piece_bb[i], sq) == (p.piece[sq] != Piece::Empty && i
            == p.piece[sq].idx() + 6 * colour_at(p, sq))
    &&& forall|sq: int| 0 <= sq < 64 ==> #[trigger] bit(p.color_bb[0], sq) == (p.piece[sq] != Piece::Empty && !bit(p.color_bb[1], sq))
    &&& forall|sq: int| 0 <= sq < 64 ==> (#[trigger] bit(p.color_bb[1], sq) ==> p.piece[sq] != Piece::Empty)
}

/// `m` moves a piece of the side to move onto a square without a piece of
/// its own; en passant goes onto an empty square with a pawn of the other
/// side behind it; castling takes a rook of the mover's own.
pub open spec fn own_move(p: Position, m: Move) -> bool {
    let side = p.turn.idx();
    let from = m.from_num();
    let to = m.to_num();
    let flags = m.flag_bits();
    &&& move_fits(p, m)
    &&& colour_at(p, from as int) == side
    &&& p.piece[to as int] != Piece::Empty ==> colour_at(p, to as int) != side
    &&& flags == 5 ==> p.piece[to as int] == Piece::Empty && colour_at(p, ep_victim(to) as int) != side
    &&& (flags == 2 || flags == 3) ==> colour_at(p, castle_rook_squares(side, flags == 3).0 as int) == side
}

proof fn lemma_bit_xor(x: u64, y: u64, k: nat)
    requires
        k < 64,
    ensures
        bit(x ^ y, k as int) == (bit(x, k as int) != bit(y, k as int)),
{
    let kk = k as u64;
    assert(kk < 64 ==> ((((x ^ y) >> kk) & 1u64 == 1u64) == (((x >> kk) & 1u64 == 1u64) != ((y >> kk) & 1u64 == 1u64)))) by (bit_vector);
}

proof fn lemma_mask_bit(a: nat, k: nat)
    requires
        a < 64,
        k < 64,
    ensures
        bit(sq_mask(a), k as int) == (a == k),
{
    lemma_bits_flip(0, a as u64, k as u64);
    lemma_xor_identities(sq_mask(a), 0, 0, 0, 0);
    assert(0u64 ^ sq_mask(a) == sq_mask(a));
    assert(bit(0u64, k as int) == ((0u64 >> (k as u64)) & 1u64 == 1u64));
    assert(bit(sq_mask(a), k as int) == (((0u64 ^ (1u64 << (a as u64))) >> (k as u64)) & 1u64 == 1u64));
}

proof fn lemma_toggle_bit(s: Seq<u64>, idx: int, mask: u64, i: int, sq: nat)
    requires
        0 <= i < s.len(),
        0 <= idx < s.len(),
        sq < 64,
    ensures
        toggle(s, idx, mask).len() == s.len(),
        bit(toggle(s, idx, mask)[i], sq as int) == (bit(s[i], sq as int) != (i == idx && bit(mask, sq as int))),
{
    if i == idx {
        lemma_bit_xor(s[i], mask, sq);
    }
}

/// Whether the move flips square `sq` of piece board `i`, counted once for
/// each flip (an even number of flips leaves the bit).
pub open spec fn bb_hits(p: Position, m: Move, i: int, sq: int) -> bool {
    let side = p.turn.idx();
    let off = (side * 6) as int;
    let ooff = ((1 - side) * 6) as int;
    let from = m.from_num() as int;
    let to = m.to_num() as int;
    let flags = m.flag_bits();
    let mi = p.piece[from].idx() + off;
    let cap = p.piece[to];
    let ci = cap.idx() + ooff;
    let h0 = i == mi && ((sq == from) != (sq == to));
    let h1 = h0 != (cap != Piece::Empty && i == ci && sq == to);
    if flags > 5 {
        (h1 != (i == promo_piece(flags).idx() + off && sq == to)) != (i == off && sq == to)
    } else if flags == 5 {
        h1 != (i == ooff && sq == ep_victim(m.to_num()))
    } else if flags == 2 || flags == 3 {
        let (rd, ra) = castle_rook_squares(side, flags == 3);
        h1 != (i == off + 3 && ((sq == rd) != (sq == ra)))
    } else {
        h1
    }
}

/// Whether the move flips square `sq` of colour board `c`.
pub open spec fn color_hits(p: Position, m: Move, c: int, sq: int) -> bool {
    let side = p.turn.idx() as int;
    let opp = 1 - side;
    let from = m.from_num() as int;
    let to = m.to_num() as int;
    let flags = m.flag_bits();
    let cap = p.piece[to];
    let h0 = c == side && ((sq == from) != (sq == to));
    let h1 = h0 != (cap != Piece::Empty && c == opp && sq == to);
    if flags > 5 {
        h1
    } else if flags == 5 {
        h1 != (c == opp && sq == ep_victim(m.to_num()))
    } else if flags == 2 || flags == 3 {
        let (rd, ra) = castle_rook_squares(p.turn.idx(), flags == 3);
        h1 != (c == side && ((sq == rd) != (sq == ra)))
    } else {
        h1
    }
}

/// The en passant board of a landing square is its victim's square.
proof fn lemma_ep_mask(to: nat)
    requires
        16 <= to < 24 || 40 <= to < 48,
    ensures
        en_passant_rm_spec(to) == sq_mask(ep_victim(to)),
        lsb_num(en_passant_rm_spec(to)) == ep_victim(to),
{
    let t = to as u64;
    if 16 <= to < 24 {
        lemma_lsb_single((t + 8) as u64);
    } else {
        lemma_lsb_single((t - 8) as u64);
    }
}

proof fn lemma_bb_after_bit(p: Position, m: Move, i: int, sq: nat)
    requires
        pos_wf(p),
        move_fits(p, m),
        0 <= i < 12,
        sq < 64,
    ensures
        bb_after(p, m).len() == 12,
        bit(bb_after(p, m)[i], sq as int) == (bit(p.piece_bb[i], sq as int) != bb_hits(p, m, i, sq as int)),
{
    m.lemma_parts();
    let side = p.turn.idx();
    let off = side * 6;
    let ooff = ((1 - side) * 6) as nat;
    let from = m.from_num();
    let to = m.to_num();
    let flags = m.flag_bits();
    let moved = p.piece[from as int];
    let cap = p.piece[to as int];
    let tb = sq_mask(to);
    let mi = (moved.idx() + off) as int;
    let ci = (cap.idx() + ooff) as int;
    let b0 = toggle(p.piece_bb, mi, sq_mask(from) ^ tb);
    let b1 = if cap != Piece::Empty { toggle(b0, ci, tb) } else { b0 };
    lemma_toggle_bit(p.piece_bb, mi, sq_mask(from) ^ tb, i, sq);
    lemma_bit_xor(sq_mask(from), tb, sq);
    lemma_mask_bit(from, sq);
    lemma_mask_bit(to, sq);
    if cap != Piece::Empty {
        lemma_toggle_bit(b0, ci, tb, i, sq);
    }
    if flags > 5 {
        let pi = (promo_piece(flags).idx() + off) as int;
        let b2 = toggle(b1, pi, tb);
        lemma_toggle_bit(b1, pi, tb, i, sq);
        lemma_toggle_bit(b2, off as int, tb, i, sq);
    } else if flags == 5 {
        lemma_ep_mask(to);
        lemma_toggle_bit(b1, ooff as int, en_passant_rm_spec(to), i, sq);
        lemma_mask_bit(ep_victim(to), sq);
    } else if flags == 2 || flags == 3 {
        let (rd, ra) = castle_rook_squares(side, flags == 3);
        lemma_toggle_bit(b1, (off + 3) as int, sq_mask(rd) ^ sq_mask(ra), i, sq);
        lemma_bit_xor(sq_mask(rd), sq_mask(ra), sq);
        lemma_mask_bit(rd, sq);
        lemma_mask_bit(ra, sq);
    }
}

proof fn lemma_color_after_bit(p: Position, m: Move, c: int, sq: nat)
    requires
        pos_wf(p),
        move_fits(p, m),
        0 <= c < 2,
        sq < 64,
    ensures
        color_after(p, m).len() == 2,
        bit(color_after(p, m)[c], sq as int) == (bit(p.color_bb[c], sq as int) != color_hits(p, m, c, sq as int)),
{
    m.lemma_parts();
    let side = p.turn.idx();
    let opp = (1 - side) as nat;
    let from = m.from_num();
    let to = m.to_num();
    let flags = m.flag_bits();
    let cap = p.piece[to as int];
    let tb = sq_mask(to);
    let k0 = toggle(p.color_bb, side as int, sq_mask(from) ^ tb);
    let k1 = if cap != Piece::Empty { toggle(k0, opp as int, tb) } else { k0 };
    lemma_toggle_bit(p.color_bb, side as int, sq_mask(from) ^ tb, c, sq);
    lemma_bit_xor(sq_mask(from), tb, sq);
    lemma_mask_bit(from, sq);
    lemma_mask_bit(to, sq);
    if cap != Piece::Empty {
        lemma_toggle_bit(k0, opp as int, tb, c, sq);
    }
    if flags == 5 {
        lemma_ep_mask(to);
        lemma_toggle_bit(k1, opp as int, en_passant_rm_spec(to), c, sq);
        lemma_mask_bit(ep_victim(to), sq);
    } else if flags == 2 || flags == 3 {
        let (rd, ra) = castle_rook_squares(side, flags == 3);
        lemma_toggle_bit(k1, side as int, sq_mask(rd) ^ sq_mask(ra), c, sq);
        lemma_bit_xor(sq_mask(rd), sq_mask(ra), sq);
        lemma_mask_bit(rd, sq);
        lemma_mask_bit(ra, sq);
    }
}

/// The square `sq` of the position after `m` is consistent.
#[verifier::spinoff_prover]
#[verifier::rlimit(40)]
proof fn lemma_square_kept(p: Position, m: Move, sq: nat)
    requires
        pos_wf(p),
        consistent(p),
        own_move(p, m),
        sq < 64,
    ensures
        forall|i: int|
            0 <= i < 12 ==> #[trigger] bit(bb_after(p, m)[i], sq as int) == (piece_after(p, m)[sq as int] != Piece::Empty
                && i == piece_after(p, m)[sq as int].idx() + 6 * (if bit(color_after(p, m)[1], sq as int) { 1nat } else { 0nat })),
        bit(color_after(p, m)[0], sq as int) == (piece_after(p, m)[sq as int] != Piece::Empty && !bit(color_after(p, m)[1], sq as int)),
        bit(color_after(p, m)[1], sq as int) ==> piece_after(p, m)[sq as int] != Piece::Empty,
{
    m.lemma_parts();
    let side = p.turn.idx();
    let from = m.from_num();
    let to = m.to_num();
    let flags = m.flag_bits();
    let s = sq as int;
    lemma_color_after_bit(p, m, 0, sq);
    lemma_color_after_bit(p, m, 1, sq);
    if flags == 5 {
        lemma_ep_mask(to);
    }
    let np = piece_after(p, m)[s];
    assert(bit(p.color_bb[0], s) == (p.piece[s] != Piece::Empty && !bit(p.color_bb[1], s)));
    assert(bit(p.color_bb[1], s) ==> p.piece[s] != Piece::Empty);
    assert(bit(p.color_bb[0], from as int) == (p.piece[from as int] != Piece::Empty && !bit(p.color_bb[1], from as int)));
    assert(bit(p.color_bb[0], to as int) == (p.piece[to as int] != Piece::Empty && !bit(p.color_bb[1], to as int)));
    assert forall|i: int| 0 <= i < 12 implies #[trigger] bit(bb_after(p, m)[i], s) == (np != Piece::Empty
        && i == np.idx() + 6 * (if bit(color_after(p, m)[1], s) { 1nat } else { 0nat })) by {
        lemma_bb_after_bit(p, m, i, sq);
        assert(bit(p.piece_bb[i], s) == (p.piece[s] != Piece::Empty && i == p.piece[s].idx() + 6 * colour_at(p, s)));
    }
}

/// The pieces stay consistent: a move of the side to move by its own piece
/// onto a square without one of its own (see `own_move`) leaves the piece
/// array and the boards describing the same pieces.
pub proof fn law_moves_keep_consistency(p: Position, z: Keys, m: Move, eval: bool)
    requires
        pos_wf(p),
        consistent(p),
        own_move(p, m),
    ensures
        consistent(apply_move(p, z, m, eval)),
{
    lemma_apply_parts(p, z, m, eval);
    let q = apply_move(p, z, m, eval);
    lemma_bb_after_bit(p, m, 0, 0);
    lemma_color_after_bit(p, m, 0, 0);
    m.lemma_parts();
    if m.flag_bits() == 5 {
        lemma_ep_mask(m.to_num());
    }
    assert(q.piece.len() == 64);
    assert(q.piece_bb.len() == 12);
    assert(q.color_bb.len() == 2);
    assert forall|sq: int, i: int| 0 <= sq < 64 && 0 <= i < 12 implies #[trigger] bit(q.piece_bb[i], sq) == (q.piece[sq]
        != Piece::Empty && i == q.piece[sq].idx() + 6 * colour_at(q, sq)) by {
        lemma_square_kept(p, m, sq as nat);
    }
    assert forall|sq: int| 0 <= sq < 64 implies #[trigger] bit(q.color_bb[0], sq) == (q.piece[sq] != Piece::Empty && !bit(
        q.color_bb[1],
        sq,
    )) by {
        lemma_square_kept(p, m, sq as nat);
    }
    assert forall|sq: int| 0 <= sq < 64 implies (#[trigger] bit(q.color_bb[1], sq) ==> q.piece[sq] != Piece::Empty) by {
        lemma_square_kept(p, m, sq as nat);
    }
}

/// In a consistent position, the boards agree with a move of the side to
/// move by its own piece about the squares it touches.
pub proof fn law_own_moves_agree(p: Position, m: Move)
    requires
        pos_wf(p),
        consistent(p),
        own_move(p, m),
    ensures
        boards_agree(p, m),
{
    m.lemma_parts();
    let side = p.turn.idx();
    let from = m.from_num() as int;
    let to = m.to_num() as int;
    let mi = p.piece[from].idx() + side * 6;
    assert(bit(p.piece_bb[mi as int], from));
    assert(bit(p.piece_bb[mi as int], to) == (p.piece[to] != Piece::Empty && mi == p.piece[to].idx() + 6 * colour_at(p, to)));
    let cap = p.piece[to];
    if cap != Piece::Empty {
        let ci = cap.idx() + (1 - side) * 6;
        assert(bit(p.piece_bb[ci as int], to));
    }
    if m.flag_bits() == 5 {
        let v = ep_victim(m.to_num()) as int;
        assert(bit(p.piece_bb[((1 - side) * 6) as int], v));
    }
    if m.flag_bits() == 2 || m.flag_bits() == 3 {
        let (rd, ra) = castle_rook_squares(side, m.flag_bits() == 3);
        assert(bit(p.piece_bb[(side * 6 + 3) as int], rd as int));
        assert(bit(p.piece_bb[(side * 6 + 3) as int], ra as int) == (p.piece[ra as int] != Piece::Empty && side * 6 + 3 == p.piece[ra as int].idx() + 6 * colour_at(p, ra as int)));
    }
}

/// Which squares the starting boards hold.
proof fn lemma_start_bits(k: u64)
    by (bit_vector)
    requires
        k < 64,
    ensures
        ((0x000000000000FF00u64 >> k) & 1u64 == 1u64) == (8 <= k < 16),
        ((0x0000000000000024u64 >> k) & 1u64 == 1u64) == (k == 2 || k == 5),
        ((0x0000000000000042u64 >> k) & 1u64 == 1u64) == (k == 1 || k == 6),
        ((0x0000000000000081u64 >> k) & 1u64 == 1u64) == (k == 0 || k == 7),
        ((0x0000000000000008u64 >> k) & 1u64 == 1u64) == (k == 3),
        ((0x0000000000000010u64 >> k) & 1u64 == 1u64) == (k == 4),
        ((0x00FF000000000000u64 >> k) & 1u64 == 1u64) == (48 <= k < 56),
        ((0x2400000000000000u64 >> k) & 1u64 == 1u64) == (k == 58 || k == 61),
        ((0x4200000000000000u64 >> k) & 1u64 == 1u64) == (k == 57 || k == 62),
        ((0x8100000000000000u64 >> k) & 1u64 == 1u64) == (k == 56 || k == 63),
        ((0x0800000000000000u64 >> k) & 1u64 == 1u64) == (k == 59),
        ((0x1000000000000000u64 >> k) & 1u64 == 1u64) == (k == 60),
        ((0x000000000000FFFFu64 >> k) & 1u64 == 1u64) == (k < 16),
        ((0xFFFF000000000000u64 >> k) & 1u64 == 1u64) == (48 <= k),
{
}

/// The board at the start of a game is consistent, before and after its
/// hash and evaluation are filled in under any keys `z`.
pub proof fn law_start_consistent(z: Keys)
    ensures
        consistent(start_position()),
        consistent(scored(start_position(), z)),
{
    let p = start_position();
    let sp = start_pieces();
    assert forall|sq: int| 0 <= sq < 64 implies {
        &&& forall|i: int| 0 <= i < 12 ==> #[trigger] bit(p.piece_bb[i], sq) == (p.piece[sq] != Piece::Empty && i
            == p.piece[sq].idx() + 6 * colour_at(p, sq))
        &&& bit(p.color_bb[0], sq) == (p.piece[sq] != Piece::Empty && !bit(p.color_bb[1], sq))
        &&& bit(p.color_bb[1], sq) ==> p.piece[sq] != Piece::Empty
    } by {
        lemma_start_bits(sq as u64);
        assert(p.piece[sq] == sp[sq]);
        assert forall|i: int| 0 <= i < 12 implies #[trigger] bit(p.piece_bb[i], sq) == (p.piece[sq] != Piece::Empty
            && i == p.piece[sq].idx() + 6 * colour_at(p, sq)) by {
            if i == 0 {
            } else if i == 1 {
            } else if i == 2 {
            } else if i == 3 {
            } else if i == 4 {
            } else if i == 5 {
            } else if i == 6 {
            } else if i == 7 {
            } else if i == 8 {
            } else if i == 9 {
            } else if i == 10 {
            } else {
            }
        }
    }
}

/// The placement `pl` as a position (the rest of it does not matter here).
pub open spec fn placed(pl: Placement) -> Position {
    Position {
        piece_bb: pl.piece_bb,
        color_bb: pl.color_bb,
        occupied: pl.occupied,
        piece: pl.piece,
        turn: Color::White,
        en_passant: 0,
        castling: 0,
        mg: 0,
        eg: 0,
        phase: 0,
        hash: 0,
        halfmoves: 0,
        fullmoves: 0,
    }
}

/// Square `sq` holds nothing in `pl`, on any board or in the piece array.
pub open spec fn empty_at(pl: Placement, sq: int) -> bool {
    &&& pl.piece[sq] == Piece::Empty
    &&& forall|i: int| 0 <= i < 12 ==> !#[trigger] bit(pl.piece_bb[i], sq)
    &&& !bit(pl.color_bb[0], sq)
    &&& !bit(pl.color_bb[1], sq)
}

/// How many squares the rank text `r` covers: a digit its value, any other
/// byte one square.
pub open spec fn rank_width(r: Seq<u8>) -> nat
    decreases r.len(),
{
    if r.len() == 0 {
        0
    } else {
        (if is_digit(r[0]) { (r[0] - 48) as nat } else { 1nat }) + rank_width(r.drop_first())
    }
}

/// Every rank of the placement text `b` (ranks separated by `/`) covers at
/// most eight squares.
pub open spec fn ranks_fit(b: Seq<u8>) -> bool {
    forall|i: int| 0 <= i < split(b, 47).len() ==> #[trigger] rank_width(split(b, 47)[i]) <= 8
}

proof fn lemma_put_piece(st: Placement, p: Piece, side: nat, off: nat)
    requires
        consistent(placed(st)),
        empty_at(st, off as int),
        off < 64,
        side < 2,
        p != Piece::Empty,
    ensures
        consistent(placed(put_piece(st, p, side, off))),
        forall|sq: int| 0 <= sq < 64 && sq != off ==> (#[trigger] empty_at(put_piece(st, p, side, off), sq) == empty_at(st, sq)),
{
    let t = put_piece(st, p, side, off);
    let m = sq_mask(off);
    let idx = (p.idx() + side * 6) as int;
    assert(t.piece_bb == toggle(st.piece_bb, idx, m));
    assert(t.color_bb == toggle(st.color_bb, side as int, m));
    assert forall|sq: int| 0 <= sq < 64 implies {
        &&& forall|i: int| 0 <= i < 12 ==> #[trigger] bit(t.piece_bb[i], sq) == (bit(st.piece_bb[i], sq) != (i == idx && sq == off))
        &&& bit(t.color_bb[0], sq) == (bit(st.color_bb[0], sq) != (side == 0 && sq == off))
        &&& bit(t.color_bb[1], sq) == (bit(st.color_bb[1], sq) != (side == 1 && sq == off))
    } by {
        lemma_mask_bit(off, sq as nat);
        assert forall|i: int| 0 <= i < 12 implies #[trigger] bit(t.piece_bb[i], sq) == (bit(st.piece_bb[i], sq) != (i == idx
            && sq == off)) by {
            lemma_toggle_bit(st.piece_bb, idx, m, i, sq as nat);
        }
        lemma_toggle_bit(st.color_bb, side as int, m, 0, sq as nat);
        lemma_toggle_bit(st.color_bb, side as int, m, 1, sq as nat);
    }
    let q = placed(t);
    let q0 = placed(st);
    assert forall|sq: int, i: int| 0 <= sq < 64 && 0 <= i < 12 implies #[trigger] bit(q.piece_bb[i], sq) == (q.piece[sq]
        != Piece::Empty && i == q.piece[sq].idx() + 6 * colour_at(q, sq)) by {
        if sq != off {
            assert(bit(q0.piece_bb[i], sq) == (q0.piece[sq] != Piece::Empty && i == q0.piece[sq].idx() + 6 * colour_at(q0, sq)));
        }
    }
    assert forall|sq: int| 0 <= sq < 64 implies #[trigger] bit(q.color_bb[0], sq) == (q.piece[sq] != Piece::Empty && !bit(
        q.color_bb[1],
        sq,
    )) by {
        if sq != off {
            assert(bit(q0.color_bb[0], sq) == (q0.piece[sq] != Piece::Empty && !bit(q0.color_bb[1], sq)));
        }
    }
    assert forall|sq: int| 0 <= sq < 64 implies (#[trigger] bit(q.color_bb[1], sq) ==> q.piece[sq] != Piece::Empty) by {
        if sq != off {
            assert(bit(q0.color_bb[1], sq) ==> q0.piece[sq] != Piece::Empty);
        }
    }
}

proof fn lemma_place_chars(st: Placement, off: nat, r: Seq<u8>, e: nat)
    requires
        consistent(placed(st)),
        off + rank_width(r) <= e,
        e <= 64,
        forall|sq: int| off <= sq < e ==> #[trigger] empty_at(st, sq),
    ensures
        place_chars(st, off, r) matches Some(Ok(st2)) ==> {
            &&& consistent(placed(st2))
            &&& forall|sq: int| 0 <= sq < off && #[trigger] empty_at(st, sq) ==> empty_at(st2, sq)
        },
    decreases r.len(),
{
    if r.len() > 0 {
        if is_digit(r[0]) {
            let o2 = (off + r[0] - 48) as nat;
            if o2 <= 255 {
                lemma_place_chars(st, o2, r.drop_first(), e);
            }
        } else {
            match fen_piece(r[0]) {
                None => {},
                Some(p) => {
                    if off < 64 {
                        let t = put_piece(st, p, fen_side(r[0]), off);
                        assert(empty_at(st, off as int));
                        lemma_put_piece(st, p, fen_side(r[0]), off);
                        assert forall|sq: int| off + 1 <= sq < e implies #[trigger] empty_at(t, sq) by {
                            assert(empty_at(st, sq));
                        }
                        lemma_place_chars(t, off + 1, r.drop_first(), e);
                        match place_chars(t, off + 1, r.drop_first()) {
                            Some(Ok(st2)) => {
                                assert forall|sq: int| 0 <= sq < off && #[trigger] empty_at(st, sq) implies empty_at(st2, sq) by {
                                    assert(empty_at(t, sq));
                                }
                            },
                            _ => {},
                        }
                    }
                },
            }
        }
    }
}

proof fn lemma_place_ranks(st: Placement, ranks: Seq<Seq<u8>>, n: nat)
    requires
        consistent(placed(st)),
        forall|i: int| 0 <= i < ranks.len() ==> #[trigger] rank_width(ranks[i]) <= 8,
        n <= 8,
        forall|sq: int| 0 <= sq < (8 - n) * 8 ==> #[trigger] empty_at(st, sq),
    ensures
        place_ranks(st, ranks, n) matches Some(Ok((pl, k))) ==> consistent(placed(pl)),
    decreases ranks.len(),
{
    if ranks.len() > 0 && n <= 7 {
        let off = ((7 - n) * 8) as nat;
        assert(rank_width(ranks[0]) <= 8);
        lemma_place_chars(st, off, ranks[0], ((8 - n) * 8) as nat);
        match place_chars(st, off, ranks[0]) {
            Some(Ok(st2)) => {
                assert forall|i: int| 0 <= i < ranks.drop_first().len() implies #[trigger] rank_width(ranks.drop_first()[i]) <= 8 by {
                    assert(rank_width(ranks[i + 1]) <= 8);
                }
                assert forall|sq: int| 0 <= sq < (8 - (n + 1)) * 8 implies #[trigger] empty_at(st2, sq) by {
                    assert(empty_at(st, sq));
                }
                lemma_place_ranks(st2, ranks.drop_first(), n + 1);
            },
            _ => {},
        }
    }
}

/// A position read from FEN text whose ranks each cover at most eight
/// squares has its boards and piece array in step.
pub proof fn law_fen_consistent(b: Seq<u8>)
    requires
        ranks_fit(split(b, 32)[0]),
    ensures
        fen_spec(b) matches Some(Ok(p)) ==> consistent(p),
{
    let st = empty_placement();
    assert forall|sq: int| 0 <= sq < 64 implies #[trigger] empty_at(st, sq) by {
        lemma_bits_flip(0, 0, sq as u64);
        assert(!bit(0u64, sq));
    }
    let q = placed(st);
    assert forall|sq: int, i: int| 0 <= sq < 64 && 0 <= i < 12 implies #[trigger] bit(q.piece_bb[i], sq) == (q.piece[sq]
        != Piece::Empty && i == q.piece[sq].idx() + 6 * colour_at(q, sq)) by {
        assert(empty_at(st, sq));
    }
    assert forall|sq: int| 0 <= sq < 64 implies #[trigger] bit(q.color_bb[0], sq) == (q.piece[sq] != Piece::Empty && !bit(
        q.color_bb[1],
        sq,
    )) by {
        assert(empty_at(st, sq));
    }
    assert forall|sq: int| 0 <= sq < 64 implies (#[trigger] bit(q.color_bb[1], sq) ==> q.piece[sq] != Piece::Empty) by {
        assert(empty_at(st, sq));
    }
    assert(consistent(q));
    let ranks = split(split(b, 32)[0], 47);
    lemma_place_ranks(st, ranks, 0);
    match place_ranks(st, ranks, 0) {
        Some(Ok((pl, k))) => {
            assert(consistent(placed(pl)));
        },
        _ => {},
    }
}

} // verus!
