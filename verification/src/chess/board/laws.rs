use vstd::prelude::*;
use crate::chess::constants::{Piece, castle_rook_squares};
use crate::chess::chess_move::Move;
use crate::chess::board::{Board, Position};
use crate::chess::board::bitboard::{Bitboard, lsb_num, en_passant_rm_spec, lemma_lsb_single};
use crate::chess::board::hash::{ZobristTable, Keys};
use crate::chess::board::make_move::{
    apply_move, revert_move, undo_of, move_shape_ok, toggle, sq_mask, promo_piece, sp_base,
    sp_capture, sp_clear_ep, sp_flags, sp_finish, rv_base, rv_flags, rv_finish,
};

verus! {

/// A position's own bookkeeping is sound: a side to move, twelve piece
/// boards, two colour boards whose union is the occupied board, 64 squares.
pub open spec fn pos_wf(p: Position) -> bool {
    &&& p.turn.is_side()
    &&& p.piece_bb.len() == 12
    &&& p.color_bb.len() == 2
    &&& p.piece.len() == 64
    &&& p.occupied == p.color_bb[0] | p.color_bb[1]
}

/// The square of the pawn an en passant capture landing on `to` removes.
pub open spec fn ep_victim(to: nat) -> nat {
    if 40 <= to < 48 { (to - 8) as nat } else { (to + 8) as nat }
}

/// `m` has the shape of a move of the side to move in `p`: a piece stands on
/// its from-square, it goes somewhere else, a promotion moves a pawn, an en
/// passant capture takes a pawn on the square behind its landing square, and
/// castling moves a rook from its corner to an empty square.
pub open spec fn move_fits(p: Position, m: Move) -> bool {
    let from = m.from_num();
    let to = m.to_num();
    let flags = m.flag_bits();
    let moved = p.piece[from as int];
    let side = p.turn.idx();
    &&& move_shape_ok(p, m)
    &&& from != to
    &&& moved != Piece::Empty
    &&& flags >= 8 ==> moved == Piece::Pawn
    &&& flags == 5 ==> p.piece[ep_victim(to) as int] == Piece::Pawn && ep_victim(to) != from
    &&& (flags == 2 || flags == 3) ==> {
        let (rd, ra) = castle_rook_squares(side, flags == 3);
        &&& rd != from && rd != to && ra != from && ra != to
        &&& p.piece[rd as int] == Piece::Rook
        &&& p.piece[ra as int] == Piece::Empty
    }
}

/// The promotion bit of a move's flags is set exactly for the flags 8 to 15.
pub proof fn lemma_flag_eight(flags: u16)
    by (bit_vector)
    ensures
        flags < 8 ==> flags & 8 == 0,
        8 <= flags < 16 ==> flags & 8 != 0,
{
}

/// `a` when `e` holds, nothing otherwise.
pub open spec fn cx(e: bool, a: u64) -> u64 {
    if e { a } else { 0u64 }
}

pub proof fn lemma_xor_pairs(x: u64, a: u64, b: u64, c: u64, d: u64, e1: bool, e2: bool, e3: bool, e4: bool)
    requires
        e1 == e3,
        e2 == e4,
        a == c,
        b == d,
    ensures
        x ^ cx(e1, a) ^ cx(e2, b) ^ cx(e3, c)
            ^ cx(e4, d) == x,
{
    assert(e1 == e3 && e2 == e4 && a == c && b == d ==>
        x ^ cx(e1, a) ^ cx(e2, b) ^ cx(e3, c)
            ^ cx(e4, d) == x) by (bit_vector);
}

pub proof fn lemma_xor_twice(x: u64, a: u64, e: bool)
    ensures
        x ^ cx(e, a) ^ cx(e, a) == x,
{
    assert(x ^ cx(e, a) ^ cx(e, a) == x) by (bit_vector);
}

pub proof fn lemma_xor_promo_nocap(x: u64, fb: u64, tb: u64, e_off: bool, e_pro: bool)
    ensures
        x ^ cx(e_off, fb ^ tb) ^ cx(e_pro, tb) ^ cx(e_off, tb) ^ cx(e_pro, fb ^ tb) ^ cx(e_pro, fb) ^ cx(e_off, fb) == x,
{
    assert(x ^ cx(e_off, fb ^ tb) ^ cx(e_pro, tb) ^ cx(e_off, tb) ^ cx(e_pro, fb ^ tb) ^ cx(e_pro, fb) ^ cx(e_off, fb) == x) by (bit_vector);
}

pub proof fn lemma_toggle_at(s: Seq<u64>, i: int, a: u64, j: int)
    requires
        0 <= i < s.len(),
        0 <= j < s.len(),
    ensures
        toggle(s, i, a)[j] == s[j] ^ cx(j == i, a),
        toggle(s, i, a).len() == s.len(),
{
    crate::chess::board::bitboard::lemma_zero_or(s[j]);
}

pub proof fn lemma_xor_triples(x: u64, a: u64, b: u64, c: u64, e1: bool, e2: bool, e3: bool)
    ensures
        x ^ cx(e1, a) ^ cx(e2, b) ^ cx(e3, c)
            ^ cx(e1, a) ^ cx(e2, b) ^ cx(e3, c) == x,
{
    assert(x ^ cx(e1, a) ^ cx(e2, b) ^ cx(e3, c)
            ^ cx(e1, a) ^ cx(e2, b) ^ cx(e3, c) == x) by (bit_vector);
}

pub proof fn lemma_xor_promo(x: u64, fb: u64, tb: u64, e_off: bool, e_cap: bool, e_pro: bool)
    ensures
        x ^ cx(e_off, fb ^ tb) ^ cx(e_cap, tb)
            ^ cx(e_pro, tb) ^ cx(e_off, tb)
            ^ cx(e_pro, fb ^ tb) ^ cx(e_cap, tb)
            ^ cx(e_pro, fb) ^ cx(e_off, fb) == x,
{
    assert(x ^ cx(e_off, fb ^ tb) ^ cx(e_cap, tb)
            ^ cx(e_pro, tb) ^ cx(e_off, tb)
            ^ cx(e_pro, fb ^ tb) ^ cx(e_cap, tb)
            ^ cx(e_pro, fb) ^ cx(e_off, fb) == x) by (bit_vector);
}

/// The piece boards after `m` is played in `p`.
pub open spec fn bb_after(p: Position, m: Move) -> Seq<u64> {
    let side = p.turn.idx();
    let off = side * 6;
    let ooff = ((1 - side) * 6) as nat;
    let from = m.from_num();
    let to = m.to_num();
    let flags = m.flag_bits();
    let moved = p.piece[from as int];
    let cap = p.piece[to as int];
    let tb = sq_mask(to);
    let b0 = toggle(p.piece_bb, (moved.idx() + off) as int, sq_mask(from) ^ tb);
    let b1 = if cap != Piece::Empty { toggle(b0, (cap.idx() + ooff) as int, tb) } else { b0 };
    if flags > 5 {
        toggle(toggle(b1, (promo_piece(flags).idx() + off) as int, tb), off as int, tb)
    } else if flags == 5 {
        toggle(b1, ooff as int, en_passant_rm_spec(to))
    } else if flags == 2 || flags == 3 {
        let (rd, ra) = castle_rook_squares(side, flags == 3);
        toggle(b1, (off + 3) as int, sq_mask(rd) ^ sq_mask(ra))
    } else {
        b1
    }
}

/// The colour boards after `m` is played in `p`.
pub open spec fn color_after(p: Position, m: Move) -> Seq<u64> {
    let side = p.turn.idx();
    let opp = (1 - side) as nat;
    let from = m.from_num();
    let to = m.to_num();
    let flags = m.flag_bits();
    let cap = p.piece[to as int];
    let tb = sq_mask(to);
    let k0 = toggle(p.color_bb, side as int, sq_mask(from) ^ tb);
    let k1 = if cap != Piece::Empty { toggle(k0, opp as int, tb) } else { k0 };
    if flags > 5 {
        k1
    } else if flags == 5 {
        toggle(k1, opp as int, en_passant_rm_spec(to))
    } else if flags == 2 || flags == 3 {
        let (rd, ra) = castle_rook_squares(side, flags == 3);
        toggle(k1, side as int, sq_mask(rd) ^ sq_mask(ra))
    } else {
        k1
    }
}

/// The squares after `m` is played in `p`.
pub open spec fn piece_after(p: Position, m: Move) -> Seq<Piece> {
    let side = p.turn.idx();
    let from = m.from_num();
    let to = m.to_num();
    let flags = m.flag_bits();
    let moved = p.piece[from as int];
    let s0 = p.piece.update(from as int, Piece::Empty).update(to as int, moved);
    if flags > 5 {
        s0.update(to as int, promo_piece(flags))
    } else if flags == 5 {
        s0.update(lsb_num(en_passant_rm_spec(to)) as int, Piece::Empty)
    } else if flags == 2 || flags == 3 {
        let (rd, ra) = castle_rook_squares(side, flags == 3);
        s0.update(ra as int, Piece::Rook).update(rd as int, Piece::Empty)
    } else {
        s0
    }
}

pub proof fn lemma_apply_parts(p: Position, z: Keys, m: Move, eval: bool)
    requires
        pos_wf(p),
    ensures
        apply_move(p, z, m, eval).piece_bb == bb_after(p, m),
        apply_move(p, z, m, eval).color_bb == color_after(p, m),
        apply_move(p, z, m, eval).piece == piece_after(p, m),
        apply_move(p, z, m, eval).turn == p.turn.other(),
        apply_move(p, z, m, eval).fullmoves == p.fullmoves,
{
    reveal(sp_base);
    reveal(sp_capture);
    reveal(sp_clear_ep);
    reveal(sp_flags);
    reveal(sp_finish);
}

pub proof fn lemma_bb_plain(p: Position, m: Move)
    requires
        pos_wf(p),
        move_fits(p, m),
        m.flag_bits() <= 4,
        m.flag_bits() != 2,
        m.flag_bits() != 3,
    ensures
        rv_bb(bb_after(p, m), p.piece[m.from_num() as int], p, m) == p.piece_bb,
        bb_after(p, m).len() == 12,
{
    m.lemma_parts();
    let side = p.turn.idx();
    let off = side * 6;
    let ooff = ((1 - side) * 6) as nat;
    let from = m.from_num();
    let to = m.to_num();
    let moved = p.piece[from as int];
    let cap = p.piece[to as int];
    let fb = sq_mask(from);
    let tb = sq_mask(to);
    let mv = fb ^ tb;
    let mi = (moved.idx() + off) as int;
    let ci = (cap.idx() + ooff) as int;
    let b0 = toggle(p.piece_bb, mi, mv);
    let b1 = if cap != Piece::Empty { toggle(b0, ci, tb) } else { b0 };
    let c0 = toggle(b1, mi, mv);
    let c1 = if cap != Piece::Empty { toggle(c0, ci, tb) } else { c0 };
    let flags = m.flag_bits();
    lemma_flag_eight(flags);
    assert(bb_after(p, m) == b1);
    assert(rv_bb(b1, moved, p, m) == c1);
    assert forall|j: int| 0 <= j < 12 implies c1[j] == p.piece_bb[j] by {
        lemma_toggle_at(p.piece_bb, mi, mv, j);
        if cap != Piece::Empty {
            lemma_toggle_at(b0, ci, tb, j);
        }
        lemma_toggle_at(b1, mi, mv, j);
        if cap != Piece::Empty {
            lemma_toggle_at(c0, ci, tb, j);
        }
        if cap != Piece::Empty {
            lemma_xor_pairs(p.piece_bb[j], mv, tb, mv, tb, j == mi, j == ci, j == mi, j == ci);
        } else {
            lemma_xor_twice(p.piece_bb[j], mv, j == mi);
        }
    }
    assert(c1 =~= p.piece_bb);
}

/// The piece boards after move `m` of the side to move in `p` is taken back
/// from boards `b`, when the piece standing on the landing square is `pm`.
pub open spec fn rv_bb(b: Seq<u64>, pm: Piece, p: Position, m: Move) -> Seq<u64> {
    let side = p.turn.idx();
    let off = side * 6;
    let ooff = ((1 - side) * 6) as nat;
    let from = m.from_num();
    let to = m.to_num();
    let flags = m.flag_bits();
    let cap = p.piece[to as int];
    let fb = sq_mask(from);
    let tb = sq_mask(to);
    let c0 = toggle(b, (pm.idx() + off) as int, fb ^ tb);
    let c1 = if cap != Piece::Empty { toggle(c0, (cap.idx() + ooff) as int, tb) } else { c0 };
    if flags & 8 != 0 {
        toggle(toggle(c1, (promo_piece(flags).idx() + off) as int, fb), off as int, fb)
    } else if flags == 5 {
        toggle(c1, ooff as int, en_passant_rm_spec(to))
    } else if flags == 2 || flags == 3 {
        let (rd, ra) = castle_rook_squares(side, flags == 3);
        toggle(c1, (off + 3) as int, sq_mask(rd) ^ sq_mask(ra))
    } else {
        c1
    }
}

/// The piece boards come back after a move with an extra toggle of board
/// `xi` by `xm` (en passant or castling) is taken back.
pub proof fn lemma_bb_extra(p: Position, m: Move, xi: int, xm: u64)
    requires
        pos_wf(p),
        move_fits(p, m),
        0 <= xi < 12,
        ({
            let to = m.to_num();
            let side = p.turn.idx();
            let cap = p.piece[to as int];
            let tb = sq_mask(to);
            let b0 = toggle(p.piece_bb, (p.piece[m.from_num() as int].idx() + side * 6) as int, sq_mask(m.from_num()) ^ tb);
            let b1 = if cap != Piece::Empty { toggle(b0, (cap.idx() + (1 - side) * 6) as int, tb) } else { b0 };
            &&& bb_after(p, m) == toggle(b1, xi, xm)
            &&& rv_bb(bb_after(p, m), p.piece[m.from_num() as int], p, m) == toggle(
                if cap != Piece::Empty {
                    toggle(toggle(bb_after(p, m), (p.piece[m.from_num() as int].idx() + side * 6) as int, sq_mask(m.from_num()) ^ tb), (cap.idx() + (1 - side) * 6) as int, tb)
                } else {
                    toggle(bb_after(p, m), (p.piece[m.from_num() as int].idx() + side * 6) as int, sq_mask(m.from_num()) ^ tb)
                },
                xi,
                xm,
            )
        }),
    ensures
        rv_bb(bb_after(p, m), p.piece[m.from_num() as int], p, m) == p.piece_bb,
{
    m.lemma_parts();
    let side = p.turn.idx();
    let off = side * 6;
    let ooff = ((1 - side) * 6) as nat;
    let from = m.from_num();
    let to = m.to_num();
    let moved = p.piece[from as int];
    let cap = p.piece[to as int];
    let fb = sq_mask(from);
    let tb = sq_mask(to);
    let mv = fb ^ tb;
    let mi = (moved.idx() + off) as int;
    let ci = (cap.idx() + ooff) as int;
    let b0 = toggle(p.piece_bb, mi, mv);
    let b1 = if cap != Piece::Empty { toggle(b0, ci, tb) } else { b0 };
    let b2 = toggle(b1, xi, xm);
    let c0 = toggle(b2, mi, mv);
    let c1 = if cap != Piece::Empty { toggle(c0, ci, tb) } else { c0 };
    let c2 = toggle(c1, xi, xm);
    assert forall|j: int| 0 <= j < 12 implies c2[j] == p.piece_bb[j] by {
        lemma_toggle_at(p.piece_bb, mi, mv, j);
        if cap != Piece::Empty {
            lemma_toggle_at(b0, ci, tb, j);
        }
        lemma_toggle_at(b1, xi, xm, j);
        lemma_toggle_at(b2, mi, mv, j);
        if cap != Piece::Empty {
            lemma_toggle_at(c0, ci, tb, j);
        }
        lemma_toggle_at(c1, xi, xm, j);
        if cap != Piece::Empty {
            lemma_xor_triples(p.piece_bb[j], mv, tb, xm, j == mi, j == ci, j == xi);
        } else {
            lemma_xor_pairs(p.piece_bb[j], mv, xm, mv, xm, j == mi, j == xi, j == mi, j == xi);
        }
    }
    assert(c2 =~= p.piece_bb);
}

/// The piece boards come back after a promotion is taken back.
pub proof fn lemma_bb_promo(p: Position, m: Move)
    requires
        pos_wf(p),
        move_fits(p, m),
        m.flag_bits() >= 8,
    ensures
        rv_bb(bb_after(p, m), promo_piece(m.flag_bits()), p, m) == p.piece_bb,
{
    m.lemma_parts();
    let side = p.turn.idx();
    let off = side * 6;
    let ooff = ((1 - side) * 6) as nat;
    let from = m.from_num();
    let to = m.to_num();
    let flags = m.flag_bits();
    let cap = p.piece[to as int];
    let fb = sq_mask(from);
    let tb = sq_mask(to);
    let mv = fb ^ tb;
    let mi = off as int;
    let ci = (cap.idx() + ooff) as int;
    let pi = (promo_piece(flags).idx() + off) as int;
    lemma_flag_eight(flags);
    let b0 = toggle(p.piece_bb, mi, mv);
    let b1 = if cap != Piece::Empty { toggle(b0, ci, tb) } else { b0 };
    let b2 = toggle(b1, pi, tb);
    let b3 = toggle(b2, off as int, tb);
    let c0 = toggle(b3, pi, mv);
    let c1 = if cap != Piece::Empty { toggle(c0, ci, tb) } else { c0 };
    let c2 = toggle(c1, pi, fb);
    let c3 = toggle(c2, off as int, fb);
    assert(bb_after(p, m) == b3);
    assert(rv_bb(b3, promo_piece(flags), p, m) == c3);
    assert forall|j: int| 0 <= j < 12 implies c3[j] == p.piece_bb[j] by {
        lemma_toggle_at(p.piece_bb, mi, mv, j);
        if cap != Piece::Empty {
            lemma_toggle_at(b0, ci, tb, j);
        }
        lemma_toggle_at(b1, pi, tb, j);
        lemma_toggle_at(b2, off as int, tb, j);
        lemma_toggle_at(b3, pi, mv, j);
        if cap != Piece::Empty {
            lemma_toggle_at(c0, ci, tb, j);
        }
        lemma_toggle_at(c1, pi, fb, j);
        lemma_toggle_at(c2, off as int, fb, j);
        if cap != Piece::Empty {
            lemma_xor_promo(p.piece_bb[j], fb, tb, j == off, j == ci, j == pi);
        } else {
            lemma_xor_promo_nocap(p.piece_bb[j], fb, tb, j == off, j == pi);
        }
    }
    assert(c3 =~= p.piece_bb);
}

/// The colour boards after move `m` of the side to move in `p` is taken back from `k`.
pub open spec fn rv_color(k: Seq<u64>, p: Position, m: Move) -> Seq<u64> {
    let side = p.turn.idx();
    let opp = (1 - side) as nat;
    let from = m.from_num();
    let to = m.to_num();
    let flags = m.flag_bits();
    let cap = p.piece[to as int];
    let tb = sq_mask(to);
    let c0 = toggle(k, side as int, sq_mask(from) ^ tb);
    let c1 = if cap != Piece::Empty { toggle(c0, opp as int, tb) } else { c0 };
    if flags & 8 != 0 {
        c1
    } else if flags == 5 {
        toggle(c1, opp as int, en_passant_rm_spec(to))
    } else if flags == 2 || flags == 3 {
        let (rd, ra) = castle_rook_squares(side, flags == 3);
        toggle(c1, side as int, sq_mask(rd) ^ sq_mask(ra))
    } else {
        c1
    }
}

/// The colour boards come back when a move is taken back.
pub proof fn lemma_color_roundtrip(p: Position, m: Move)
    requires
        pos_wf(p),
        move_fits(p, m),
    ensures
        rv_color(color_after(p, m), p, m) == p.color_bb,
{
    m.lemma_parts();
    let side = p.turn.idx();
    let opp = (1 - side) as nat;
    let from = m.from_num();
    let to = m.to_num();
    let flags = m.flag_bits();
    let cap = p.piece[to as int];
    let tb = sq_mask(to);
    let mv = sq_mask(from) ^ tb;
    let si = side as int;
    let oi = opp as int;
    lemma_flag_eight(flags);
    let (xi, xm) = if flags == 5 {
        (oi, en_passant_rm_spec(to))
    } else if flags == 2 || flags == 3 {
        let (rd, ra) = castle_rook_squares(side, flags == 3);
        (si, sq_mask(rd) ^ sq_mask(ra))
    } else {
        (si, 0u64)
    };
    let extra = flags == 5 || flags == 2 || flags == 3;
    let k0 = toggle(p.color_bb, si, mv);
    let k1 = if cap != Piece::Empty { toggle(k0, oi, tb) } else { k0 };
    let k2 = if extra { toggle(k1, xi, xm) } else { k1 };
    let c0 = toggle(k2, si, mv);
    let c1 = if cap != Piece::Empty { toggle(c0, oi, tb) } else { c0 };
    let c2 = if extra { toggle(c1, xi, xm) } else { c1 };
    assert(color_after(p, m) == k2);
    assert(rv_color(k2, p, m) == c2);
    assert forall|j: int| 0 <= j < 2 implies c2[j] == p.color_bb[j] by {
        lemma_toggle_at(p.color_bb, si, mv, j);
        if cap != Piece::Empty {
            lemma_toggle_at(k0, oi, tb, j);
        }
        if extra {
            lemma_toggle_at(k1, xi, xm, j);
        }
        lemma_toggle_at(k2, si, mv, j);
        if cap != Piece::Empty {
            lemma_toggle_at(c0, oi, tb, j);
        }
        if extra {
            lemma_toggle_at(c1, xi, xm, j);
        }
        let x = p.color_bb[j];
        if cap != Piece::Empty && extra {
            lemma_xor_triples(x, mv, tb, xm, j == si, j == oi, j == xi);
        } else if cap != Piece::Empty {
            lemma_xor_pairs(x, mv, tb, mv, tb, j == si, j == oi, j == si, j == oi);
        } else if extra {
            lemma_xor_pairs(x, mv, xm, mv, xm, j == si, j == xi, j == si, j == xi);
        } else {
            lemma_xor_twice(x, mv, j == si);
        }
    }
    assert(c2 =~= p.color_bb);
}

/// The squares after move `m` of the side to move in `p` is taken back from `q`.
pub open spec fn rv_piece(q: Seq<Piece>, p: Position, m: Move) -> Seq<Piece> {
    let side = p.turn.idx();
    let from = m.from_num();
    let to = m.to_num();
    let flags = m.flag_bits();
    let cap = p.piece[to as int];
    let s0 = q.update(from as int, q[to as int]).update(to as int, Piece::Empty);
    let s1 = if cap != Piece::Empty { s0.update(to as int, cap) } else { s0 };
    if flags & 8 != 0 {
        s1.update(from as int, Piece::Pawn)
    } else if flags == 5 {
        s1.update(lsb_num(en_passant_rm_spec(to)) as int, Piece::Pawn)
    } else if flags == 2 || flags == 3 {
        let (rd, ra) = castle_rook_squares(side, flags == 3);
        s1.update(ra as int, Piece::Empty).update(rd as int, Piece::Rook)
    } else {
        s1
    }
}

/// The squares come back when a move is taken back.
pub proof fn lemma_piece_roundtrip(p: Position, m: Move)
    requires
        pos_wf(p),
        move_fits(p, m),
    ensures
        rv_piece(piece_after(p, m), p, m) == p.piece,
{
    m.lemma_parts();
    let flags = m.flag_bits();
    let to = m.to_num();
    lemma_flag_eight(flags);
    if flags == 5 {
        let t = to as u64;
        if 16 <= to < 24 {
            lemma_lsb_single((t + 8) as u64);
        } else {
            lemma_lsb_single((t - 8) as u64);
        }
        assert(lsb_num(en_passant_rm_spec(to)) == ep_victim(to));
    }
    assert(rv_piece(piece_after(p, m), p, m) =~= p.piece);
}

/// Taking a move back restores the position it was played in: for a move of
/// the right shape, reverting the position after the move with the undo
/// record saved for it gives back the position before it, field for field
/// (pieces, boards, side to move, castling, en passant, clocks, hash and
/// evaluation).
pub proof fn law_unmake_restores(p: Position, z: Keys, m: Move, eval: bool)
    requires
        pos_wf(p),
        move_fits(p, m),
    ensures
        revert_move(apply_move(p, z, m, eval), p.turn.idx(), m, undo_of(p, m)) == p,
{
    m.lemma_parts();
    lemma_apply_parts(p, z, m, eval);
    let side = p.turn.idx();
    let off = side * 6;
    let ooff = ((1 - side) * 6) as nat;
    let from = m.from_num();
    let to = m.to_num();
    let flags = m.flag_bits();
    let moved = p.piece[from as int];
    let u = undo_of(p, m);
    let q = apply_move(p, z, m, eval);
    let r = revert_move(q, side, m, u);
    lemma_flag_eight(flags);
    if flags == 5 {
        let t = to as u64;
        if 16 <= to < 24 {
            lemma_lsb_single((t + 8) as u64);
        } else {
            lemma_lsb_single((t - 8) as u64);
        }
        assert(lsb_num(en_passant_rm_spec(to)) == ep_victim(to));
    }
    let pm = q.piece[to as int];
    assert(pm == (if flags > 5 { promo_piece(flags) } else { moved }));
    assert(r.piece_bb == rv_bb(q.piece_bb, pm, p, m));
    if flags >= 8 {
        lemma_bb_promo(p, m);
    } else if flags == 5 {
        lemma_bb_extra(p, m, ooff as int, en_passant_rm_spec(to));
    } else if flags == 2 || flags == 3 {
        let (rd, ra) = castle_rook_squares(side, flags == 3);
        lemma_bb_extra(p, m, (off + 3) as int, sq_mask(rd) ^ sq_mask(ra));
    } else {
        lemma_bb_plain(p, m);
    }
    assert(r.color_bb == rv_color(q.color_bb, p, m));
    lemma_color_roundtrip(p, m);
    assert(r.piece == rv_piece(q.piece, p, m));
    lemma_piece_roundtrip(p, m);
    assert(r.turn == p.turn);
}

/// The position after playing the moves `ms` one after another from `p`.
pub open spec fn played_all(p: Position, z: Keys, ms: Seq<Move>, eval: bool) -> Position
    decreases ms.len(),
{
    if ms.len() == 0 {
        p
    } else {
        played_all(apply_move(p, z, ms[0], eval), z, ms.drop_first(), eval)
    }
}

/// Each move of `ms` fits the sound position it is played in, from `p` on.
pub open spec fn all_fit(p: Position, z: Keys, ms: Seq<Move>, eval: bool) -> bool
    decreases ms.len(),
{
    ms.len() == 0 || (pos_wf(p) && move_fits(p, ms[0]) && all_fit(apply_move(p, z, ms[0], eval), z, ms.drop_first(), eval))
}

/// Taking back the moves `ms`, played from `p`, from position `q`, the last
/// move first: each with the side that played it and the record that playing
/// it kept.
pub open spec fn taken_back_all(q: Position, p: Position, z: Keys, ms: Seq<Move>, eval: bool) -> Position
    decreases ms.len(),
{
    if ms.len() == 0 {
        q
    } else {
        revert_move(
            taken_back_all(q, apply_move(p, z, ms[0], eval), z, ms.drop_first(), eval),
            p.turn.idx(),
            ms[0],
            undo_of(p, ms[0]),
        )
    }
}

/// Moves taken back in the reverse order of playing restore the position:
/// after playing `ms` from `p` and taking them back last first, the position
/// is `p` again.
pub proof fn law_unmake_in_reverse_order(p: Position, z: Keys, ms: Seq<Move>, eval: bool)
    requires
        all_fit(p, z, ms, eval),
    ensures
        taken_back_all(played_all(p, z, ms, eval), p, z, ms, eval) == p,
    decreases ms.len(),
{
    if ms.len() > 0 {
        let p1 = apply_move(p, z, ms[0], eval);
        law_unmake_in_reverse_order(p1, z, ms.drop_first(), eval);
        law_unmake_restores(p, z, ms[0], eval);
    }
}

} // verus!
