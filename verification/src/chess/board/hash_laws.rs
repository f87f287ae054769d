use vstd::prelude::*;
use vstd::std_specs::bits::{u64_trailing_zeros, axiom_u64_trailing_zeros};
use crate::chess::constants::{Piece, Color, castle_rook_squares};
use crate::chess::chess_move::Move;
use crate::chess::board::Position;
use crate::chess::board::bitboard::{bit, lsb_num, drop_lsb, bits_asc, lemma_lsb_facts, lemma_lsb_single, lemma_drop_lsb_smaller, en_passant_rm_spec};
use crate::chess::board::hash::Keys;
use crate::chess::board::make_move::{
    apply_move, sq_mask, toggle, keys_xor, pieces_xor, hash_spec, ep_key, promo_piece, move_shape_ok,
    sp_base, sp_capture, sp_clear_ep, sp_flags, sp_finish,
};
use crate::chess::board::laws::{pos_wf, all_fit, played_all, taken_back_all, law_unmake_in_reverse_order};

verus! {

/// The identities of exclusive or that the hash bookkeeping rests on.
pub proof fn lemma_xor_identities(p: u64, c: u64, e: u64, s: u64, a: u64)
    by (bit_vector)
    ensures
        (((p ^ c) ^ e) ^ s) ^ c == p ^ (e ^ s),
        (p ^ (e ^ s)) ^ a == (p ^ a) ^ (e ^ s),
        (p ^ (e ^ s)) ^ e == p ^ (0u64 ^ s),
        (p ^ (0u64 ^ s)) ^ a == p ^ (a ^ s),
        ((p ^ (e ^ 0u64)) ^ s) ^ c == ((p ^ c) ^ e) ^ s,
        ((p ^ (e ^ s)) ^ s) ^ c == ((p ^ c) ^ e) ^ 0u64,
        (p ^ c) ^ a == (p ^ a) ^ c,
        ((p ^ (0u64 ^ s)) ^ a) ^ e == ((p ^ a) ^ e) ^ (0u64 ^ s),
        (p ^ c) ^ c == p,
        p ^ (c ^ a) == (p ^ c) ^ a,
        p ^ 0u64 == p,
        0u64 ^ p == p,
        p ^ p == 0u64,
{
}

pub proof fn lemma_bits_flip(b: u64, s: u64, k: u64)
    by (bit_vector)
    requires
        s < 64,
        k < 64,
    ensures
        k != s ==> ((b ^ (1u64 << s)) >> k) & 1u64 == (b >> k) & 1u64,
        k == s ==> ((((b ^ (1u64 << s)) >> k) & 1u64 == 1u64) <==> !((b >> k) & 1u64 == 1u64)),
        (0u64 >> k) & 1u64 == 0u64,
{
}

pub proof fn lemma_drop_lsb_flip(x: u64)
    requires
        x != 0,
    ensures
        drop_lsb(x) == x ^ sq_mask(lsb_num(x)),
{
    axiom_u64_trailing_zeros(x);
    let t = u64_trailing_zeros(x) as u64;
    assert(t < 64 && (x >> t) & 1u64 == 1u64 && x << ((64 - t) as u64) == 0
        ==> x & ((x - 1u64) as u64) == x ^ (1u64 << t)) by (bit_vector);
}

/// The xor of the keys of piece index `idx` on those squares below `n` that `b` holds.
pub open spec fn sq_keys(z: Keys, idx: nat, b: u64, n: nat) -> u64
    decreases n,
{
    if n == 0 {
        0
    } else {
        sq_keys(z, idx, b, (n - 1) as nat) ^ (if bit(b, n - 1) { z.piece_key(idx, (n - 1) as nat) } else { 0u64 })
    }
}

proof fn lemma_sq_keys_flip(z: Keys, idx: nat, b: u64, s: nat, n: nat)
    requires
        s < 64,
        n <= 64,
    ensures
        sq_keys(z, idx, b ^ sq_mask(s), n) == sq_keys(z, idx, b, n) ^ (if s < n { z.piece_key(idx, s) } else { 0u64 }),
    decreases n,
{
    if n > 0 {
        let k = (n - 1) as nat;
        lemma_sq_keys_flip(z, idx, b, s, k);
        lemma_bits_flip(b, s as u64, k as u64);
        let a = sq_keys(z, idx, b, k);
        let key = z.piece_key(idx, k);
        let d = if s < k { z.piece_key(idx, s) } else { 0u64 };
        let t_old = if bit(b, k as int) { key } else { 0u64 };
        let t_new = if bit(b ^ sq_mask(s), k as int) { key } else { 0u64 };
        assert(bit(b, k as int) == ((b >> (k as u64)) & 1u64 == 1u64));
        assert(bit(b ^ sq_mask(s), k as int) == (((b ^ (1u64 << (s as u64))) >> (k as u64)) & 1u64 == 1u64));
        assert(sq_keys(z, idx, b ^ sq_mask(s), n) == (a ^ d) ^ t_new);
        assert(sq_keys(z, idx, b, n) == a ^ t_old);
        if k != s {
            assert(t_new == t_old);
            lemma_xor_identities(a, d, 0, 0, t_old);
        } else {
            lemma_xor_identities(a, 0, 0, 0, 0);
            lemma_xor_identities(key, 0, 0, 0, 0);
            assert(t_new == t_old ^ key);
            lemma_xor_identities(a, t_old, 0, 0, key);
        }
    } else {
        lemma_xor_identities(0, 0, 0, 0, 0);
    }
}

proof fn lemma_sq_keys_zero(z: Keys, idx: nat, n: nat)
    requires
        n <= 64,
    ensures
        sq_keys(z, idx, 0, n) == 0,
    decreases n,
{
    if n > 0 {
        lemma_sq_keys_zero(z, idx, (n - 1) as nat);
        lemma_bits_flip(0, 0, (n - 1) as u64);
        lemma_xor_identities(0, 0, 0, 0, 0);
    }
}

proof fn lemma_keys_prepend(z: Keys, idx: nat, l: nat, s: Seq<nat>)
    ensures
        keys_xor(z, idx, seq![l] + s) == z.piece_key(idx, l) ^ keys_xor(z, idx, s),
    decreases s.len(),
{
    let kl = z.piece_key(idx, l);
    if s.len() == 0 {
        assert(seq![l] + s =~= seq![l]);
        assert(seq![l].drop_last() =~= Seq::<nat>::empty());
        assert(keys_xor(z, idx, Seq::<nat>::empty()) == 0);
        assert(keys_xor(z, idx, seq![l]) == 0u64 ^ kl);
        lemma_xor_identities(kl, 0, 0, 0, 0);
    } else {
        let s2 = s.drop_last();
        lemma_keys_prepend(z, idx, l, s2);
        assert((seq![l] + s).drop_last() =~= seq![l] + s2);
        assert((seq![l] + s).last() == s.last());
        assert(keys_xor(z, idx, seq![l] + s) == keys_xor(z, idx, seq![l] + s2) ^ z.piece_key(idx, s.last()));
        lemma_xor_identities(kl, keys_xor(z, idx, s2), 0, 0, z.piece_key(idx, s.last()));
    }
}

/// The keys of the squares of a board, taken lowest square first, xor to the
/// keys of its squares taken in board order.
pub proof fn lemma_keys_by_square(z: Keys, idx: nat, b: u64)
    ensures
        keys_xor(z, idx, bits_asc(b)) == sq_keys(z, idx, b, 64),
    decreases b,
{
    if b == 0 {
        lemma_sq_keys_zero(z, idx, 64);
    } else {
        lemma_drop_lsb_smaller(b);
        lemma_lsb_facts(b);
        let l = lsb_num(b);
        let d = drop_lsb(b);
        lemma_keys_by_square(z, idx, d);
        lemma_keys_prepend(z, idx, l, bits_asc(d));
        assert(bits_asc(b) == seq![l] + bits_asc(d));
        lemma_drop_lsb_flip(b);
        lemma_sq_keys_flip(z, idx, b, l, 64);
        let kl = z.piece_key(idx, l);
        let sb = sq_keys(z, idx, b, 64);
        assert(keys_xor(z, idx, bits_asc(b)) == kl ^ (sb ^ kl));
        lemma_xor_identities(kl, sb, 0, 0, kl);
        lemma_xor_identities(sb, kl, 0, 0, kl);
        lemma_xor_identities(kl, 0, 0, 0, sb);
    }
}

proof fn lemma_pieces_same(z: Keys, a: Seq<u64>, b: Seq<u64>, n: nat)
    requires
        n <= a.len(),
        n <= b.len(),
        forall|j: int| 0 <= j < n ==> a[j] == b[j],
    ensures
        pieces_xor(z, a, n) == pieces_xor(z, b, n),
    decreases n,
{
    if n > 0 {
        lemma_pieces_same(z, a, b, (n - 1) as nat);
    }
}

/// Flipping one square of one piece board changes the xor of all piece keys
/// by that piece's key on that square.
pub proof fn lemma_pieces_flip(z: Keys, bbs: Seq<u64>, i: nat, s: nat, n: nat)
    requires
        i < n <= bbs.len(),
        s < 64,
    ensures
        pieces_xor(z, toggle(bbs, i as int, sq_mask(s)), n) == pieces_xor(z, bbs, n) ^ z.piece_key(i, s),
    decreases n,
{
    let t = toggle(bbs, i as int, sq_mask(s));
    let k = (n - 1) as nat;
    let ks = z.piece_key(i, s);
    if k == i {
        lemma_pieces_same(z, t, bbs, k);
        lemma_keys_by_square(z, k, t[k as int]);
        lemma_keys_by_square(z, k, bbs[k as int]);
        lemma_sq_keys_flip(z, k, bbs[k as int], s, 64);
        let pk = pieces_xor(z, bbs, k);
        let sk = keys_xor(z, k, bits_asc(bbs[k as int]));
        assert(pieces_xor(z, t, n) == pk ^ (sk ^ ks));
        lemma_xor_identities(pk, sk, 0, 0, ks);
    } else {
        lemma_pieces_flip(z, bbs, i, s, k);
        assert(t[k as int] == bbs[k as int]);
        let pk = pieces_xor(z, bbs, k);
        let kk = keys_xor(z, k, bits_asc(bbs[k as int]));
        lemma_xor_identities(pk, ks, 0, 0, kk);
    }
}

/// Flipping two squares of one piece board changes the xor of all piece keys
/// by the two keys.
proof fn lemma_pieces_flip2(z: Keys, bbs: Seq<u64>, i: nat, a: nat, b: nat)
    requires
        i < 12,
        bbs.len() == 12,
        a < 64,
        b < 64,
    ensures
        pieces_xor(z, toggle(bbs, i as int, sq_mask(a) ^ sq_mask(b)), 12)
            == (pieces_xor(z, bbs, 12) ^ z.piece_key(i, a)) ^ z.piece_key(i, b),
        pieces_xor(z, toggle(bbs, i as int, sq_mask(a) ^ sq_mask(b)), 12)
            == (pieces_xor(z, bbs, 12) ^ z.piece_key(i, b)) ^ z.piece_key(i, a),
{
    let t1 = toggle(bbs, i as int, sq_mask(a));
    let t2 = toggle(t1, i as int, sq_mask(b));
    lemma_xor_identities(bbs[i as int], sq_mask(a), 0, 0, sq_mask(b));
    assert(toggle(bbs, i as int, sq_mask(a) ^ sq_mask(b)) =~= t2);
    lemma_pieces_flip(z, bbs, i, a, 12);
    lemma_pieces_flip(z, t1, i, b, 12);
    lemma_xor_identities(pieces_xor(z, bbs, 12), z.piece_key(i, a), 0, 0, z.piece_key(i, b));
}

/// The hash key of the side to move.
pub open spec fn turn_key(z: Keys, turn: Color) -> u64 {
    if turn == Color::Black { z.side_to_move } else { 0 }
}

/// The hash of `q` lacks only its castling key: it is the xor of its piece
/// keys with `r`.
spec fn keeps(q: Position, z: Keys, r: u64) -> bool {
    &&& q.hash == pieces_xor(z, q.piece_bb, 12) ^ r
    &&& q.piece_bb.len() == 12
}

proof fn lemma_flags_keep(q: Position, z: Keys, side: nat, from: nat, to: nat, flags: u16, moved: Piece, eval: bool)
    requires
        keeps(q, z, 0u64 ^ turn_key(z, q.turn)),
        q.en_passant == 0,
        side < 2,
        from < 64,
        to < 64,
        flags < 16,
        flags != 6,
        flags != 7,
        flags == 5 ==> (16 <= to < 24 || 40 <= to < 48),
    ensures
        ({
            let r = sp_flags(q, z, side, from, to, flags, moved, eval);
            &&& keeps(r, z, ep_key(z, r.en_passant) ^ turn_key(z, r.turn))
            &&& r.turn == q.turn
            &&& r.castling == q.castling
        }),
{
    reveal(sp_flags);
    let r = sp_flags(q, z, side, from, to, flags, moved, eval);
    let pq = pieces_xor(z, q.piece_bb, 12);
    let tk = turn_key(z, q.turn);
    let off = side * 6;
    let opp = (1 - side) as nat;
    let tb = sq_mask(to);
    if flags == 1 {
        lemma_xor_identities(pq, 0, 0, tk, ep_key(z, r.en_passant));
    } else if flags > 5 {
        let pi = promo_piece(flags).idx() + off;
        let b1 = toggle(q.piece_bb, pi as int, tb);
        lemma_pieces_flip(z, q.piece_bb, pi, to, 12);
        lemma_pieces_flip(z, b1, off, to, 12);
        let k1 = z.piece_key(pi, to);
        let k2 = z.piece_key(off, to);
        lemma_xor_identities(pq, 0, k2, tk, k1);
        assert(ep_key(z, 0) == 0);
    } else if flags == 5 {
        let prb = en_passant_rm_spec(to);
        let t = to as u64;
        let v: nat = if 16 <= to < 24 { to + 8 } else { (to - 8) as nat };
        if 16 <= to < 24 {
            lemma_lsb_single((t + 8) as u64);
        } else {
            lemma_lsb_single((t - 8) as u64);
        }
        assert(prb == sq_mask(v));
        assert(lsb_num(prb) == v);
        lemma_pieces_flip(z, q.piece_bb, opp * 6, v, 12);
        lemma_xor_identities(pq, 0, 0, tk, z.piece_key(opp * 6, v));
        assert(ep_key(z, 0) == 0);
    } else if flags == 2 || flags == 3 {
        let (rd, ra) = castle_rook_squares(side, flags == 3);
        lemma_pieces_flip2(z, q.piece_bb, off + 3, rd, ra);
        let k1 = z.piece_key(off + 3, ra);
        let k2 = z.piece_key(off + 3, rd);
        lemma_xor_identities(pq, 0, k2, tk, k1);
        assert(ep_key(z, 0) == 0);
    } else {
        assert(ep_key(z, 0) == 0);
    }
}

/// The hash kept while moving is the hash of the new position: when the
/// hash of a position is its hash computed from scratch, the hash that
/// playing a move leaves is again the hash of the position it leads to,
/// for every move the engine can play.
pub proof fn law_hash_follows_moves(p: Position, z: Keys, m: Move, eval: bool)
    requires
        pos_wf(p),
        move_shape_ok(p, m),
        p.hash == hash_spec(p, z),
    ensures
        apply_move(p, z, m, eval).hash == hash_spec(apply_move(p, z, m, eval), z),
{
    m.lemma_parts();
    let side = p.turn.idx();
    let from = m.from_num();
    let to = m.to_num();
    let flags = m.flag_bits();
    let moved = p.piece[from as int];
    let cap = p.piece[to as int];
    let pp = pieces_xor(z, p.piece_bb, 12);
    let c0 = z.castling[p.castling as int];
    let e0 = ep_key(z, p.en_passant);
    let s0 = turn_key(z, p.turn);
    // the piece leaves its square and lands on the other
    reveal(sp_base);
    let q1 = sp_base(p, z, side, from, to, eval);
    let mi = moved.idx() + side * 6;
    lemma_pieces_flip2(z, p.piece_bb, mi, from, to);
    let kf = z.piece_key(mi, from);
    let kt = z.piece_key(mi, to);
    lemma_xor_identities(pp, c0, e0, s0, kf);
    lemma_xor_identities(pp ^ kf, 0, e0, s0, kt);
    lemma_xor_identities(pp, e0 ^ s0, 0, 0, kf);
    lemma_xor_identities(pp ^ kf, e0 ^ s0, 0, 0, kt);
    assert(keeps(q1, z, e0 ^ s0));
    // the captured piece, if any, leaves the board
    reveal(sp_capture);
    let q2 = sp_capture(q1, z, side, to, cap, eval);
    if cap != Piece::Empty {
        let ci = (cap.idx() + (1 - side) * 6) as nat;
        lemma_pieces_flip(z, q1.piece_bb, ci, to, 12);
        lemma_xor_identities(pieces_xor(z, q1.piece_bb, 12), 0, e0, s0, z.piece_key(ci, to));
    }
    assert(keeps(q2, z, e0 ^ s0));
    assert(q2.en_passant == p.en_passant && q2.turn == p.turn);
    // the old en passant file goes
    reveal(sp_clear_ep);
    let q3 = sp_clear_ep(q2, z);
    lemma_xor_identities(pieces_xor(z, q2.piece_bb, 12), 0, e0, s0, 0);
    assert(keeps(q3, z, 0u64 ^ turn_key(z, q3.turn)));
    // what the flag adds
    let q4 = sp_flags(q3, z, side, from, to, flags, moved, eval);
    lemma_flags_keep(q3, z, side, from, to, flags, moved, eval);
    // side to move and castling key
    reveal(sp_finish);
    let q5 = sp_finish(q4, z);
    assert(q5 == apply_move(p, z, m, eval));
    let p4 = pieces_xor(z, q4.piece_bb, 12);
    let e4 = ep_key(z, q4.en_passant);
    let c4 = z.castling[q4.castling as int];
    let sk = z.side_to_move;
    assert(q5.piece_bb == q4.piece_bb);
    if q4.turn == Color::White {
        lemma_xor_identities(p4, c4, e4, sk, 0);
    } else {
        lemma_xor_identities(p4, c4, e4, sk, 0);
    }
}

/// Along any sequence of moves that fit, the kept hash stays the hash of the
/// position: after playing them all it is the hash computed from scratch,
/// and taking them all back in reverse order returns to the first position
/// (so to its hash too).
pub proof fn law_hash_follows_all_moves(p: Position, z: Keys, ms: Seq<Move>, eval: bool)
    requires
        all_fit(p, z, ms, eval),
        p.hash == hash_spec(p, z),
    ensures
        played_all(p, z, ms, eval).hash == hash_spec(played_all(p, z, ms, eval), z),
        taken_back_all(played_all(p, z, ms, eval), p, z, ms, eval).hash == hash_spec(p, z),
    decreases ms.len(),
{
    law_unmake_in_reverse_order(p, z, ms, eval);
    if ms.len() > 0 {
        law_hash_follows_moves(p, z, ms[0], eval);
        law_hash_follows_all_moves(apply_move(p, z, ms[0], eval), z, ms.drop_first(), eval);
    }
}

} // verus!
