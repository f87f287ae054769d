use vstd::prelude::*;
use crate::chess::board::bitboard::{bit, lsb_num, drop_lsb, bits_asc, lemma_lsb_facts, lemma_drop_lsb_smaller};
use crate::chess::board::evaluation::{square_score, squares_score, side_score, score_total};
use crate::chess::board::make_move::{
    sq_mask, toggle, wadd, wsub, signed, apply_move, promo_piece, sp_base, sp_capture, sp_clear_ep, sp_flags, sp_finish,
};
use crate::chess::board::evaluation::{mg_spec, eg_spec, mg_value_spec, eg_value_spec, phase_value_spec, phase_spec, side_phase};
use crate::chess::board::bitboard::popcount;
use crate::chess::board::bitboard::{en_passant_rm_spec, lemma_lsb_single};
use crate::chess::board::laws::{pos_wf, move_fits, ep_victim};
use crate::chess::board::hash::Keys;
use crate::chess::board::Position;
use crate::chess::chess_move::Move;
use crate::chess::constants::{Piece, castle_rook_squares};
use crate::chess::board::hash_laws::{lemma_bits_flip, lemma_drop_lsb_flip};

verus! {

/// What flipping square `s` of a board `b` of piece index `idx` (kind
/// `kind`) adds to the sum of its square scores.
pub open spec fn flip_delta(idx: nat, kind: nat, b: u64, s: nat, mg: bool) -> int {
    if bit(b, s as int) {
        -square_score(idx, kind, s, mg)
    } else {
        square_score(idx, kind, s, mg)
    }
}

/// The sum of the square scores of piece index `idx` over the squares below
/// `n` that `b` holds.
pub open spec fn sq_sum(idx: nat, kind: nat, b: u64, n: nat, mg: bool) -> int
    decreases n,
{
    if n == 0 {
        0
    } else {
        sq_sum(idx, kind, b, (n - 1) as nat, mg) + if bit(b, n - 1) { square_score(idx, kind, (n - 1) as nat, mg) } else { 0 }
    }
}

proof fn lemma_sq_sum_flip(idx: nat, kind: nat, b: u64, s: nat, n: nat, mg: bool)
    requires
        s < 64,
        n <= 64,
    ensures
        sq_sum(idx, kind, b ^ sq_mask(s), n, mg) == sq_sum(idx, kind, b, n, mg) + if s < n {
            flip_delta(idx, kind, b, s, mg)
        } else {
            0
        },
    decreases n,
{
    if n > 0 {
        let k = (n - 1) as nat;
        lemma_sq_sum_flip(idx, kind, b, s, k, mg);
        lemma_bits_flip(b, s as u64, k as u64);
        assert(bit(b, k as int) == ((b >> (k as u64)) & 1u64 == 1u64));
        assert(bit(b ^ sq_mask(s), k as int) == (((b ^ (1u64 << (s as u64))) >> (k as u64)) & 1u64 == 1u64));
        assert(bit(b, s as int) == ((b >> (s as u64)) & 1u64 == 1u64));
    }
}

proof fn lemma_sq_sum_zero(idx: nat, kind: nat, n: nat, mg: bool)
    requires
        n <= 64,
    ensures
        sq_sum(idx, kind, 0, n, mg) == 0,
    decreases n,
{
    if n > 0 {
        lemma_sq_sum_zero(idx, kind, (n - 1) as nat, mg);
        lemma_bits_flip(0, 0, (n - 1) as u64);
    }
}

proof fn lemma_squares_prepend(idx: nat, kind: nat, l: nat, s: Seq<nat>, mg: bool)
    ensures
        squares_score(idx, kind, seq![l] + s, mg) == square_score(idx, kind, l, mg) + squares_score(idx, kind, s, mg),
    decreases s.len(),
{
    if s.len() == 0 {
        assert(seq![l] + s =~= seq![l]);
        assert(seq![l].drop_last() =~= Seq::<nat>::empty());
        assert(squares_score(idx, kind, Seq::<nat>::empty(), mg) == 0);
        assert(squares_score(idx, kind, seq![l], mg) == squares_score(idx, kind, Seq::<nat>::empty(), mg) + square_score(idx, kind, l, mg));
    } else {
        let s2 = s.drop_last();
        lemma_squares_prepend(idx, kind, l, s2, mg);
        assert((seq![l] + s).drop_last() =~= seq![l] + s2);
        assert((seq![l] + s).last() == s.last());
        assert(squares_score(idx, kind, seq![l] + s, mg) == squares_score(idx, kind, seq![l] + s2, mg) + square_score(idx, kind, s.last(), mg));
    }
}

/// The square scores of a board, taken lowest square first, add up to its
/// square scores taken in board order.
pub proof fn lemma_squares_by_square(idx: nat, kind: nat, b: u64, mg: bool)
    ensures
        squares_score(idx, kind, bits_asc(b), mg) == sq_sum(idx, kind, b, 64, mg),
    decreases b,
{
    if b == 0 {
        lemma_sq_sum_zero(idx, kind, 64, mg);
    } else {
        lemma_drop_lsb_smaller(b);
        lemma_lsb_facts(b);
        let l = lsb_num(b);
        let d = drop_lsb(b);
        lemma_squares_by_square(idx, kind, d, mg);
        lemma_squares_prepend(idx, kind, l, bits_asc(d), mg);
        assert(bits_asc(b) == seq![l] + bits_asc(d));
        lemma_drop_lsb_flip(b);
        lemma_sq_sum_flip(idx, kind, b, l, 64, mg);
    }
}

/// Flipping square `s` of board `i` changes the score of the first `k`
/// kinds of side `side` by that flip's delta when the board is among them.
proof fn lemma_side_flip(bbs: Seq<u64>, side: nat, k: nat, i: nat, s: nat, mg: bool)
    requires
        bbs.len() == 12,
        side < 2,
        k <= 6,
        i < 12,
        s < 64,
    ensures
        side_score(toggle(bbs, i as int, sq_mask(s)), side, k, mg) == side_score(bbs, side, k, mg) + if side * 6 <= i
            < side * 6 + k {
            flip_delta(i, (i - side * 6) as nat, bbs[i as int], s, mg)
        } else {
            0
        },
    decreases k,
{
    if k > 0 {
        let t = toggle(bbs, i as int, sq_mask(s));
        let j = side * 6 + (k - 1) as nat;
        lemma_side_flip(bbs, side, (k - 1) as nat, i, s, mg);
        if j == i {
            lemma_squares_by_square(i, (k - 1) as nat, t[i as int], mg);
            lemma_squares_by_square(i, (k - 1) as nat, bbs[i as int], mg);
            lemma_sq_sum_flip(i, (k - 1) as nat, bbs[i as int], s, 64, mg);
        } else {
            assert(t[j as int] == bbs[j as int]);
        }
    }
}

/// The sign with which the pieces of board `i` count in the total: plus
/// for white, minus for black.
pub open spec fn board_sign(i: nat) -> int {
    if i < 6 { 1 } else { -1 }
}

/// Flipping square `s` of board `i` changes the total by the flip's delta,
/// counted with the board's sign.
pub proof fn lemma_total_flip(bbs: Seq<u64>, i: nat, s: nat, mg: bool)
    requires
        bbs.len() == 12,
        i < 12,
        s < 64,
    ensures
        score_total(toggle(bbs, i as int, sq_mask(s)), mg) == score_total(bbs, mg) + board_sign(i) * flip_delta(
            i,
            i % 6,
            bbs[i as int],
            s,
            mg,
        ),
{
    lemma_side_flip(bbs, 0, 6, i, s, mg);
    lemma_side_flip(bbs, 1, 6, i, s, mg);
}

/// `a` and `b` agree modulo 2^16.
pub open spec fn cong16(a: int, b: int) -> bool {
    (a - b) % 65536 == 0
}

proof fn lemma_cong_add(a: int, b: int, c: int, d: int)
    requires
        cong16(a, b),
        cong16(c, d),
    ensures
        cong16(a + c, b + d),
        cong16(a - c, b - d),
{
    assert((a - b) % 65536 == 0 && (c - d) % 65536 == 0 ==> ((a + c) - (b + d)) % 65536 == 0) by (nonlinear_arith);
    assert((a - b) % 65536 == 0 && (c - d) % 65536 == 0 ==> ((a - c) - (b - d)) % 65536 == 0) by (nonlinear_arith);
}

proof fn lemma_cong_trans(a: int, b: int, c: int)
    requires
        cong16(a, b),
        cong16(b, c),
    ensures
        cong16(a, c),
{
    assert((a - b) % 65536 == 0 && (b - c) % 65536 == 0 ==> (a - c) % 65536 == 0) by (nonlinear_arith);
}

proof fn lemma_cong_shift(a: int, b: int, k: int)
    requires
        a == b + 65536 * k,
    ensures
        cong16(a, b),
{
    assert(a == b + 65536 * k ==> (a - b) % 65536 == 0) by (nonlinear_arith);
}

/// Wrapping addition and subtraction agree with the exact ones modulo 2^16.
proof fn lemma_wrapping(x: i16, y: i16)
    ensures
        cong16(wadd(x, y) as int, x + y),
        cong16(wsub(x, y) as int, x - y),
{
    if x + y > 32767 {
        lemma_cong_shift(wadd(x, y) as int, x + y, -1);
    } else if x + y < -32768 {
        lemma_cong_shift(wadd(x, y) as int, x + y, 1);
    } else {
        lemma_cong_shift(wadd(x, y) as int, x + y, 0);
    }
    if x - y > 32767 {
        lemma_cong_shift(wsub(x, y) as int, x - y, -1);
    } else if x - y < -32768 {
        lemma_cong_shift(wsub(x, y) as int, x - y, 1);
    } else {
        lemma_cong_shift(wsub(x, y) as int, x - y, 0);
    }
}

/// Flipping another square leaves a square's bit; flipping it inverts it.
proof fn lemma_bit_flip(b: u64, s: nat, k: nat)
    requires
        s < 64,
        k < 64,
    ensures
        s != k ==> bit(b ^ sq_mask(s), k as int) == bit(b, k as int),
        bit(b ^ sq_mask(s), s as int) == !bit(b, s as int),
{
    lemma_bits_flip(b, s as u64, k as u64);
    lemma_bits_flip(b, s as u64, s as u64);
    assert(bit(b, k as int) == ((b >> (k as u64)) & 1u64 == 1u64));
    assert(bit(b ^ sq_mask(s), k as int) == (((b ^ (1u64 << (s as u64))) >> (k as u64)) & 1u64 == 1u64));
    assert(bit(b, s as int) == ((b >> (s as u64)) & 1u64 == 1u64));
    assert(bit(b ^ sq_mask(s), s as int) == (((b ^ (1u64 << (s as u64))) >> (s as u64)) & 1u64 == 1u64));
}

/// The kept scores of `q` agree with the scores of its boards modulo 2^16.
pub open spec fn scores_kept(q: Position) -> bool {
    &&& q.piece_bb.len() == 12
    &&& cong16(q.mg as int, score_total(q.piece_bb, true))
    &&& cong16(q.eg as int, score_total(q.piece_bb, false))
}

/// A side's material value counts with the side's sign.
proof fn lemma_values_signed(kind: nat, side: nat)
    requires
        kind < 6,
        side < 2,
    ensures
        mg_value_spec(kind + side * 6) == board_sign(kind + side * 6) * mg_value_spec(kind),
        eg_value_spec(kind + side * 6) == board_sign(kind + side * 6) * eg_value_spec(kind),
{
}

/// A table value seen from a side agrees with the value counted with the side's sign.
proof fn lemma_signed(side: nat, v: i16)
    requires
        side < 2,
    ensures
        cong16(signed(side, v) as int, if side == 0 { v as int } else { -v }),
{
    lemma_wrapping(0, v);
    if side == 0 {
        lemma_cong_shift(v as int, v as int, 0);
    }
}

/// Taking the piece of board `i` off square `s` (which holds it) keeps the
/// kept scores in step, when its square value and its material are taken
/// from the kept scores.
proof fn lemma_remove_piece(q: Position, i: nat, s: nat, side: nat, kind: nat)
    requires
        scores_kept(q),
        i == kind + side * 6,
        kind < 6,
        side < 2,
        s < 64,
        bit(q.piece_bb[i as int], s as int),
    ensures
        scores_kept(Position {
            piece_bb: toggle(q.piece_bb, i as int, sq_mask(s)),
            mg: wsub(wsub(q.mg, signed(side, mg_spec(i, s))), mg_value_spec(i)),
            eg: wsub(wsub(q.eg, signed(side, eg_spec(i, s))), eg_value_spec(i)),
            ..q
        }),
{
    lemma_total_flip(q.piece_bb, i, s, true);
    lemma_total_flip(q.piece_bb, i, s, false);
    lemma_values_signed(kind, side);
    lemma_signed(side, mg_spec(i, s));
    lemma_signed(side, eg_spec(i, s));
    let m1 = wsub(q.mg, signed(side, mg_spec(i, s)));
    lemma_wrapping(q.mg, signed(side, mg_spec(i, s)));
    lemma_wrapping(m1, mg_value_spec(i));
    let e1 = wsub(q.eg, signed(side, eg_spec(i, s)));
    lemma_wrapping(q.eg, signed(side, eg_spec(i, s)));
    lemma_wrapping(e1, eg_value_spec(i));
    let sg = board_sign(i);
    assert(i % 6 == kind);
    let tm = score_total(q.piece_bb, true);
    let te = score_total(q.piece_bb, false);
    // middle game
    lemma_cong_add(q.mg as int, tm, signed(side, mg_spec(i, s)) as int, sg * mg_spec(i, s));
    lemma_cong_trans(m1 as int, q.mg - signed(side, mg_spec(i, s)), tm - sg * mg_spec(i, s));
    lemma_cong_add(m1 as int, tm - sg * mg_spec(i, s), mg_value_spec(i) as int, mg_value_spec(i) as int);
    lemma_cong_shift(mg_value_spec(i) as int, mg_value_spec(i) as int, 0);
    lemma_cong_add(m1 as int, tm - sg * mg_spec(i, s), mg_value_spec(i) as int, mg_value_spec(i) as int);
    lemma_cong_trans(
        wsub(m1, mg_value_spec(i)) as int,
        m1 - mg_value_spec(i),
        tm - sg * mg_spec(i, s) - mg_value_spec(i),
    );
    // end game
    lemma_cong_add(q.eg as int, te, signed(side, eg_spec(i, s)) as int, sg * eg_spec(i, s));
    lemma_cong_trans(e1 as int, q.eg - signed(side, eg_spec(i, s)), te - sg * eg_spec(i, s));
    lemma_cong_shift(eg_value_spec(i) as int, eg_value_spec(i) as int, 0);
    lemma_cong_add(e1 as int, te - sg * eg_spec(i, s), eg_value_spec(i) as int, eg_value_spec(i) as int);
    lemma_cong_trans(
        wsub(e1, eg_value_spec(i)) as int,
        e1 - eg_value_spec(i),
        te - sg * eg_spec(i, s) - eg_value_spec(i),
    );
}

/// Moving the piece of board `i` from `a` (which holds it) to `b` (which
/// does not) keeps the kept scores in step, when the square values are
/// moved in the kept scores.
proof fn lemma_move_piece(q: Position, i: nat, a: nat, b: nat, side: nat, kind: nat)
    requires
        scores_kept(q),
        i == kind + side * 6,
        kind < 6,
        side < 2,
        a < 64,
        b < 64,
        a != b,
        bit(q.piece_bb[i as int], a as int),
        !bit(q.piece_bb[i as int], b as int),
    ensures
        scores_kept(Position {
            piece_bb: toggle(q.piece_bb, i as int, sq_mask(a) ^ sq_mask(b)),
            mg: wadd(wsub(q.mg, signed(side, mg_spec(i, a))), signed(side, mg_spec(i, b))),
            eg: wadd(wsub(q.eg, signed(side, eg_spec(i, a))), signed(side, eg_spec(i, b))),
            ..q
        }),
{
    let t1 = toggle(q.piece_bb, i as int, sq_mask(a));
    let t2 = toggle(t1, i as int, sq_mask(b));
    crate::chess::board::hash_laws::lemma_xor_identities(q.piece_bb[i as int], sq_mask(a), 0, 0, sq_mask(b));
    assert(toggle(q.piece_bb, i as int, sq_mask(a) ^ sq_mask(b)) =~= t2);
    lemma_bit_flip(q.piece_bb[i as int], a, b);
    lemma_total_flip(q.piece_bb, i, a, true);
    lemma_total_flip(q.piece_bb, i, a, false);
    lemma_total_flip(t1, i, b, true);
    lemma_total_flip(t1, i, b, false);
    assert(i % 6 == kind);
    let sg = board_sign(i);
    lemma_signed(side, mg_spec(i, a));
    lemma_signed(side, mg_spec(i, b));
    lemma_signed(side, eg_spec(i, a));
    lemma_signed(side, eg_spec(i, b));
    // middle game
    let tm = score_total(q.piece_bb, true);
    let m1 = wsub(q.mg, signed(side, mg_spec(i, a)));
    lemma_wrapping(q.mg, signed(side, mg_spec(i, a)));
    lemma_wrapping(m1, signed(side, mg_spec(i, b)));
    lemma_cong_add(q.mg as int, tm, signed(side, mg_spec(i, a)) as int, sg * mg_spec(i, a));
    lemma_cong_trans(m1 as int, q.mg - signed(side, mg_spec(i, a)), tm - sg * mg_spec(i, a));
    lemma_cong_add(m1 as int, tm - sg * mg_spec(i, a), signed(side, mg_spec(i, b)) as int, sg * mg_spec(i, b));
    lemma_cong_trans(
        wadd(m1, signed(side, mg_spec(i, b))) as int,
        m1 + signed(side, mg_spec(i, b)),
        tm - sg * mg_spec(i, a) + sg * mg_spec(i, b),
    );
    // end game
    let te = score_total(q.piece_bb, false);
    let e1 = wsub(q.eg, signed(side, eg_spec(i, a)));
    lemma_wrapping(q.eg, signed(side, eg_spec(i, a)));
    lemma_wrapping(e1, signed(side, eg_spec(i, b)));
    lemma_cong_add(q.eg as int, te, signed(side, eg_spec(i, a)) as int, sg * eg_spec(i, a));
    lemma_cong_trans(e1 as int, q.eg - signed(side, eg_spec(i, a)), te - sg * eg_spec(i, a));
    lemma_cong_add(e1 as int, te - sg * eg_spec(i, a), signed(side, eg_spec(i, b)) as int, sg * eg_spec(i, b));
    lemma_cong_trans(
        wadd(e1, signed(side, eg_spec(i, b))) as int,
        e1 + signed(side, eg_spec(i, b)),
        te - sg * eg_spec(i, a) + sg * eg_spec(i, b),
    );
}

/// The piece boards agree with the move about the squares it touches: the
/// mover's board holds the from-square and not the to-square, the taken
/// piece's board holds the to-square, the board of the pawn taken en passant
/// holds its square, and for castling the rook's board holds the rook's
/// square and not the square it goes to.
pub open spec fn boards_agree(p: Position, m: Move) -> bool {
    let side = p.turn.idx();
    let off = side * 6;
    let opp = (1 - side) as nat;
    let from = m.from_num();
    let to = m.to_num();
    let flags = m.flag_bits();
    let mi = p.piece[from as int].idx() + off;
    let cap = p.piece[to as int];
    &&& bit(p.piece_bb[mi as int], from as int)
    &&& !bit(p.piece_bb[mi as int], to as int)
    &&& cap != Piece::Empty ==> bit(p.piece_bb[(cap.idx() + opp * 6) as int], to as int)
    &&& flags == 5 ==> bit(p.piece_bb[(opp * 6) as int], ep_victim(to) as int)
    &&& (flags == 2 || flags == 3) ==> {
        let (rd, ra) = castle_rook_squares(side, flags == 3);
        &&& bit(p.piece_bb[(off + 3) as int], rd as int)
        &&& !bit(p.piece_bb[(off + 3) as int], ra as int)
    }
}

/// The kept evaluation follows the moves: when the kept middle and end game
/// scores of a position agree (modulo 2^16) with the scores of its pieces,
/// they agree again after a move that is no promotion and whose squares
/// hold on the piece boards what the move takes from them.
#[verifier::spinoff_prover]
#[verifier::rlimit(40)]
pub proof fn law_eval_follows_moves(p: Position, z: Keys, m: Move)
    requires
        pos_wf(p),
        move_fits(p, m),
        m.flag_bits() < 8,
        boards_agree(p, m),
        scores_kept(p),
    ensures
        scores_kept(apply_move(p, z, m, true)),
{
    m.lemma_parts();
    let side = p.turn.idx();
    let off = side * 6;
    let opp = (1 - side) as nat;
    let from = m.from_num();
    let to = m.to_num();
    let flags = m.flag_bits();
    let moved = p.piece[from as int];
    let mi = moved.idx() + off;
    let cap = p.piece[to as int];
    reveal(sp_base);
    reveal(sp_capture);
    reveal(sp_clear_ep);
    reveal(sp_flags);
    reveal(sp_finish);
    // the piece moves
    let q1 = sp_base(p, z, side, from, to, true);
    lemma_move_piece(p, mi, from, to, side, moved.idx());
    assert(scores_kept(q1));
    // the taken piece leaves
    let q2 = sp_capture(q1, z, side, to, cap, true);
    if cap != Piece::Empty {
        let ci = cap.idx() + opp * 6;
        assert(q1.piece_bb[ci as int] == p.piece_bb[ci as int]);
        lemma_remove_piece(q1, ci, to, opp, cap.idx());
    }
    assert(scores_kept(q2));
    let q3 = sp_clear_ep(q2, z);
    assert(scores_kept(q3));
    // what the flag adds
    let q4 = sp_flags(q3, z, side, from, to, flags, moved, true);
    if flags == 5 {
        let v = ep_victim(to);
        let t = to as u64;
        if 16 <= to < 24 {
            lemma_lsb_single((t + 8) as u64);
        } else {
            lemma_lsb_single((t - 8) as u64);
        }
        assert(en_passant_rm_spec(to) == sq_mask(v));
        assert(q1.piece_bb[(opp * 6) as int] == p.piece_bb[(opp * 6) as int]);
        if cap != Piece::Empty {
            lemma_bit_flip(q1.piece_bb[(opp * 6) as int], to, v);
        }
        assert(bit(q3.piece_bb[(opp * 6) as int], v as int));
        lemma_remove_piece(q3, opp * 6, v, opp, 0);
        assert(scores_kept(q4));
    } else if flags == 2 || flags == 3 {
        let (rd, ra) = castle_rook_squares(side, flags == 3);
        let rb = p.piece_bb[(off + 3) as int];
        if mi == off + 3 {
            lemma_bit_flip(rb, from, rd);
            lemma_bit_flip(rb, from, ra);
            lemma_bit_flip(rb ^ sq_mask(from), to, rd);
            lemma_bit_flip(rb ^ sq_mask(from), to, ra);
            crate::chess::board::hash_laws::lemma_xor_identities(rb, sq_mask(from), 0, 0, sq_mask(to));
        }
        assert(bit(q3.piece_bb[(off + 3) as int], rd as int));
        assert(!bit(q3.piece_bb[(off + 3) as int], ra as int));
        lemma_move_piece(q3, off + 3, rd, ra, side, 3);
        assert(scores_kept(q4));
    } else {
        assert(scores_kept(q4));
    }
    assert(scores_kept(sp_finish(q4, z)));
}

/// The number of squares below `n` that `b` holds.
pub open spec fn bit_count(b: u64, n: nat) -> int
    decreases n,
{
    if n == 0 {
        0
    } else {
        bit_count(b, (n - 1) as nat) + if bit(b, n - 1) { 1int } else { 0int }
    }
}

proof fn lemma_count_flip(b: u64, s: nat, n: nat)
    requires
        s < 64,
        n <= 64,
    ensures
        bit_count(b ^ sq_mask(s), n) == bit_count(b, n) + if s < n {
            if bit(b, s as int) { -1int } else { 1int }
        } else {
            0int
        },
    decreases n,
{
    if n > 0 {
        let k = (n - 1) as nat;
        lemma_count_flip(b, s, k);
        lemma_bit_flip(b, s, k);
    }
}

proof fn lemma_count_zero(n: nat)
    requires
        n <= 64,
    ensures
        bit_count(0, n) == 0,
    decreases n,
{
    if n > 0 {
        lemma_count_zero((n - 1) as nat);
        lemma_bits_flip(0, 0, (n - 1) as u64);
    }
}

/// The number of set bits of a board is the number of squares it holds.
proof fn lemma_popcount_by_square(b: u64)
    ensures
        popcount(b) == bit_count(b, 64),
    decreases b,
{
    if b == 0 {
        lemma_count_zero(64);
    } else {
        lemma_drop_lsb_smaller(b);
        lemma_lsb_facts(b);
        let l = lsb_num(b);
        let d = drop_lsb(b);
        lemma_popcount_by_square(d);
        assert(bits_asc(b) == seq![l] + bits_asc(d));
        lemma_drop_lsb_flip(b);
        lemma_count_flip(b, l, 64);
    }
}

/// Flipping a square of a board changes its number of pieces by one.
proof fn lemma_popcount_flip(b: u64, s: nat)
    requires
        s < 64,
    ensures
        popcount(b ^ sq_mask(s)) == if bit(b, s as int) { popcount(b) - 1 } else { popcount(b) + 1int },
{
    lemma_popcount_by_square(b);
    lemma_popcount_by_square(b ^ sq_mask(s));
    lemma_count_flip(b, s, 64);
}

/// Moving a piece of a board from `a` to `c` keeps its number of pieces.
proof fn lemma_popcount_move(b: u64, a: nat, c: nat)
    requires
        a < 64,
        c < 64,
        a != c,
        bit(b, a as int),
        !bit(b, c as int),
    ensures
        popcount(b ^ (sq_mask(a) ^ sq_mask(c))) == popcount(b),
{
    crate::chess::board::hash_laws::lemma_xor_identities(b, sq_mask(a), 0, 0, sq_mask(c));
    lemma_popcount_flip(b, a);
    lemma_bit_flip(b, a, c);
    lemma_popcount_flip(b ^ sq_mask(a), c);
}

/// Neither side has more pieces of a kind than the phase counts: at most
/// one queen, two rooks, two bishops and two knights each.
pub open spec fn phase_counts_hold(bbs: Seq<u64>) -> bool {
    &&& popcount(bbs[4]) <= 1
    &&& popcount(bbs[10]) <= 1
    &&& popcount(bbs[1]) <= 2
    &&& popcount(bbs[7]) <= 2
    &&& popcount(bbs[2]) <= 2
    &&& popcount(bbs[8]) <= 2
    &&& popcount(bbs[3]) <= 2
    &&& popcount(bbs[9]) <= 2
}

/// The kept game phase follows the moves: when it is the phase of a
/// position's pieces, it is again after a move that is no promotion, whose
/// squares hold on the piece boards what the move takes from them, in a
/// position where no side has more pieces of a kind than the phase counts.
#[verifier::spinoff_prover]
#[verifier::rlimit(40)]
pub proof fn law_phase_follows_moves(p: Position, z: Keys, m: Move)
    requires
        pos_wf(p),
        move_fits(p, m),
        m.flag_bits() < 8,
        boards_agree(p, m),
        phase_counts_hold(p.piece_bb),
        p.phase == phase_spec(p.piece_bb),
    ensures
        apply_move(p, z, m, true).phase == phase_spec(apply_move(p, z, m, true).piece_bb),
{
    m.lemma_parts();
    let side = p.turn.idx();
    let off = side * 6;
    let opp = (1 - side) as nat;
    let from = m.from_num();
    let to = m.to_num();
    let flags = m.flag_bits();
    let moved = p.piece[from as int];
    let mi = moved.idx() + off;
    let cap = p.piece[to as int];
    let ci = cap.idx() + opp * 6;
    reveal(sp_base);
    reveal(sp_capture);
    reveal(sp_clear_ep);
    reveal(sp_flags);
    reveal(sp_finish);
    let bb = p.piece_bb;
    let q1 = sp_base(p, z, side, from, to, true);
    lemma_popcount_move(bb[mi as int], from, to);
    let t1 = q1.piece_bb;
    assert(forall|j: int| 0 <= j < 12 ==> #[trigger] popcount(t1[j]) == popcount(bb[j]));
    let q2 = sp_capture(q1, z, side, to, cap, true);
    let t2 = q2.piece_bb;
    if cap != Piece::Empty {
        assert(t1[ci as int] == bb[ci as int]);
        lemma_popcount_flip(t1[ci as int], to);
        assert(forall|j: int| 0 <= j < 12 && j != ci ==> #[trigger] popcount(t2[j]) == popcount(bb[j]));
        assert(popcount(t2[ci as int]) == popcount(bb[ci as int]) - 1);
    }
    let q3 = sp_clear_ep(q2, z);
    let q4 = sp_flags(q3, z, side, from, to, flags, moved, true);
    let t4 = q4.piece_bb;
    if flags == 5 {
        assert(forall|j: int| 0 <= j < 12 && j != (opp * 6) as int ==> #[trigger] t4[j] == t2[j]);
    } else if flags == 2 || flags == 3 {
        let (rd, ra) = castle_rook_squares(side, flags == 3);
        let rb = bb[(off + 3) as int];
        if mi == off + 3 {
            lemma_bit_flip(rb, from, rd);
            lemma_bit_flip(rb, from, ra);
            lemma_bit_flip(rb ^ sq_mask(from), to, rd);
            lemma_bit_flip(rb ^ sq_mask(from), to, ra);
            crate::chess::board::hash_laws::lemma_xor_identities(rb, sq_mask(from), 0, 0, sq_mask(to));
        }
        assert(t2[(off + 3) as int] == t1[(off + 3) as int]);
        assert(bit(t2[(off + 3) as int], rd as int));
        assert(!bit(t2[(off + 3) as int], ra as int));
        lemma_popcount_move(t2[(off + 3) as int], rd, ra);
        assert(forall|j: int| 0 <= j < 12 ==> #[trigger] popcount(t4[j]) == popcount(t2[j]));
    } else {
        assert(t4 == t2);
    }
    let q5 = sp_finish(q4, z);
    assert(q5.piece_bb == t4);
    assert(forall|j: int| 0 <= j < 12 && j % 6 != 0 ==> #[trigger] popcount(t4[j]) == popcount(t2[j]));
    if cap != Piece::Empty {
        assert(q5.phase == p.phase - phase_value_spec(cap.idx()));
    } else {
        assert(q5.phase == p.phase);
    }
}

} // verus!
