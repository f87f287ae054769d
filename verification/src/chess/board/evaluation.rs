use vstd::prelude::*;
use crate::chess::board::tables::{mg_black, eg_black, mg_black_row, eg_black_row};
use crate::chess::board::Board;
use crate::chess::board::bitboard::{Bitboard, bits_asc, popcount, drop_lsb, lsb_num, lemma_lsb_facts, lemma_drop_lsb_smaller, lemma_popcount_bound};
use crate::chess::constants::Color;

verus! {

/// The score of being mated.
pub const CHECK_MATE: i16 = -32668;
/// Scores beyond this cannot come from the static evaluation.
pub const CHECK_MATE_THRESHOLD: i16 = 32000;
pub const NEG_INFINITY: i16 = -32766;
pub const POSITIVE_INFINITY: i16 = 32766;

/// The square seen from the other side (rank mirrored).
pub open spec fn flip_sq(sq: nat) -> nat {
    ((7 - sq / 8) * 8 + sq % 8) as nat
}

/// Middle game piece-square value of piece index `idx` (0..5 white, 6..11 black) on `sq`.
pub open spec fn mg_spec(idx: nat, sq: nat) -> i16 {
    if idx >= 6 {
        mg_black((idx - 6) as nat)[sq as int]
    } else {
        mg_black(idx)[flip_sq(sq) as int]
    }
}

/// End game piece-square value of piece index `idx` on `sq`.
pub open spec fn eg_spec(idx: nat, sq: nat) -> i16 {
    if idx >= 6 {
        eg_black((idx - 6) as nat)[sq as int]
    } else {
        eg_black(idx)[flip_sq(sq) as int]
    }
}

pub fn mg_table(idx: usize, sq: usize) -> (r: i16)
    requires
        idx < 12,
        sq < 64,
    ensures
        r == mg_spec(idx as nat, sq as nat),
{
    if idx >= 6 {
        let row = mg_black_row(idx - 6);
        row[sq]
    } else {
        let row = mg_black_row(idx);
        row[(7 - sq / 8) * 8 + sq % 8]
    }
}

pub fn eg_table(idx: usize, sq: usize) -> (r: i16)
    requires
        idx < 12,
        sq < 64,
    ensures
        r == eg_spec(idx as nat, sq as nat),
{
    if idx >= 6 {
        let row = eg_black_row(idx - 6);
        row[sq]
    } else {
        let row = eg_black_row(idx);
        row[(7 - sq / 8) * 8 + sq % 8]
    }
}

/// The material value of piece index `idx` in the middle game (negative for black).
pub open spec fn mg_value_spec(idx: nat) -> i16 {
    if idx == 0 {
        82
    } else if idx == 1 {
        337
    } else if idx == 2 {
        365
    } else if idx == 3 {
        477
    } else if idx == 4 {
        1025
    } else if idx == 6 {
        -82i16
    } else if idx == 7 {
        -337i16
    } else if idx == 8 {
        -365i16
    } else if idx == 9 {
        -477i16
    } else if idx == 10 {
        -1025i16
    } else {
        0
    }
}

/// The material value of piece index `idx` in the end game (negative for black).
pub open spec fn eg_value_spec(idx: nat) -> i16 {
    if idx == 0 {
        94
    } else if idx == 1 {
        281
    } else if idx == 2 {
        297
    } else if idx == 3 {
        512
    } else if idx == 4 {
        936
    } else if idx == 6 {
        -94i16
    } else if idx == 7 {
        -281i16
    } else if idx == 8 {
        -297i16
    } else if idx == 9 {
        -512i16
    } else if idx == 10 {
        -936i16
    } else {
        0
    }
}

pub fn mg_value(idx: usize) -> (r: i16)
    ensures
        r == mg_value_spec(idx as nat),
{
    if idx == 0 {
        82
    } else if idx == 1 {
        337
    } else if idx == 2 {
        365
    } else if idx == 3 {
        477
    } else if idx == 4 {
        1025
    } else if idx == 6 {
        -82
    } else if idx == 7 {
        -337
    } else if idx == 8 {
        -365
    } else if idx == 9 {
        -477
    } else if idx == 10 {
        -1025
    } else {
        0
    }
}

pub fn eg_value(idx: usize) -> (r: i16)
    ensures
        r == eg_value_spec(idx as nat),
{
    if idx == 0 {
        94
    } else if idx == 1 {
        281
    } else if idx == 2 {
        297
    } else if idx == 3 {
        512
    } else if idx == 4 {
        936
    } else if idx == 6 {
        -94
    } else if idx == 7 {
        -281
    } else if idx == 8 {
        -297
    } else if idx == 9 {
        -512
    } else if idx == 10 {
        -936
    } else {
        0
    }
}

/// How much a piece kind counts towards the game phase (24 with all pieces on the board).
pub open spec fn phase_value_spec(p: nat) -> i16 {
    if p == 1 || p == 2 {
        1
    } else if p == 3 {
        2
    } else if p == 4 {
        4
    } else {
        0
    }
}

pub fn phase_value(p: usize) -> (r: i16)
    ensures
        r == phase_value_spec(p as nat),
{
    if p == 1 || p == 2 {
        1
    } else if p == 3 {
        2
    } else if p == 4 {
        4
    } else {
        0
    }
}

/// The value of piece index `idx` on `sq` in the middle game (`mg`) or end
/// game, plus the material value of its kind `kind` (as a white piece).
pub open spec fn square_score(idx: nat, kind: nat, sq: nat, mg: bool) -> int {
    if mg {
        mg_spec(idx, sq) + mg_value_spec(kind)
    } else {
        eg_spec(idx, sq) + eg_value_spec(kind)
    }
}

/// The sum of `square_score` over the squares `sqs`.
pub open spec fn squares_score(idx: nat, kind: nat, sqs: Seq<nat>, mg: bool) -> int
    decreases sqs.len(),
{
    if sqs.len() == 0 {
        0
    } else {
        squares_score(idx, kind, sqs.drop_last(), mg) + square_score(idx, kind, sqs.last(), mg)
    }
}

/// The score of the first `k` piece kinds of side `side` on the boards `bbs`.
pub open spec fn side_score(bbs: Seq<u64>, side: nat, k: nat, mg: bool) -> int
    decreases k,
{
    if k == 0 {
        0
    } else {
        side_score(bbs, side, (k - 1) as nat, mg) + squares_score(
            side * 6 + (k - 1) as nat,
            (k - 1) as nat,
            bits_asc(bbs[side * 6 + k - 1]),
            mg,
        )
    }
}

/// White's score minus black's: the evaluation of the boards `bbs` from white's view.
pub open spec fn score_total(bbs: Seq<u64>, mg: bool) -> int {
    side_score(bbs, 0, 6, mg) - side_score(bbs, 1, 6, mg)
}

/// At most `m` of `x`.
pub open spec fn cap(x: nat, m: nat) -> nat {
    if x < m { x } else { m }
}

/// The phase weight of the side whose boards start at `o`: minor pieces count
/// 1 (at most two each), rooks 2 (at most two), a queen 4 (at most one).
pub open spec fn side_phase(bbs: Seq<u64>, o: int) -> nat {
    cap(popcount(bbs[o + 4]), 1) * 4 + cap(popcount(bbs[o + 1]), 2) + cap(popcount(bbs[o + 3]), 2) * 2
        + cap(popcount(bbs[o + 2]), 2)
}

/// How far the game is from the end game, for both sides (24 at the start).
pub open spec fn phase_spec(bbs: Seq<u64>) -> nat {
    side_phase(bbs, 0) + side_phase(bbs, 6)
}

/// Integer division rounding towards zero.
pub open spec fn div_trunc(a: int, b: int) -> int {
    if a >= 0 {
        a / b
    } else {
        -((-a) / b)
    }
}

/// The blended evaluation of a position from the view of the side to move.
pub open spec fn eval_spec(phase: i16, mg: i16, eg: i16, turn: Color) -> i16 {
    let e = div_trunc(phase * mg + (24 - phase) * eg, 24);
    (if turn == Color::White { e } else { -e }) as i16
}

/// The blend of the evaluation fits the engine's 32-bit arithmetic.
pub open spec fn eval_fits(phase: i16, mg: i16, eg: i16) -> bool {
    i32::MIN <= phase * mg + (24 - phase) * eg <= i32::MAX
}

fn squares_sum(idx: usize, kind: usize, bb: u64, mg: bool) -> (r: i32)
    requires
        idx < 12,
        kind < 6,
    ensures
        r == squares_score(idx as nat, kind as nat, bits_asc(bb), mg),
        -64 * 65536 <= r <= 64 * 65536,
{
    let mut rest = bb;
    let mut acc: i32 = 0;
    let ghost mut done: Seq<nat> = Seq::empty();
    proof {
        lemma_popcount_bound(bb);
        assert(done + bits_asc(bb) =~= bits_asc(bb));
    }
    while rest != 0
        invariant
            idx < 12,
            kind < 6,
            done + bits_asc(rest) == bits_asc(bb),
            bits_asc(bb).len() <= 64,
            acc == squares_score(idx as nat, kind as nat, done, mg),
            -(done.len() as int) * 65536 <= acc <= done.len() * 65536,
        decreases rest,
    {
        proof {
            lemma_drop_lsb_smaller(rest);
            lemma_lsb_facts(rest);
            assert(done.push(lsb_num(rest)) + bits_asc(drop_lsb(rest)) =~= done + bits_asc(rest));
            assert(done.push(lsb_num(rest)).drop_last() =~= done);
        }
        let sq = Bitboard(rest).lsb();
        let v: i32 = if mg {
            mg_table(idx, sq.index()) as i32 + mg_value(kind) as i32
        } else {
            eg_table(idx, sq.index()) as i32 + eg_value(kind) as i32
        };
        acc = acc + v;
        proof {
            done = done.push(lsb_num(rest));
        }
        rest = rest & (rest - 1);
    }
    assert(done =~= bits_asc(bb));
    acc
}

impl Board {
    /// The sum over side `side`'s pieces of their scores.
    fn side_sum(&self, side: usize, mg: bool) -> (r: i32)
        requires
            side < 2,
        ensures
            r == side_score(self.piece_bb@, side as nat, 6, mg),
            -6 * 64 * 65536 <= r <= 6 * 64 * 65536,
    {
        let mut acc: i32 = 0;
        let mut i: usize = 0;
        while i < 6
            invariant
                side < 2,
                i <= 6,
                acc == side_score(self.piece_bb@, side as nat, i as nat, mg),
                -(i as int) * 64 * 65536 <= acc <= i * 64 * 65536,
            decreases 6 - i,
        {
            let v = squares_sum(side * 6 + i, i, self.piece_bb[side * 6 + i], mg);
            acc = acc + v;
            i += 1;
        }
        acc
    }

    /// The middle game evaluation from white's view, computed from scratch.
    pub fn calculate_mg(&self) -> (r: i16)
        ensures
            r == score_total(self.piece_bb@, true) as i16,
    {
        let w = self.side_sum(0, true);
        let b = self.side_sum(1, true);
        (w - b) as i16
    }

    /// The end game evaluation from white's view, computed from scratch.
    pub fn calculate_eg(&self) -> (r: i16)
        ensures
            r == score_total(self.piece_bb@, false) as i16,
    {
        let w = self.side_sum(0, false);
        let b = self.side_sum(1, false);
        (w - b) as i16
    }

    fn side_phase_of(&self, o: usize) -> (r: i16)
        requires
            o == 0 || o == 6,
        ensures
            r == side_phase(self.piece_bb@, o as int),
            0 <= r <= 12,
    {
        let q = Bitboard(self.piece_bb[o + 4]).count_ones();
        let bi = Bitboard(self.piece_bb[o + 1]).count_ones();
        let r = Bitboard(self.piece_bb[o + 3]).count_ones();
        let n = Bitboard(self.piece_bb[o + 2]).count_ones();
        let qv: i16 = if q < 1 { q as i16 } else { 1 };
        let bv: i16 = if bi < 2 { bi as i16 } else { 2 };
        let rv: i16 = if r < 2 { r as i16 } else { 2 };
        let nv: i16 = if n < 2 { n as i16 } else { 2 };
        qv * phase_value(4) + bv * phase_value(1) + rv * phase_value(3) + nv * phase_value(2)
    }

    /// The game phase, computed from scratch.
    pub fn calc_phase(&self) -> (r: i16)
        ensures
            r == phase_spec(self.piece_bb@),
            0 <= r <= 24,
    {
        let w = self.side_phase_of(0);
        let b = self.side_phase_of(6);
        w + b
    }

    /// The evaluation from the view of the side to move, blending the middle
    /// and end game scores by the game phase (24 is all middle game).
    pub fn eval(&self) -> (r: i16)
        requires
            eval_fits(self.game_phase, self.eval_mg, self.eval_eg),
        ensures
            r == eval_spec(self.game_phase, self.eval_mg, self.eval_eg, self.turn),
    {
        let phase = self.game_phase as i32;
        let mg = self.eval_mg as i32;
        let eg = self.eval_eg as i32;
        assert(-1073741824 <= phase * mg <= 1073741824) by (nonlinear_arith)
            requires
                -32768 <= phase <= 32767,
                -32768 <= mg <= 32767,
        ;
        assert(-1074528256 <= (24 - phase) * eg <= 1074528256) by (nonlinear_arith)
            requires
                -32768 <= phase <= 32767,
                -32768 <= eg <= 32767,
        ;
        let e = (phase * mg + (24 - phase) * eg) / 24;
        if self.turn == Color::White {
            e as i16
        } else {
            (-e) as i16
        }
    }

    /// The score of a position without moves: mated when in check, else a draw.
    pub fn result(&self, in_check: bool) -> (r: i16)
        ensures
            r == (if in_check { CHECK_MATE } else { 0 }),
    {
        if in_check {
            CHECK_MATE
        } else {
            0
        }
    }
}

/// The evaluation blends the two scores by phase: at the full phase (24)
/// it is the middle game score and at phase 0 the end game score, each from
/// the side to move's view (White as is, Black negated); in between, White's
/// view lies between the two scores.
pub proof fn law_eval_blend(mg: i16, eg: i16, phase: i16)
    ensures
        eval_spec(24, mg, eg, Color::White) == mg,
        mg != i16::MIN ==> eval_spec(24, mg, eg, Color::Black) == -mg,
        eval_spec(0, mg, eg, Color::White) == eg,
        eg != i16::MIN ==> eval_spec(0, mg, eg, Color::Black) == -eg,
        0 <= phase <= 24 ==> {
            let lo = if mg < eg { mg } else { eg };
            let hi = if mg < eg { eg } else { mg };
            lo <= eval_spec(phase, mg, eg, Color::White) <= hi
        },
{
    assert(div_trunc(24 * mg + 0 * eg, 24) == mg);
    assert(div_trunc(0 * mg + 24 * eg, 24) == eg);
    if 0 <= phase <= 24 {
        let lo: int = if mg < eg { mg as int } else { eg as int };
        let hi: int = if mg < eg { eg as int } else { mg as int };
        let s = phase * mg + (24 - phase) * eg;
        assert(24 * lo <= s <= 24 * hi) by (nonlinear_arith)
            requires
                0 <= phase <= 24,
                lo <= mg <= hi,
                lo <= eg <= hi,
                s == phase * mg + (24 - phase) * eg,
        ;
        assert(lo <= div_trunc(s, 24) <= hi);
    }
}

} // verus!
