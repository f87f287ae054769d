use vstd::prelude::*;
use crate::chess::square::{Square, lemma_square_of};
use crate::chess::constants::{Piece, Color};
use crate::chess::chess_move::Move;
use crate::chess::board::Board;
use crate::chess::board::bitboard::{
    Bitboard, bit, lsb_num, knight_pattern, knight_pattern_spec, king_pattern, king_pattern_spec,
    pawn_attacks, pawn_attacks_spec, straight_attacks, diagonal_attacks, straight_lines, diag_lines,
};

verus! {

/// Every piece of either side on the boards `bbs` that attacks `sq` when the
/// occupied squares are `occ`.
pub open spec fn attackers_spec(bbs: Seq<u64>, sq: nat, occ: u64) -> u64 {
    (pawn_attacks_spec(1, sq) & bbs[0]) | (pawn_attacks_spec(0, sq) & bbs[6]) | (knight_pattern_spec(sq) & (bbs[2]
        | bbs[8])) | (king_pattern_spec(sq) & (bbs[5] | bbs[11])) | (diagonal_attacks(sq, occ) & (bbs[1] | bbs[4]
        | bbs[7] | bbs[10])) | (straight_attacks(sq, occ) & (bbs[3] | bbs[4] | bbs[9] | bbs[10]))
}

/// The sliders of either side that attack `to` through the occupied squares
/// `occ`.
pub open spec fn slider_attackers(bbs: Seq<u64>, to: nat, occ: u64) -> u64 {
    (diagonal_attacks(to, occ) & (bbs[1] | bbs[4] | bbs[7] | bbs[10])) | (straight_attacks(to, occ) & (bbs[3]
        | bbs[4] | bbs[9] | bbs[10]))
}

/// The least valuable attacker of side `side` among `mask`, trying the piece
/// kinds from `kind` on (pawn, bishop, knight, rook, queen, king): the lowest
/// square of the first kind present; 64 when there is none.
pub open spec fn lva_spec(bbs: Seq<u64>, side: nat, mask: u64, kind: nat) -> nat
    decreases 6 - kind,
{
    if kind >= 6 {
        64
    } else if bbs[(side * 6 + kind) as int] & mask != 0 {
        lsb_num(bbs[(side * 6 + kind) as int] & mask)
    } else {
        lva_spec(bbs, side, mask, kind + 1)
    }
}

impl Board {
    /// Every piece of either side that attacks `sq`.
    pub fn attack_mask(&self, sq: Square) -> (r: u64)
        requires
            sq.num() < 64,
        ensures
            r == attackers_spec(self.piece_bb@, sq.num(), self.occupied),
    {
        let bbs = &self.piece_bb;
        (pawn_attacks(1, sq).0 & bbs[0]) | (pawn_attacks(0, sq).0 & bbs[6]) | (knight_pattern(sq).0 & (bbs[2]
            | bbs[8])) | (king_pattern(sq).0 & (bbs[5] | bbs[11])) | (diag_lines(sq, self.occupied).0 & (bbs[1]
            | bbs[4] | bbs[7] | bbs[10])) | (straight_lines(sq, self.occupied).0 & (bbs[3] | bbs[4] | bbs[9]
            | bbs[10]))
    }

    /// The square of the least valuable attacker of `side` among `mask`
    /// (`UNDEFINED` when there is none).
    pub fn get_lva(&self, side: Color, mask: u64) -> (s: Square)
        requires
            side.is_side(),
        ensures
            s.num() == lva_spec(self.piece_bb@, side.idx(), mask, 0),
    {
        let off = side.offset();
        let mut kind: usize = 0;
        while kind < 6
            invariant
                kind <= 6,
                side.is_side(),
                off == side.idx() * 6,
                lva_spec(self.piece_bb@, side.idx(), mask, 0) == lva_spec(self.piece_bb@, side.idx(), mask, kind as nat),
            decreases 6 - kind,
        {
            let b = self.piece_bb[off + kind] & mask;
            if b != 0 {
                proof {
                    Bitboard(b).lemma_lsb_square();
                }
                return Bitboard(b).lsb();
            }
            kind += 1;
        }
        Square::UNDEFINED
    }

    /// The attackers of `to` after the pieces on `already` have left (and the
    /// occupied squares are `occ`): `mask` with the sliders now seeing `to`.
    pub fn update_attack_board(&self, to: Square, mask: u64, occ: u64, already: u64) -> (r: u64)
        requires
            to.num() < 64,
        ensures
            r == (mask | slider_attackers(self.piece_bb@, to.num(), occ)) & !already,
    {
        let bbs = &self.piece_bb;
        let sliders = (diag_lines(to, occ).0 & (bbs[1] | bbs[4] | bbs[7] | bbs[10])) | (straight_lines(to, occ).0
            & (bbs[3] | bbs[4] | bbs[9] | bbs[10]));
        (mask | sliders) & !already
    }
}

/// The exchange value of a piece of kind index `k` (pawn 1 to king 6 units,
/// nothing for an empty square).
pub open spec fn see_value(k: nat) -> int {
    if k < 6 { ((k + 1) * 131072) as int } else { 0 }
}

pub fn see_value_exec(k: usize) -> (r: i32)
    ensures
        r == see_value(k as nat),
        0 <= r <= 786432,
{
    if k < 6 {
        (k as i32 + 1) * 131072
    } else {
        0
    }
}

/// The running gains of the capture sequence on `to`: side `side` takes with
/// its least valuable attacker among `mask`, gaining the value of the piece
/// it takes minus the previous gain `prev`; the attacker leaves the
/// occupied squares `occ`, sliders behind it join, and the other side
/// answers; at most `32 - k` more steps.
pub open spec fn see_gains(
    bbs: Seq<u64>,
    piece: Seq<Piece>,
    to: nat,
    mask: u64,
    side: nat,
    occ: u64,
    already: u64,
    prev: int,
    k: nat,
) -> Seq<int>
    decreases 32 - k,
{
    if k >= 32 || mask == 0 {
        Seq::empty()
    } else {
        let a = lva_spec(bbs, side, mask, 0);
        if a >= 64 {
            Seq::empty()
        } else {
            let g = see_value(piece[a as int].idx()) - prev;
            let b = 1u64 << (a as u64);
            let occ2 = occ ^ b;
            let already2 = already ^ b;
            let mask2 = ((mask ^ b) | slider_attackers(bbs, to, occ2)) & !already2;
            seq![g] + see_gains(bbs, piece, to, mask2, (1 - side) as nat, occ2, already2, g, k + 1)
        }
    }
}

/// The best outcome from step `i` of the gains `g` on, each side stopping
/// when going on would lose more.
pub open spec fn see_fold(g: Seq<int>, i: int) -> int
    decreases g.len() - i,
{
    if i >= g.len() - 1 {
        g[i]
    } else {
        let rest = see_fold(g, i + 1);
        if g[i] >= -rest { g[i] } else { -rest }
    }
}

} // verus!
