use vstd::prelude::*;
use crate::chess::square::Square;
use crate::chess::constants::{Color, Piece};
use crate::chess::board::consistency::consistent;
use crate::chess::board::{Board, Position};
use crate::chess::board::bitboard::{
    Bitboard, bit, lsb_num, drop_lsb, lemma_drop_lsb_smaller, knight_spread, knight_spread_of,
    king_pattern, king_pattern_spec, knight_pattern, knight_pattern_spec, pawn_attacks,
    pawn_attacks_spec, straight_attacks, diagonal_attacks, straight_lines, diag_lines, FILE_A,
    FILE_H,
};

verus! {

/// Is square `sq` attacked by a piece of side `side` in position `p`?
#[verifier::opaque]
pub open spec fn attacked(p: Position, side: nat, sq: nat) -> bool {
    let off = (side * 6) as int;
    ||| pawn_attacks_spec((1 - side) as nat, sq) & p.piece_bb[off] != 0
    ||| knight_pattern_spec(sq) & p.piece_bb[off + 2] != 0
    ||| king_pattern_spec(sq) & p.piece_bb[off + 5] != 0
    ||| diagonal_attacks(sq, p.occupied) & (p.piece_bb[off + 4] | p.piece_bb[off + 1]) != 0
    ||| straight_attacks(sq, p.occupied) & (p.piece_bb[off + 4] | p.piece_bb[off + 3]) != 0
}

/// One step "forward" for the pawns of side `side`.
pub open spec fn shift_up(side: nat, b: u64) -> u64 {
    if side == 0 {
        b << 8u64
    } else {
        b >> 8u64
    }
}

pub fn shift_up_exec(side: usize, b: u64) -> (r: u64)
    ensures
        r == shift_up(side as nat, b),
{
    if side == 0 {
        b << 8u64
    } else {
        b >> 8u64
    }
}

/// The union of the attacks of sliders on the squares of `b`: rook-like when
/// `straight`, bishop-like otherwise.
pub open spec fn slider_union(b: u64, occ: u64, straight: bool) -> u64
    decreases b,
{
    if b == 0 {
        0
    } else {
        proof {
            lemma_drop_lsb_smaller(b);
        }
        let here = if straight {
            straight_attacks(lsb_num(b), occ)
        } else {
            diagonal_attacks(lsb_num(b), occ)
        };
        here | slider_union(drop_lsb(b), occ, straight)
    }
}

impl Board {
    /// The squares the knights of `side` attack that `side` does not occupy.
    pub fn knight_pattern(&self, side: Color) -> (r: Bitboard)
        requires
            side.is_side(),
        ensures
            r.0 == knight_spread(self.bb(side.idx() * 6 + 2)) & !self.color_bb@[side.idx() as int],
    {
        let board = self.piece_bb[side.offset() + 2];
        Bitboard(knight_spread_of(board) & !self.color_bb[side.index()])
    }

    pub fn knight_pseudolegals(&self, side: Color) -> (r: Bitboard)
        requires
            side.is_side(),
        ensures
            r.0 == knight_spread(self.bb(side.idx() * 6 + 2)) & !self.color_bb@[side.idx() as int],
    {
        let p = self.knight_pattern(side);
        let own = self.color_bb[side.index()];
        proof {
            let k = knight_spread(self.bb(side.idx() * 6 + 2));
            assert((k & !own) & !own == k & !own) by (bit_vector);
        }
        Bitboard(p.0 & !own)
    }

    /// The squares around the king of `side` (the lowest one if there are several).
    pub fn king_pattern(&self, side: Color) -> (r: Bitboard)
        requires
            side.is_side(),
            self.bb(side.idx() * 6 + 5) != 0,
        ensures
            r.0 == king_pattern_spec(lsb_num(self.bb(side.idx() * 6 + 5))),
    {
        let board = Bitboard(self.piece_bb[side.offset() + 5]);
        king_pattern(board.lsb())
    }

    pub fn king_pseudolegals(&self, side: Color) -> (r: Bitboard)
        requires
            side.is_side(),
            self.bb(side.idx() * 6 + 5) != 0,
        ensures
            r.0 == king_pattern_spec(lsb_num(self.bb(side.idx() * 6 + 5))) & !self.color_bb@[side.idx() as int],
    {
        Bitboard(self.king_pattern(side).0 & !self.color_bb[side.index()])
    }

    /// The empty squares one step ahead of the pawns of `side`.
    pub fn pawn_single_push(&self, side: Color) -> (r: Bitboard)
        requires
            side.is_side(),
        ensures
            r.0 == shift_up(side.idx(), self.bb(side.idx() * 6)) & !self.occupied,
    {
        let board = self.piece_bb[side.offset()];
        Bitboard(shift_up_exec(side.index(), board) & !self.occupied)
    }

    /// The empty squares one step ahead of the single pushes of `side`.
    pub fn pawn_double_push(&self, side: Color) -> (r: Bitboard)
        requires
            side.is_side(),
        ensures
            r.0 == shift_up(side.idx(), shift_up(side.idx(), self.bb(side.idx() * 6)) & !self.occupied) & !self.occupied,
    {
        let board = self.pawn_single_push(side);
        Bitboard(shift_up_exec(side.index(), board.0) & !self.occupied)
    }

    /// The squares white pawns can capture on (black pieces or the en passant square).
    pub fn w_pawn_attacks(&self) -> (r: Bitboard)
        ensures
            r.0 == ((((self.piece_bb@[0] << 8u64) << 1u64) & !FILE_A) & (self.color_bb@[1] | self.en_passant))
                | ((((self.piece_bb@[0] << 8u64) >> 1u64) & !FILE_H) & (self.color_bb@[1] | self.en_passant)),
    {
        let forward = self.piece_bb[0] << 8u64;
        let targets = self.color_bb[1] | self.en_passant;
        let left_side = (forward << 1u64) & !FILE_A;
        let right_side = (forward >> 1u64) & !FILE_H;
        proof {
            let a = left_side & targets;
            assert(0u64 | a == a) by (bit_vector);
        }
        Bitboard((left_side & targets) | (right_side & targets))
    }

    /// The squares black pawns can capture on (white pieces or the en passant square).
    pub fn b_pawn_attacks(&self) -> (r: Bitboard)
        ensures
            r.0 == ((((self.piece_bb@[6] >> 8u64) << 1u64) & !FILE_A) & (self.color_bb@[0] | self.en_passant))
                | ((((self.piece_bb@[6] >> 8u64) >> 1u64) & !FILE_H) & (self.color_bb@[0] | self.en_passant)),
    {
        let forward = self.piece_bb[6] >> 8u64;
        let targets = self.color_bb[0] | self.en_passant;
        let left_side = (forward << 1u64) & !FILE_A;
        let right_side = (forward >> 1u64) & !FILE_H;
        Bitboard((left_side & targets) | (right_side & targets))
    }

    /// The squares the rooks of `side` attack that `side` does not occupy.
    pub fn rook_pseudolegals(&self, side: Color) -> (r: Bitboard)
        requires
            side.is_side(),
        ensures
            r.0 == slider_union(self.bb(side.idx() * 6 + 3), self.occupied, true) & !self.color_bb@[side.idx() as int],
    {
        let r = self.slider_moves(self.piece_bb[side.offset() + 3], true);
        Bitboard(r & !self.color_bb[side.index()])
    }

    /// The squares the bishops of `side` attack that `side` does not occupy.
    pub fn bishop_pseudolegals(&self, side: Color) -> (r: Bitboard)
        requires
            side.is_side(),
        ensures
            r.0 == slider_union(self.bb(side.idx() * 6 + 1), self.occupied, false) & !self.color_bb@[side.idx() as int],
    {
        let r = self.slider_moves(self.piece_bb[side.offset() + 1], false);
        Bitboard(r & !self.color_bb[side.index()])
    }

    /// The union of the slider attacks from the squares of `pieces`.
    fn slider_moves(&self, pieces: u64, straight: bool) -> (r: u64)
        ensures
            r == slider_union(pieces, self.occupied, straight),
    {
        let mut rest = pieces;
        let mut moves: u64 = 0;
        proof {
            crate::chess::board::bitboard::lemma_zero_or(slider_union(pieces, self.occupied, straight));
        }
        while rest != 0
            invariant
                moves | slider_union(rest, self.occupied, straight) == slider_union(pieces, self.occupied, straight),
            decreases rest,
        {
            let b = Bitboard(rest);
            let sq = b.lsb();
            let here = if straight {
                straight_lines(sq, self.occupied).0
            } else {
                diag_lines(sq, self.occupied).0
            };
            proof {
                lemma_drop_lsb_smaller(rest);
                crate::chess::board::bitboard::lemma_or_assoc(moves, here, slider_union(drop_lsb(rest), self.occupied, straight));
            }
            moves = moves | here;
            rest = rest & (rest - 1);
        }
        proof {
            crate::chess::board::bitboard::lemma_zero_or(moves);
        }
        moves
    }

    /// The squares a bishop on `sq` attacks on this board.
    pub fn diag_lines_w_bound(&self, sq: Square) -> (r: Bitboard)
        requires
            sq.num() < 64,
        ensures
            r.0 == diagonal_attacks(sq.num(), self.occupied),
    {
        diag_lines(sq, self.occupied)
    }

    /// The squares a rook on `sq` attacks on this board.
    pub fn straight_lines_w_bound(&self, sq: Square) -> (r: Bitboard)
        requires
            sq.num() < 64,
        ensures
            r.0 == straight_attacks(sq.num(), self.occupied),
    {
        straight_lines(sq, self.occupied)
    }

    /// Is `sq` attacked by a piece of `side`?
    pub fn sq_attacked_by(&self, side: Color, sq: Square) -> (r: bool)
        requires
            side.is_side(),
            sq.num() < 64,
        ensures
            r == attacked(self.pos(), side.idx(), sq.num()),
    {
        proof {
            reveal(attacked);
        }
        let off = side.offset();
        let attacker_pawns = self.piece_bb[off];
        let opp = 1 - side.index();
        if pawn_attacks(opp, sq).0 & attacker_pawns != 0 {
            return true;
        }
        let attacker_knights = self.piece_bb[off + 2];
        if knight_pattern(sq).0 & attacker_knights != 0 {
            return true;
        }
        let attacking_king = self.piece_bb[off + 5];
        if king_pattern(sq).0 & attacking_king != 0 {
            return true;
        }
        let attack_bishop_queens = self.piece_bb[off + 4] | self.piece_bb[off + 1];
        if self.diag_lines_w_bound(sq).0 & attack_bishop_queens != 0 {
            return true;
        }
        let attack_rook_queens = self.piece_bb[off + 4] | self.piece_bb[off + 3];
        if self.straight_lines_w_bound(sq).0 & attack_rook_queens != 0 {
            return true;
        }
        false
    }

    /// The square of the king of `side` (the lowest one; `UNDEFINED` without a
    /// king). Where the boards and the piece array are in step, a king of
    /// `side` stands there.
    pub fn get_king_square(&self, side: Color) -> (s: Square)
        requires
            side.is_side(),
        ensures
            s == Square::of(lsb_num(self.bb(side.idx() * 6 + 5)) as int),
            self.bb(side.idx() * 6 + 5) != 0 ==> s.num() < 64 && bit(self.bb(side.idx() * 6 + 5), s.num() as int),
            self.bb(side.idx() * 6 + 5) != 0 && consistent(self.pos()) ==> self.piece@[s.num() as int] == Piece::King,
    {
        let r = Bitboard(self.piece_bb[side.offset() + 5]).lsb();
        proof {
            let k = self.bb(side.idx() * 6 + 5);
            if k != 0 {
                Bitboard(k).lemma_lsb_square();
                if consistent(self.pos()) {
                    let sq = lsb_num(k) as int;
                    assert(bit(self.pos().piece_bb[(side.idx() * 6 + 5) as int], sq));
                }
            }
        }
        r
    }

    /// Is the side to move in check?
    pub fn in_check(&self) -> (r: bool)
        requires
            self.turn.is_side(),
            self.bb(self.turn.idx() * 6 + 5) != 0,
        ensures
            r == attacked(self.pos(), self.turn.other().idx(), lsb_num(self.bb(self.turn.idx() * 6 + 5))),
    {
        let ksq = self.get_king_square(self.turn);
        proof {
            Bitboard(self.bb(self.turn.idx() * 6 + 5)).lemma_lsb_square();
        }
        self.sq_attacked_by(self.turn.opposite(), ksq)
    }
}

} // verus!
