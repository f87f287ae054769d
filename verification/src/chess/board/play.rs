use vstd::prelude::*;
use crate::chess::square::Square;
use crate::chess::constants::{Piece, Color, castle_rook_squares, castling_table};
use crate::chess::chess_move::Move;
use crate::chess::board::{Board, Position, UndoInfo, GAME_POSITIONS_SIZE, occurrences};
use crate::chess::board::bitboard::{Bitboard, bit};
use crate::chess::board::hash::Keys;
use crate::chess::board::make_move::{apply_move, undo_of, move_shape_ok, unmake_shape_ok, ep_key, lemma_apply_shape, mover_safe, sp_finish};
use crate::chess::board::laws::{pos_wf, move_fits, ep_victim};

verus! {

/// The position after the side to move passes: the other side is to move, no
/// en passant square, the hash updated accordingly.
pub open spec fn null_apply(p: Position, z: Keys) -> Position {
    Position {
        turn: p.turn.other(),
        en_passant: 0,
        hash: p.hash ^ ep_key(z, p.en_passant) ^ z.side_to_move,
        ..p
    }
}

/// The undo record of passing in `p`.
pub open spec fn null_undo(p: Position) -> UndoInfo {
    UndoInfo {
        castling_rights: p.castling,
        en_passant_square: Bitboard(p.en_passant),
        halfmove_clock: p.halfmoves,
        hash: p.hash,
        captured_piece: Piece::Empty,
        last_mg: p.mg,
        last_eg: p.eg,
        last_phase: p.phase,
    }
}

/// The current position already occurred among the positions since the last
/// capture or pawn move, or a hundred half moves passed without one.
pub open spec fn will_draw_spec(halfmoves: u16, hash: u64, positions: Seq<u64>) -> bool {
    let len = positions.len();
    halfmoves > 99 || occurrences(
        positions.subrange(if halfmoves >= len { 0 } else { len - halfmoves }, len as int),
        hash,
    ) > 1
}

impl Board {
    /// Whether `m` has the shape of a move of the side to move (see `move_fits`).
    pub fn fits(&self, m: Move) -> (r: bool)
        requires
            self.turn.is_side(),
        ensures
            r == move_fits(self.pos(), m),
    {
        if !self.can_play(m) {
            return false;
        }
        let from = m.from().index();
        let to = m.to().index();
        let flags = m.flags();
        let moved = self.piece[from];
        if from == to || moved == Piece::Empty {
            return false;
        }
        if flags >= 8 && moved != Piece::Pawn {
            return false;
        }
        if flags == 5 {
            let victim: usize = if 40 <= to && to < 48 { to - 8 } else { to + 8 };
            if self.piece[victim] != Piece::Pawn || victim == from {
                return false;
            }
        }
        if flags == 2 || flags == 3 {
            let c = castling_table(self.turn.index(), if flags == 3 { 1 } else { 0 });
            let rd = c.rook_disappears.index();
            let ra = c.rook_appears.index();
            if rd == from || rd == to || ra == from || ra == to || self.piece[rd] != Piece::Rook || self.piece[ra]
                != Piece::Empty {
                return false;
            }
        }
        true
    }

    /// The piece on `square` as a piece board index (white pawn 0 to black
    /// king 11): black when the square is on black's colour board.
    pub fn get_piece_w_color(&self, square: Square) -> (r: usize)
        requires
            square.num() < 64,
        ensures
            r == self.piece@[square.num() as int].idx() + if bit(self.color_bb@[1], square.num() as int) { 6nat } else { 0nat },
    {
        let n = square.u8() as u64;
        let b = self.color_bb[1];
        assert(((b >> n) & 1u64 == 1u64) == (b & (1u64 << n) != 0)) by (bit_vector)
            requires
                n < 64,
        ;
        let black = b & (1u64 << square.u8()) != 0;
        self.piece[square.index()].index() + if black { 6 } else { 0 }
    }

    /// The kind index of the piece that capture `m` takes (a pawn for en passant).
    pub fn get_captured(&self, m: Move) -> (r: usize)
        ensures
            r == (if m.flag_bits() == 5 { 0 } else { self.piece@[m.to_num() as int].idx() }),
    {
        if m.flags() == 5 {
            0
        } else {
            self.piece[m.to().index()].index()
        }
    }

    /// Whether the side to move has nothing but its king and pawns.
    pub fn only_king_and_pawns(&self) -> (r: bool)
        requires
            self.turn.is_side(),
        ensures
            r == {
                let o = (self.turn.idx() * 6) as int;
                self.piece_bb@[o + 1] == 0 && self.piece_bb@[o + 2] == 0 && self.piece_bb@[o + 3] == 0
                    && self.piece_bb@[o + 4] == 0
            },
    {
        let o = self.turn.offset();
        self.piece_bb[o + 1] == 0 && self.piece_bb[o + 2] == 0 && self.piece_bb[o + 3] == 0 && self.piece_bb[o + 4]
            == 0
    }

    /// Whether the position is drawn for the search: repeated since the last
    /// capture or pawn move, or past the fifty-move limit.
    pub fn position_will_draw(&self) -> (r: bool)
        ensures
            r == will_draw_spec(self.halfmoves, self.hash, self.positions@),
    {
        let halfmoves = self.halfmoves as u64;
        if halfmoves > 99 {
            return true;
        }
        let recent = self.positions.half_move_iter(halfmoves);
        let current = self.hash;
        let mut count: u64 = 0;
        let mut i: usize = 0;
        while i < recent.len()
            invariant
                i <= recent@.len(),
                count == occurrences(recent@.subrange(0, i as int), current),
                count <= i,
            decreases recent.len() - i,
        {
            assert(recent@.subrange(0, i + 1).drop_last() =~= recent@.subrange(0, i as int));
            if recent[i] == current {
                count += 1;
            }
            i += 1;
        }
        assert(recent@.subrange(0, i as int) =~= recent@);
        count > 1
    }

    /// Passes the move to the other side (for null-move pruning).
    pub fn make_nullmove(&mut self)
        requires
            old(self).wf(),
            old(self).undo_stack@.len() < GAME_POSITIONS_SIZE,
            old(self).positions@.len() < GAME_POSITIONS_SIZE,
        ensures
            final(self).wf(),
            final(self).pos() == null_apply(old(self).pos(), old(self).zobrist@),
            final(self).undo_stack@ == old(self).undo_stack@.push(null_undo(old(self).pos())),
            final(self).positions@ == old(self).positions@.push(final(self).hash),
            final(self).zobrist == old(self).zobrist,
    {
        let info = UndoInfo {
            castling_rights: self.castling_rights,
            en_passant_square: Bitboard(self.en_passant),
            halfmove_clock: self.halfmoves,
            hash: self.hash,
            captured_piece: Piece::Empty,
            last_mg: self.eval_mg,
            last_eg: self.eval_eg,
            last_phase: self.game_phase,
        };
        self.undo_stack.push(info);
        self.update_en_passant_hash();
        self.en_passant = 0;
        self.update_move_hash();
        self.turn = self.turn.opposite();
        self.positions.push(self.hash);
    }

    /// Takes back a pass.
    pub fn unmake_nullmove(&mut self)
        requires
            old(self).turn.is_side(),
            old(self).undo_stack@.len() > 0,
            old(self).positions@.len() > 0,
        ensures
            final(self).pos() == (Position {
                turn: old(self).turn.other(),
                en_passant: old(self).undo_stack@.last().en_passant_square.0,
                hash: old(self).undo_stack@.last().hash,
                ..old(self).pos()
            }),
            final(self).undo_stack@ == old(self).undo_stack@.drop_last(),
            final(self).positions@ == old(self).positions@.drop_last(),
            final(self).zobrist == old(self).zobrist,
            forall|p0: Position|
                #![trigger null_apply(p0, old(self).zobrist@)]
                old(self).pos() == null_apply(p0, old(self).zobrist@) && old(self).undo_stack@.last() == null_undo(p0)
                    && p0.turn.is_side() ==> final(self).pos() == p0,
    {
        let info = self.undo_stack.pop();
        self.turn = self.turn.opposite();
        self.en_passant = info.en_passant_square.0;
        self.hash = info.hash;
        self.positions.pop();
    }
}

/// `b` is `p` after the move `m` was played on it (with the evaluation kept
/// up to date), with the undo record and position hash recorded.
pub open spec fn played(b: Board, p: Position, m: Move) -> bool {
    &&& pos_wf(p)
    &&& move_fits(p, m)
    &&& b.wf()
    &&& b.pos() == apply_move(p, b.zobrist@, m, true)
    &&& b.undo_stack@.len() > 0
    &&& b.undo_stack@.last() == undo_of(p, m)
    &&& b.positions@.len() > 0
    &&& unmake_shape_ok(b.pos(), p.turn.idx(), m, undo_of(p, m))
    &&& b.turn.other() == p.turn
}

/// After any move the occupied board is the union of the colour boards.
proof fn lemma_apply_occupied(p: Position, z: Keys, m: Move, eval: bool)
    ensures
        apply_move(p, z, m, eval).occupied == apply_move(p, z, m, eval).color_bb[0] | apply_move(p, z, m, eval).color_bb[1],
{
    reveal(sp_finish);
}

impl Board {
    /// Plays `m` for the search when it fits the board and is legal and the
    /// board stays sound; otherwise leaves the board as it was.
    pub fn try_play(&mut self, m: Move) -> (r: bool)
        requires
            old(self).wf(),
            old(self).undo_stack@.len() < GAME_POSITIONS_SIZE,
            old(self).positions@.len() < GAME_POSITIONS_SIZE,
        ensures
            r == (move_fits(old(self).pos(), m) && mover_safe(apply_move(old(self).pos(), old(self).zobrist@, m, true))
                && apply_move(old(self).pos(), old(self).zobrist@, m, true).castling < 16),
            r ==> played(*final(self), old(self).pos(), m),
            r ==> final(self).undo_stack@.drop_last() == old(self).undo_stack@,
            r ==> final(self).positions@ == old(self).positions@.push(final(self).hash),
            !r ==> final(self).same_state(old(self)),
            final(self).zobrist@ == old(self).zobrist@,
    {
        if !self.fits(m) {
            return false;
        }
        let ghost p0 = self.pos();
        proof {
            lemma_apply_shape(p0, self.zobrist@, m, true);
            lemma_apply_occupied(p0, self.zobrist@, m, true);
        }
        let ok = self.make_pl_move::<true>(m);
        if !ok {
            return false;
        }
        if !self.bookkeeping_ok() {
            assert(pos_wf(p0));
            assert(self.pos() == apply_move(p0, self.zobrist@, m, true));
            self.unmake_pl_move(m);
            assert(self.pos() == p0);
            assert(self.undo_stack@ =~= old(self).undo_stack@);
            assert(self.positions@ =~= old(self).positions@);
            return false;
        }
        assert(self.undo_stack@.drop_last() =~= old(self).undo_stack@);
        true
    }

    /// Takes back `m`, played on the position `p0`.
    pub(crate) fn take_back(&mut self, m: Move, Ghost(p0): Ghost<Position>)
        requires
            played(*old(self), p0, m),
        ensures
            final(self).pos() == p0,
            final(self).undo_stack@ == old(self).undo_stack@.drop_last(),
            final(self).positions@ == old(self).positions@.drop_last(),
            final(self).zobrist@ == old(self).zobrist@,
            final(self).zobrist == old(self).zobrist,
    {
        self.unmake_pl_move(m);
    }
}

} // verus!
