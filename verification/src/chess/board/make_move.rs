use vstd::prelude::*;
use crate::chess::square::{Square, lemma_square_of};
use crate::chess::constants::{Piece, Color, castling_loss, castling_rights_of, castle_rook_squares, castling_table};
use crate::chess::chess_move::Move;
use crate::chess::board::{Board, Position, UndoInfo, GAME_POSITIONS_SIZE};
use crate::chess::board::bitboard::{Bitboard, bit, lsb_num, bits_asc, drop_lsb, lemma_lsb_facts, lemma_drop_lsb_smaller, en_passant_update_spec, en_passant_rm_spec, en_passant_update, en_passant_rm};
use crate::chess::board::hash::{ZobristTable, Keys};
use crate::chess::board::evaluation::{mg_spec, eg_spec, mg_value_spec, eg_value_spec, phase_value_spec, mg_table, eg_table, mg_value, eg_value, phase_value};
use crate::chess::board::attacks::attacked;
use crate::chess::board::laws::{law_unmake_restores, move_fits, pos_wf, lemma_apply_parts};

verus! {

proof fn lemma_ep_shift(t: u64)
    by (bit_vector)
    ensures
        16 <= t < 24 ==> (1u64 << (t + 8) as u64) != 0,
        40 <= t < 48 ==> (1u64 << (t - 8) as u64) != 0,
{
}

proof fn lemma_rights_kept(c: u8, loss: u8)
    by (bit_vector)
    ensures
        c < 16 ==> c & !loss < 16,
{
}

proof fn lemma_castle_side(flags: u16)
    by (bit_vector)
    ensures
        flags == 2 || flags == 3 ==> ((flags & 1 == 1) == (flags == 3)) && flags & 1 < 2,
{
}

pub open spec fn sq_mask(n: nat) -> u64 {
    1u64 << (n as u64)
}

pub open spec fn toggle(s: Seq<u64>, i: int, mask: u64) -> Seq<u64> {
    s.update(i, s[i] ^ mask)
}

pub open spec fn wadd(x: i16, y: i16) -> i16 {
    vstd::wrapping::i16_specs::wrapping_add(x, y)
}

pub open spec fn wsub(x: i16, y: i16) -> i16 {
    vstd::wrapping::i16_specs::wrapping_sub(x, y)
}

/// A table value seen from side `side`: as is for white, negated for black.
pub open spec fn signed(side: nat, v: i16) -> i16 {
    if side == 0 { v } else { wsub(0, v) }
}

/// The hash key of an en passant board (none for the empty board).
pub open spec fn ep_key(z: Keys, ep: u64) -> u64 {
    if ep == 0 { 0 } else { z.en_passant[(lsb_num(ep) % 8) as int] }
}

/// The piece a promotion flag promotes to.
pub open spec fn promo_piece(flags: u16) -> Piece {
    if flags == 11 || flags == 15 {
        Piece::Queen
    } else if flags == 8 || flags == 12 {
        Piece::Knight
    } else if flags == 9 || flags == 13 {
        Piece::Bishop
    } else {
        Piece::Rook
    }
}

/// The evaluation after piece kind `kind` of side `side` arrives on `sq`.
pub open spec fn with_piece(p: Position, side: nat, kind: nat, sq: nat) -> Position {
    Position {
        mg: wadd(p.mg, signed(side, mg_spec(kind + side * 6, sq))),
        eg: wadd(p.eg, signed(side, eg_spec(kind + side * 6, sq))),
        ..p
    }
}

/// The evaluation after piece kind `kind` of side `side` leaves `sq`.
pub open spec fn without_piece(p: Position, side: nat, kind: nat, sq: nat) -> Position {
    Position {
        mg: wsub(p.mg, signed(side, mg_spec(kind + side * 6, sq))),
        eg: wsub(p.eg, signed(side, eg_spec(kind + side * 6, sq))),
        ..p
    }
}

/// The evaluation after the material of piece kind `kind` of side `side` is gone.
pub open spec fn without_material(p: Position, side: nat, kind: nat) -> Position {
    Position {
        mg: wsub(p.mg, mg_value_spec(kind + side * 6)),
        eg: wsub(p.eg, eg_value_spec(kind + side * 6)),
        ..p
    }
}

/// The evaluation after the material of piece kind `kind` of side `side` is added.
pub open spec fn with_material(p: Position, side: nat, kind: nat) -> Position {
    Position {
        mg: wadd(p.mg, mg_value_spec(kind + side * 6)),
        eg: wadd(p.eg, eg_value_spec(kind + side * 6)),
        ..p
    }
}

/// First part of a move of side `side`: the piece on `from` goes to `to`.
#[verifier::opaque]
pub open spec fn sp_base(p: Position, z: Keys, side: nat, from: nat, to: nat, eval: bool) -> Position {
    let moved = p.piece[from as int];
    let idx = moved.idx() + side * 6;
    let mv = sq_mask(from) ^ sq_mask(to);
    let q = Position {
        piece: p.piece.update(from as int, Piece::Empty).update(to as int, moved),
        piece_bb: toggle(p.piece_bb, idx as int, mv),
        color_bb: toggle(p.color_bb, side as int, mv),
        hash: ((p.hash ^ z.castling[p.castling as int]) ^ z.piece_key(idx, from)) ^ z.piece_key(idx, to),
        halfmoves: vstd::wrapping::u16_specs::wrapping_add(p.halfmoves, 1),
        castling: p.castling & !castling_loss(from),
        ..p
    };
    if eval {
        with_piece(without_piece(q, side, moved.idx(), from), side, moved.idx(), to)
    } else {
        q
    }
}

/// Second part: the piece `cap` that stood on `to`, if any, is taken.
#[verifier::opaque]
pub open spec fn sp_capture(p: Position, z: Keys, side: nat, to: nat, cap: Piece, eval: bool) -> Position {
    if cap == Piece::Empty {
        p
    } else {
        let opp = (1 - side) as nat;
        let ci = cap.idx() + opp * 6;
        let q = Position {
            piece_bb: toggle(p.piece_bb, ci as int, sq_mask(to)),
            color_bb: toggle(p.color_bb, opp as int, sq_mask(to)),
            hash: p.hash ^ z.piece_key(ci, to),
            halfmoves: 0,
            castling: p.castling & !castling_loss(to),
            ..p
        };
        let r = if eval {
            without_material(without_piece(q, opp, cap.idx(), to), opp, cap.idx())
        } else {
            q
        };
        Position { phase: wsub(r.phase, phase_value_spec(cap.idx())), ..r }
    }
}

/// Third part: the old en passant square goes away.
#[verifier::opaque]
pub open spec fn sp_clear_ep(p: Position, z: Keys) -> Position {
    Position { hash: p.hash ^ ep_key(z, p.en_passant), en_passant: 0, ..p }
}

/// Fourth part: what the move's flag adds (double push, promotion, en passant, castling).
#[verifier::opaque]
pub open spec fn sp_flags(p: Position, z: Keys, side: nat, from: nat, to: nat, flags: u16, moved: Piece, eval: bool) -> Position {
    let off = side * 6;
    let opp = (1 - side) as nat;
    if flags == 1 {
        let ep = en_passant_update_spec(from);
        Position { en_passant: ep, hash: p.hash ^ ep_key(z, ep), halfmoves: 0, ..p }
    } else if flags > 5 {
        let promo = promo_piece(flags);
        let pi = promo.idx() + off;
        let q = Position {
            piece_bb: toggle(toggle(p.piece_bb, pi as int, sq_mask(to)), off as int, sq_mask(to)),
            piece: p.piece.update(to as int, promo),
            hash: (p.hash ^ z.piece_key(pi, to)) ^ z.piece_key(off, to),
            halfmoves: 0,
            ..p
        };
        if eval {
            with_material(with_piece(without_piece(q, side, moved.idx(), to), side, promo.idx(), to), side, promo.idx())
        } else {
            q
        }
    } else if flags == 5 {
        let prb = en_passant_rm_spec(to);
        let eps = lsb_num(prb);
        let q = Position {
            piece_bb: toggle(p.piece_bb, (opp * 6) as int, prb),
            color_bb: toggle(p.color_bb, opp as int, prb),
            piece: p.piece.update(eps as int, Piece::Empty),
            hash: p.hash ^ z.piece_key(opp * 6, eps),
            halfmoves: 0,
            ..p
        };
        if eval {
            without_material(without_piece(q, opp, 0, eps), opp, 0)
        } else {
            q
        }
    } else if flags == 2 || flags == 3 {
        let (rd, ra) = castle_rook_squares(side, flags == 3);
        let rm = sq_mask(rd) ^ sq_mask(ra);
        let q = Position {
            piece_bb: toggle(p.piece_bb, (off + 3) as int, rm),
            color_bb: toggle(p.color_bb, side as int, rm),
            piece: p.piece.update(ra as int, Piece::Rook).update(rd as int, Piece::Empty),
            hash: (p.hash ^ z.piece_key(off + 3, ra)) ^ z.piece_key(off + 3, rd),
            ..p
        };
        if eval {
            with_piece(without_piece(q, side, 3, rd), side, 3, ra)
        } else {
            q
        }
    } else {
        p
    }
}

/// Last part: occupancy, side to move and the remaining hash keys.
#[verifier::opaque]
pub open spec fn sp_finish(p: Position, z: Keys) -> Position {
    Position {
        occupied: p.color_bb[0] | p.color_bb[1],
        turn: p.turn.other(),
        hash: (p.hash ^ z.side_to_move) ^ z.castling[p.castling as int],
        ..p
    }
}

/// The position after the side to move plays `m`, whether or not it is legal.
pub open spec fn apply_move(p: Position, z: Keys, m: Move, eval: bool) -> Position {
    let side = p.turn.idx();
    let from = m.from_num();
    let to = m.to_num();
    let moved = p.piece[from as int];
    let cap = p.piece[to as int];
    sp_finish(
        sp_flags(
            sp_clear_ep(sp_capture(sp_base(p, z, side, from, to, eval), z, side, to, cap, eval), z),
            z, side, from, to, m.flag_bits(), moved, eval,
        ),
        z,
    )
}

/// What is saved to take `m` back.
pub open spec fn undo_of(p: Position, m: Move) -> UndoInfo {
    UndoInfo {
        castling_rights: p.castling,
        en_passant_square: Bitboard(p.en_passant),
        halfmove_clock: p.halfmoves,
        hash: p.hash,
        captured_piece: p.piece[m.to_num() as int],
        last_mg: p.mg,
        last_eg: p.eg,
        last_phase: p.phase,
    }
}

/// Does the side that just moved in `q` (the side not to move) keep a king
/// that is not attacked?
pub open spec fn mover_safe(q: Position) -> bool {
    let side = q.turn.other().idx();
    let kbb = q.piece_bb[(side * 6 + 5) as int];
    kbb != 0 && !attacked(q, q.turn.idx(), lsb_num(kbb))
}

/// The piece moves back from `to` to `from` and the taken piece returns.
pub open spec fn rv_base(q: Position, side: nat, from: nat, to: nat, u: UndoInfo) -> Position {
    let p_moved = q.piece[to as int];
    let mv = sq_mask(from) ^ sq_mask(to);
    let r = Position {
        piece_bb: toggle(q.piece_bb, (p_moved.idx() + side * 6) as int, mv),
        color_bb: toggle(q.color_bb, side as int, mv),
        piece: q.piece.update(from as int, p_moved).update(to as int, Piece::Empty),
        ..q
    };
    let cap = u.captured_piece;
    let opp = (1 - side) as nat;
    if cap != Piece::Empty {
        Position {
            piece_bb: toggle(r.piece_bb, (cap.idx() + opp * 6) as int, sq_mask(to)),
            color_bb: toggle(r.color_bb, opp as int, sq_mask(to)),
            piece: r.piece.update(to as int, cap),
            ..r
        }
    } else {
        r
    }
}

/// What taking back the flag part of a move undoes.
pub open spec fn rv_flags(q: Position, side: nat, from: nat, to: nat, flags: u16) -> Position {
    let off = side * 6;
    let opp = (1 - side) as nat;
    if flags & 8 != 0 {
        let promo = promo_piece(flags);
        Position {
            piece_bb: toggle(toggle(q.piece_bb, (promo.idx() + off) as int, sq_mask(from)), off as int, sq_mask(from)),
            piece: q.piece.update(from as int, Piece::Pawn),
            ..q
        }
    } else if flags == 5 {
        let prb = en_passant_rm_spec(to);
        Position {
            piece_bb: toggle(q.piece_bb, (opp * 6) as int, prb),
            color_bb: toggle(q.color_bb, opp as int, prb),
            piece: q.piece.update(lsb_num(prb) as int, Piece::Pawn),
            ..q
        }
    } else if flags == 2 || flags == 3 {
        let (rd, ra) = castle_rook_squares(side, flags == 3);
        let rm = sq_mask(rd) ^ sq_mask(ra);
        Position {
            piece_bb: toggle(q.piece_bb, (off + 3) as int, rm),
            color_bb: toggle(q.color_bb, side as int, rm),
            piece: q.piece.update(ra as int, Piece::Empty).update(rd as int, Piece::Rook),
            ..q
        }
    } else {
        q
    }
}

/// The saved state comes back and the turn passes back.
pub open spec fn rv_finish(q: Position, u: UndoInfo) -> Position {
    Position {
        occupied: q.color_bb[0] | q.color_bb[1],
        castling: u.castling_rights,
        en_passant: u.en_passant_square.0,
        halfmoves: u.halfmove_clock,
        hash: u.hash,
        turn: q.turn.other(),
        mg: u.last_mg,
        eg: u.last_eg,
        phase: u.last_phase,
        ..q
    }
}

/// The position after move `m` of side `side` is taken back with undo record `u`.
pub open spec fn revert_move(q: Position, side: nat, m: Move, u: UndoInfo) -> Position {
    let from = m.from_num();
    let to = m.to_num();
    rv_finish(rv_flags(rv_base(q, side, from, to, u), side, from, to, m.flag_bits()), u)
}

impl Board {
    /// The histories and the hash keys are those of `other`.
    pub open spec fn keeps_history(&self, other: &Board) -> bool {
        &&& self.undo_stack == other.undo_stack
        &&& self.positions == other.positions
        &&& self.zobrist == other.zobrist
    }

    /// Toggles the hash key of piece `p` of `side` on `square`.
    pub fn update_hash_piece(&mut self, side: Color, p: Piece, square: Square)
        requires
            side.is_side(),
            p.idx() + side.idx() * 6 < 12,
            square.num() < 64,
            old(self).zobrist.canonical(),
        ensures
            final(self).pos() == (Position {
                hash: old(self).hash ^ old(self).zobrist@.piece_key(p.idx() + side.idx() * 6, square.num()),
                ..old(self).pos()
            }),
            final(self).keeps_history(old(self)),
    {
        let k = self.zobrist.piece(p.index() + side.offset(), square.index());
        self.hash = self.hash ^ k;
    }

    /// Toggles the hash key of the castling byte `castling`.
    pub fn update_hash_caslte(&mut self, castling: u8)
        requires
            castling < 16,
            old(self).zobrist.canonical(),
        ensures
            final(self).pos() == (Position {
                hash: old(self).hash ^ old(self).zobrist@.castling[castling as int],
                ..old(self).pos()
            }),
            final(self).keeps_history(old(self)),
    {
        let k = self.zobrist.castling[castling as usize];
        self.hash = self.hash ^ k;
    }

    /// Toggles the hash key of the side to move.
    pub fn update_move_hash(&mut self)
        ensures
            final(self).pos() == (Position { hash: old(self).hash ^ old(self).zobrist.side_to_move, ..old(self).pos() }),
            final(self).keeps_history(old(self)),
    {
        let k = self.zobrist.side_to_move;
        self.hash = self.hash ^ k;
    }

    /// Toggles the hash key of the en passant file, if there is an en passant square.
    pub fn update_en_passant_hash(&mut self)
        requires
            old(self).zobrist.canonical(),
        ensures
            final(self).pos() == (Position {
                hash: old(self).hash ^ ep_key(old(self).zobrist@, old(self).en_passant),
                ..old(self).pos()
            }),
            final(self).keeps_history(old(self)),
    {
        if self.en_passant != 0 {
            let f = Bitboard(self.en_passant).lsb().file();
            let k = self.zobrist.en_passant[f as usize];
            self.hash = self.hash ^ k;
        } else {
            proof {
                crate::chess::board::bitboard::lemma_zero_or(self.hash);
            }
        }
    }

    /// Adds the piece-square values of piece `p` of `side` on `s`.
    pub fn add_eval(&mut self, side: Color, p: Piece, s: Square)
        requires
            side.is_side(),
            p.idx() + side.idx() * 6 < 12,
            s.num() < 64,
        ensures
            final(self).pos() == with_piece(old(self).pos(), side.idx(), p.idx(), s.num()),
            final(self).keeps_history(old(self)),
    {
        let i = p.index() + side.offset();
        let mg = mg_table(i, s.index());
        let eg = eg_table(i, s.index());
        let (smg, seg) = if side.index() == 0 { (mg, eg) } else { (0i16.wrapping_sub(mg), 0i16.wrapping_sub(eg)) };
        self.eval_mg = self.eval_mg.wrapping_add(smg);
        self.eval_eg = self.eval_eg.wrapping_add(seg);
    }

    /// Removes the piece-square values of piece `p` of `side` on `s`.
    pub fn rm_eval(&mut self, side: Color, p: Piece, s: Square)
        requires
            side.is_side(),
            p.idx() + side.idx() * 6 < 12,
            s.num() < 64,
        ensures
            final(self).pos() == without_piece(old(self).pos(), side.idx(), p.idx(), s.num()),
            final(self).keeps_history(old(self)),
    {
        let i = p.index() + side.offset();
        let mg = mg_table(i, s.index());
        let eg = eg_table(i, s.index());
        let (smg, seg) = if side.index() == 0 { (mg, eg) } else { (0i16.wrapping_sub(mg), 0i16.wrapping_sub(eg)) };
        self.eval_mg = self.eval_mg.wrapping_sub(smg);
        self.eval_eg = self.eval_eg.wrapping_sub(seg);
    }

    /// Removes the material value of piece `p` of `side`.
    pub fn rm_p_eval(&mut self, side: Color, p: Piece)
        requires
            side.is_side(),
        ensures
            final(self).pos() == without_material(old(self).pos(), side.idx(), p.idx()),
            final(self).keeps_history(old(self)),
    {
        let i = p.index() + side.offset();
        self.eval_mg = self.eval_mg.wrapping_sub(mg_value(i));
        self.eval_eg = self.eval_eg.wrapping_sub(eg_value(i));
    }

    /// Adds the material value of piece `p` of `side`.
    pub fn add_p_eval(&mut self, side: Color, p: Piece)
        requires
            side.is_side(),
        ensures
            final(self).pos() == with_material(old(self).pos(), side.idx(), p.idx()),
            final(self).keeps_history(old(self)),
    {
        let i = p.index() + side.offset();
        self.eval_mg = self.eval_mg.wrapping_add(mg_value(i));
        self.eval_eg = self.eval_eg.wrapping_add(eg_value(i));
    }

    fn step_base(&mut self, side: Color, from: Square, to: Square, eval: bool)
        requires
            side.is_side(),
            from.num() < 64,
            to.num() < 64,
            old(self).castling_rights < 16,
            old(self).zobrist.canonical(),
            old(self).piece@[from.num() as int].idx() + side.idx() * 6 < 12,
        ensures
            final(self).pos() == sp_base(old(self).pos(), old(self).zobrist@, side.idx(), from.num(), to.num(), eval),
            final(self).keeps_history(old(self)),
            final(self).turn == old(self).turn,
            final(self).castling_rights < 16,
    {
        proof {
            reveal(sp_base);
        }
        let movement = (1u64 << from.u8()) ^ (1u64 << to.u8());
        let moved = self.piece[from.index()];
        let idx = moved.index() + side.offset();
        self.piece[from.index()] = Piece::Empty;
        self.piece[to.index()] = moved;
        self.piece_bb[idx] = self.piece_bb[idx] ^ movement;
        self.color_bb[side.index()] = self.color_bb[side.index()] ^ movement;
        self.update_hash_caslte(self.castling_rights);
        self.update_hash_piece(side, moved, from);
        self.update_hash_piece(side, moved, to);
        self.halfmoves = self.halfmoves.wrapping_add(1);
        let loss = castling_rights_of(from);
        let c = self.castling_rights;
        proof { lemma_rights_kept(c, loss); }
        self.castling_rights = c & !loss;
        if eval {
            self.rm_eval(side, moved, from);
            self.add_eval(side, moved, to);
        }
    }

    fn step_capture(&mut self, side: Color, to: Square, cap: Piece, eval: bool)
        requires
            side.is_side(),
            to.num() < 64,
            old(self).castling_rights < 16,
            old(self).zobrist.canonical(),
            cap.idx() + side.other().idx() * 6 < 12 || cap == Piece::Empty,
        ensures
            final(self).pos() == sp_capture(old(self).pos(), old(self).zobrist@, side.idx(), to.num(), cap, eval),
            final(self).keeps_history(old(self)),
            final(self).turn == old(self).turn,
            final(self).castling_rights < 16,
    {
        proof {
            reveal(sp_capture);
        }
        if cap != Piece::Empty {
            let opp = side.opposite();
            let to_board = 1u64 << to.u8();
            let ci = cap.index() + opp.offset();
            self.piece_bb[ci] = self.piece_bb[ci] ^ to_board;
            self.color_bb[opp.index()] = self.color_bb[opp.index()] ^ to_board;
            self.update_hash_piece(opp, cap, to);
            self.halfmoves = 0;
            let loss = castling_rights_of(to);
            let c = self.castling_rights;
            proof { lemma_rights_kept(c, loss); }
            self.castling_rights = c & !loss;
            if eval {
                self.rm_eval(opp, cap, to);
                self.rm_p_eval(opp, cap);
            }
            self.game_phase = self.game_phase.wrapping_sub(phase_value(cap.index()));
        }
    }

    fn step_clear_ep(&mut self)
        requires
            old(self).zobrist.canonical(),
        ensures
            final(self).pos() == sp_clear_ep(old(self).pos(), old(self).zobrist@),
            final(self).keeps_history(old(self)),
            final(self).castling_rights == old(self).castling_rights,
            final(self).turn == old(self).turn,
    {
        proof {
            reveal(sp_clear_ep);
        }
        self.update_en_passant_hash();
        self.en_passant = 0;
    }

    fn step_flags(&mut self, side: Color, from: Square, to: Square, flags: u16, moved: Piece, eval: bool)
        requires
            side.is_side(),
            from.num() < 64,
            to.num() < 64,
            flags < 16,
            flags != 6,
            flags != 7,
            flags == 5 ==> (16 <= to.num() < 24 || 40 <= to.num() < 48),
            moved.idx() + side.idx() * 6 < 12,
            old(self).zobrist.canonical(),
        ensures
            final(self).pos() == sp_flags(old(self).pos(), old(self).zobrist@, side.idx(), from.num(), to.num(), flags, moved, eval),
            final(self).keeps_history(old(self)),
            final(self).castling_rights == old(self).castling_rights,
            final(self).turn == old(self).turn,
    {
        proof {
            reveal(sp_flags);
        }
        let off = side.offset();
        let to_board = 1u64 << to.u8();
        if flags == Move::DOUBLE_PAWN {
            self.en_passant = en_passant_update(from).0;
            self.update_en_passant_hash();
            self.halfmoves = 0;
        } else if flags > Move::EN_PASSANT {
            let promo = if flags == Move::PROMO_CAP_QUEEN || flags == Move::PROMO_QUEEN {
                Piece::Queen
            } else if flags == Move::PROMO_CAP_KNIGHT || flags == Move::PROMO_KNIGHT {
                Piece::Knight
            } else if flags == Move::PROMO_CAP_BISHOP || flags == Move::PROMO_BISHOP {
                Piece::Bishop
            } else {
                Piece::Rook
            };
            let pi = promo.index() + off;
            self.piece_bb[pi] = self.piece_bb[pi] ^ to_board;
            self.piece_bb[off] = self.piece_bb[off] ^ to_board;
            self.piece[to.index()] = promo;
            self.update_hash_piece(side, promo, to);
            self.update_hash_piece(side, Piece::Pawn, to);
            self.halfmoves = 0;
            if eval {
                self.rm_eval(side, moved, to);
                self.add_eval(side, promo, to);
                self.add_p_eval(side, promo);
            }
        } else if flags == Move::EN_PASSANT {
            let opp = side.opposite();
            let pawn_remove_board = en_passant_rm(to);
            let ooff = opp.offset();
            self.piece_bb[ooff] = self.piece_bb[ooff] ^ pawn_remove_board.0;
            self.color_bb[opp.index()] = self.color_bb[opp.index()] ^ pawn_remove_board.0;
            proof {
                let t = to.num() as u64;
                lemma_ep_shift(t);
                pawn_remove_board.lemma_lsb_square();
            }
            let ep_square = pawn_remove_board.lsb();
            self.piece[ep_square.index()] = Piece::Empty;
            self.update_hash_piece(opp, Piece::Pawn, ep_square);
            self.halfmoves = 0;
            if eval {
                self.rm_eval(opp, Piece::Pawn, ep_square);
                self.rm_p_eval(opp, Piece::Pawn);
            }
        } else if flags == Move::KING_CASTLE || flags == Move::QUEEN_CASTLE {
            proof { lemma_castle_side(flags); }
            let mechs = castling_table(side.index(), (flags & 1) as usize);
            let rm = mechs.rook_movement.0;
            self.piece_bb[off + 3] = self.piece_bb[off + 3] ^ rm;
            self.color_bb[side.index()] = self.color_bb[side.index()] ^ rm;
            self.piece[mechs.rook_appears.index()] = Piece::Rook;
            self.piece[mechs.rook_disappears.index()] = Piece::Empty;
            self.update_hash_piece(side, Piece::Rook, mechs.rook_appears);
            self.update_hash_piece(side, Piece::Rook, mechs.rook_disappears);
            if eval {
                self.rm_eval(side, Piece::Rook, mechs.rook_disappears);
                self.add_eval(side, Piece::Rook, mechs.rook_appears);
            }
        }
    }

    fn step_finish(&mut self)
        requires
            old(self).turn.is_side(),
            old(self).castling_rights < 16,
            old(self).zobrist.canonical(),
        ensures
            final(self).pos() == sp_finish(old(self).pos(), old(self).zobrist@),
            final(self).keeps_history(old(self)),
    {
        proof {
            reveal(sp_finish);
        }
        self.occupied = self.color_bb[0] | self.color_bb[1];
        self.turn = self.turn.opposite();
        self.update_move_hash();
        self.update_hash_caslte(self.castling_rights);
    }

    /// Plays `m` for `side`, the side to move; the result tells whether the
    /// mover's king is safe afterwards (if not, the move is taken back at once).
    fn make_pseudolegal_move(&mut self, side: Color, m: Move, eval: bool) -> (r: bool)
        requires
            old(self).wf(),
            side == old(self).turn,
            old(self).positions@.len() < GAME_POSITIONS_SIZE,
            old(self).undo_stack@.len() < GAME_POSITIONS_SIZE,
            move_shape_ok(old(self).pos(), m),
        ensures
            r == mover_safe(apply_move(old(self).pos(), old(self).zobrist@, m, eval)),
            r ==> final(self).pos() == apply_move(old(self).pos(), old(self).zobrist@, m, eval),
            r ==> final(self).undo_stack@ == old(self).undo_stack@.push(undo_of(old(self).pos(), m)),
            r ==> final(self).positions@ == old(self).positions@.push(final(self).hash),
            !r ==> final(self).pos() == revert_move(
                apply_move(old(self).pos(), old(self).zobrist@, m, eval),
                side.idx(),
                m,
                undo_of(old(self).pos(), m),
            ),
            !r ==> final(self).undo_stack@ == old(self).undo_stack@,
            !r ==> final(self).positions@ == old(self).positions@,
            final(self).zobrist == old(self).zobrist,
    {
        let from = m.from();
        let to = m.to();
        let flags = m.flags();
        let moved = self.piece[from.index()];
        let cap = self.piece[to.index()];
        let undo_info = UndoInfo {
            castling_rights: self.castling_rights,
            en_passant_square: Bitboard(self.en_passant),
            halfmove_clock: self.halfmoves,
            hash: self.hash,
            captured_piece: cap,
            last_mg: self.eval_mg,
            last_eg: self.eval_eg,
            last_phase: self.game_phase,
        };
        let ghost p0 = self.pos();
        let ghost z = self.zobrist@;
        self.step_base(side, from, to, eval);
        self.step_capture(side, to, cap, eval);
        self.step_clear_ep();
        self.step_flags(side, from, to, flags, moved, eval);
        self.step_finish();
        assert(self.pos() == apply_move(p0, z, m, eval));
        proof {
            lemma_apply_shape(p0, z, m, eval);
        }
        let h = self.hash;
        self.positions.push(h);
        let opp = side.opposite();
        let kbb = self.piece_bb[side.offset() + 5];
        let unsafe_king = if kbb == 0 {
            true
        } else {
            proof {
                Bitboard(kbb).lemma_lsb_square();
            }
            let ksq = self.get_king_square(side);
            self.sq_attacked_by(opp, ksq)
        };
        if unsafe_king {
            self.unmake_pl_move_p(side, m, &undo_info);
            return false;
        }
        self.undo_stack.push(undo_info);
        true
    }

    /// Takes back move `m` of `side` with its undo record.
    fn unmake_pl_move_p(&mut self, side: Color, m: Move, undo_info: &UndoInfo)
        requires
            side.is_side(),
            old(self).turn == side.other(),
            old(self).positions@.len() > 0,
            unmake_shape_ok(old(self).pos(), side.idx(), m, *undo_info),
        ensures
            final(self).pos() == revert_move(old(self).pos(), side.idx(), m, *undo_info),
            final(self).positions@ == old(self).positions@.drop_last(),
            final(self).undo_stack == old(self).undo_stack,
            final(self).zobrist == old(self).zobrist,
    {
        let from = m.from();
        let to = m.to();
        let from_board = 1u64 << from.u8();
        let to_board = 1u64 << to.u8();
        let movement = from_board ^ to_board;
        let off = side.offset();
        let opp = side.opposite();
        let ooff = opp.offset();

        let p_moved = self.piece[to.index()];
        let mi = p_moved.index() + off;
        self.piece_bb[mi] = self.piece_bb[mi] ^ movement;
        self.color_bb[side.index()] = self.color_bb[side.index()] ^ movement;
        self.piece[from.index()] = p_moved;
        self.piece[to.index()] = Piece::Empty;
        let captured_piece = undo_info.captured_piece;
        if captured_piece != Piece::Empty {
            let ci = captured_piece.index() + ooff;
            self.piece_bb[ci] = self.piece_bb[ci] ^ to_board;
            self.color_bb[opp.index()] = self.color_bb[opp.index()] ^ to_board;
            self.piece[to.index()] = captured_piece;
        }
        let move_flags = m.flags();
        if m.is_promo() {
            let promo = if move_flags == Move::PROMO_CAP_QUEEN || move_flags == Move::PROMO_QUEEN {
                Piece::Queen
            } else if move_flags == Move::PROMO_CAP_KNIGHT || move_flags == Move::PROMO_KNIGHT {
                Piece::Knight
            } else if move_flags == Move::PROMO_CAP_BISHOP || move_flags == Move::PROMO_BISHOP {
                Piece::Bishop
            } else {
                Piece::Rook
            };
            let pi = promo.index() + off;
            self.piece_bb[pi] = self.piece_bb[pi] ^ from_board;
            self.piece_bb[off] = self.piece_bb[off] ^ from_board;
            self.piece[from.index()] = Piece::Pawn;
        } else if move_flags == Move::EN_PASSANT {
            let pawn_remove_board = en_passant_rm(to);
            self.piece_bb[ooff] = self.piece_bb[ooff] ^ pawn_remove_board.0;
            self.color_bb[opp.index()] = self.color_bb[opp.index()] ^ pawn_remove_board.0;
            proof {
                let t = to.num() as u64;
                lemma_ep_shift(t);
                pawn_remove_board.lemma_lsb_square();
            }
            let ep_square = pawn_remove_board.lsb();
            self.piece[ep_square.index()] = Piece::Pawn;
        } else if move_flags == Move::KING_CASTLE || move_flags == Move::QUEEN_CASTLE {
            proof { lemma_castle_side(move_flags); }
            let mechs = castling_table(side.index(), (move_flags & 1) as usize);
            let rm = mechs.rook_movement.0;
            self.piece_bb[off + 3] = self.piece_bb[off + 3] ^ rm;
            self.color_bb[side.index()] = self.color_bb[side.index()] ^ rm;
            self.piece[mechs.rook_appears.index()] = Piece::Empty;
            self.piece[mechs.rook_disappears.index()] = Piece::Rook;
        }
        self.occupied = self.color_bb[0] | self.color_bb[1];
        self.undo_state(undo_info);
    }

    fn undo_state(&mut self, undo_info: &UndoInfo)
        requires
            old(self).turn.is_side(),
            old(self).positions@.len() > 0,
        ensures
            final(self).pos() == (Position {
                castling: undo_info.castling_rights,
                en_passant: undo_info.en_passant_square.0,
                halfmoves: undo_info.halfmove_clock,
                hash: undo_info.hash,
                turn: old(self).turn.other(),
                mg: undo_info.last_mg,
                eg: undo_info.last_eg,
                phase: undo_info.last_phase,
                ..old(self).pos()
            }),
            final(self).positions@ == old(self).positions@.drop_last(),
            final(self).undo_stack == old(self).undo_stack,
            final(self).zobrist == old(self).zobrist,
    {
        self.castling_rights = undo_info.castling_rights;
        self.en_passant = undo_info.en_passant_square.0;
        self.halfmoves = undo_info.halfmove_clock;
        self.hash = undo_info.hash;
        self.turn = self.turn.opposite();
        self.eval_eg = undo_info.last_eg;
        self.eval_mg = undo_info.last_mg;
        self.game_phase = undo_info.last_phase;
        self.positions.pop();
    }
}

impl Board {
    /// Plays `m` for the side to move (updating the evaluation when `EVAL`).
    /// Returns whether the move was legal, i.e. whether the mover's king is
    /// not attacked afterwards; an illegal move is taken back at once. A move
    /// that would leave the mover without a king is refused the same way.
    pub fn make_pl_move<const EVAL: bool>(&mut self, m: Move) -> (r: bool)
        requires
            old(self).wf(),
            old(self).positions@.len() < GAME_POSITIONS_SIZE,
            old(self).undo_stack@.len() < GAME_POSITIONS_SIZE,
            move_shape_ok(old(self).pos(), m),
        ensures
            r == mover_safe(apply_move(old(self).pos(), old(self).zobrist@, m, EVAL)),
            r ==> final(self).pos() == apply_move(old(self).pos(), old(self).zobrist@, m, EVAL),
            r ==> final(self).undo_stack@ == old(self).undo_stack@.push(undo_of(old(self).pos(), m)),
            r ==> final(self).positions@ == old(self).positions@.push(final(self).hash),
            !r ==> final(self).pos() == revert_move(
                apply_move(old(self).pos(), old(self).zobrist@, m, EVAL),
                old(self).turn.idx(),
                m,
                undo_of(old(self).pos(), m),
            ),
            !r ==> final(self).undo_stack@ == old(self).undo_stack@,
            !r ==> final(self).positions@ == old(self).positions@,
            final(self).zobrist == old(self).zobrist,
            !r && move_fits(old(self).pos(), m) ==> final(self).same_state(old(self)),
    {
        let side = self.turn;
        let ghost p0 = self.pos();
        let r = self.make_pseudolegal_move(side, m, EVAL);
        proof {
            if !r && move_fits(p0, m) {
                law_unmake_restores(p0, self.zobrist@, m, EVAL);
            }
        }
        r
    }

    /// Takes back the last move made, which must be `m`.
    pub fn unmake_pl_move(&mut self, m: Move)
        requires
            old(self).turn.is_side(),
            old(self).undo_stack@.len() > 0,
            old(self).positions@.len() > 0,
            unmake_shape_ok(old(self).pos(), old(self).turn.other().idx(), m, old(self).undo_stack@.last()),
        ensures
            final(self).pos() == revert_move(old(self).pos(), old(self).turn.other().idx(), m, old(self).undo_stack@.last()),
            final(self).undo_stack@ == old(self).undo_stack@.drop_last(),
            final(self).positions@ == old(self).positions@.drop_last(),
            final(self).zobrist == old(self).zobrist,
            forall|p0: Position, e: bool|
                #![trigger apply_move(p0, old(self).zobrist@, m, e)]
                pos_wf(p0) && move_fits(p0, m) && old(self).pos() == apply_move(p0, old(self).zobrist@, m, e)
                    && old(self).undo_stack@.last() == undo_of(p0, m) ==> final(self).pos() == p0,
    {
        let ghost q = self.pos();
        let ghost z = self.zobrist@;
        let undo_info = self.undo_stack.pop();
        let mover = self.turn.opposite();
        self.unmake_pl_move_p(mover, m, &undo_info);
        proof {
            assert forall|p0: Position, e: bool|
                #![trigger apply_move(p0, z, m, e)]
                pos_wf(p0) && move_fits(p0, m) && q == apply_move(p0, z, m, e)
                    && undo_info == undo_of(p0, m) implies self.pos() == p0 by {
                law_unmake_restores(p0, z, m, e);
            }
        }
    }
}

/// After a move that the engine can play, it can take the move back.
pub proof fn lemma_apply_shape(p: Position, z: Keys, m: Move, eval: bool)
    requires
        p.turn.is_side(),
        p.piece.len() == 64,
        move_shape_ok(p, m),
    ensures
        apply_move(p, z, m, eval).turn == p.turn.other(),
        unmake_shape_ok(apply_move(p, z, m, eval), p.turn.idx(), m, undo_of(p, m)),
        apply_move(p, z, m, eval).piece.len() == 64,
{
    reveal(sp_base);
    reveal(sp_capture);
    reveal(sp_clear_ep);
    reveal(sp_flags);
    reveal(sp_finish);
    m.lemma_parts();
    let side = p.turn.idx();
    let flags = m.flag_bits();
    let to = m.to_num();
    if flags == 5 {
        let t = to as u64;
        if 16 <= to < 24 {
            crate::chess::board::bitboard::lemma_lsb_single((t + 8) as u64);
        } else {
            crate::chess::board::bitboard::lemma_lsb_single((t - 8) as u64);
        }
    }
}

/// The conditions under which the engine can play `m` in `p` without running
/// off its tables: a flag it knows, an en passant landing square on the third
/// or sixth rank, a piece index that exists for the mover, and (for black)
/// a castling move that does not land on its own rook square.
pub open spec fn move_shape_ok(p: Position, m: Move) -> bool {
    let side = p.turn.idx();
    let flags = m.flag_bits();
    &&& flags != 6
    &&& flags != 7
    &&& flags == 5 ==> (16 <= m.to_num() < 24 || 40 <= m.to_num() < 48)
    &&& p.piece[m.from_num() as int].idx() + side * 6 < 12
    &&& (flags == 2 || flags == 3) && side == 1 ==> m.to_num() != castle_rook_squares(side, flags == 3).0
}

/// The conditions under which the engine can take back `m` of `side` in `q`
/// with the undo record `u`.
pub open spec fn unmake_shape_ok(q: Position, side: nat, m: Move, u: UndoInfo) -> bool {
    let flags = m.flag_bits();
    &&& flags == 5 ==> (16 <= m.to_num() < 24 || 40 <= m.to_num() < 48)
    &&& q.piece[m.to_num() as int].idx() + side * 6 < 12
    &&& (u.captured_piece == Piece::Empty || u.captured_piece.idx() + (1 - side) * 6 < 12)
}

/// The xor of the keys of piece index `idx` on the squares `sqs`.
pub open spec fn keys_xor(z: Keys, idx: nat, sqs: Seq<nat>) -> u64
    decreases sqs.len(),
{
    if sqs.len() == 0 {
        0
    } else {
        keys_xor(z, idx, sqs.drop_last()) ^ z.piece_key(idx, sqs.last())
    }
}

/// The xor of the keys of the pieces on the first `n` of the boards `bbs`.
pub open spec fn pieces_xor(z: Keys, bbs: Seq<u64>, n: nat) -> u64
    decreases n,
{
    if n == 0 {
        0
    } else {
        pieces_xor(z, bbs, (n - 1) as nat) ^ keys_xor(z, (n - 1) as nat, bits_asc(bbs[n - 1]))
    }
}

/// The hash of a position: the keys of its pieces, of its castling byte, of
/// its en passant file, and the side key when black is to move.
pub open spec fn hash_spec(p: Position, z: Keys) -> u64 {
    pieces_xor(z, p.piece_bb, 12) ^ z.castling[p.castling as int] ^ ep_key(z, p.en_passant) ^ (if p.turn
        == Color::Black { z.side_to_move } else { 0 })
}

impl Board {
    fn board_keys(&self, idx: usize) -> (r: u64)
        requires
            idx < 12,
            self.zobrist.canonical(),
        ensures
            r == keys_xor(self.zobrist@, idx as nat, bits_asc(self.piece_bb@[idx as int])),
    {
        let bb = self.piece_bb[idx];
        let mut rest = bb;
        let mut acc: u64 = 0;
        let ghost mut done: Seq<nat> = Seq::empty();
        assert(done + bits_asc(bb) =~= bits_asc(bb));
        while rest != 0
            invariant
                idx < 12,
                self.zobrist.canonical(),
                done + bits_asc(rest) == bits_asc(bb),
                acc == keys_xor(self.zobrist@, idx as nat, done),
            decreases rest,
        {
            proof {
                lemma_drop_lsb_smaller(rest);
                lemma_lsb_facts(rest);
                assert(done.push(lsb_num(rest)) + bits_asc(drop_lsb(rest)) =~= done + bits_asc(rest));
                assert(done.push(lsb_num(rest)).drop_last() =~= done);
            }
            let sq = Bitboard(rest).lsb();
            acc = acc ^ self.zobrist.piece(idx, sq.index());
            proof {
                done = done.push(lsb_num(rest));
            }
            rest = rest & (rest - 1);
        }
        assert(done =~= bits_asc(bb));
        acc
    }

    /// The hash of the position, computed from scratch.
    pub fn calculate_hash(&self) -> (r: u64)
        requires
            self.zobrist.canonical(),
            self.castling_rights < 16,
            self.turn.is_side(),
        ensures
            r == hash_spec(self.pos(), self.zobrist@),
    {
        let mut acc: u64 = 0;
        let mut i: usize = 0;
        while i < 12
            invariant
                i <= 12,
                self.zobrist.canonical(),
                acc == pieces_xor(self.zobrist@, self.piece_bb@, i as nat),
            decreases 12 - i,
        {
            let k = self.board_keys(i);
            acc = acc ^ k;
            i += 1;
        }
        acc = acc ^ self.zobrist.castling[self.castling_rights as usize];
        if self.en_passant != 0 {
            let f = Bitboard(self.en_passant).lsb().file();
            acc = acc ^ self.zobrist.en_passant[f as usize];
        } else {
            proof {
                crate::chess::board::bitboard::lemma_zero_or(acc);
            }
        }
        if self.turn == Color::Black {
            acc = acc ^ self.zobrist.side_to_move;
        } else {
            proof {
                crate::chess::board::bitboard::lemma_zero_or(acc);
            }
        }
        acc
    }
}

impl Board {
    /// Whether the engine can play `m` here (see `move_shape_ok`).
    pub fn can_play(&self, m: Move) -> (r: bool)
        requires
            self.turn.is_side(),
        ensures
            r == move_shape_ok(self.pos(), m),
    {
        let flags = m.flags();
        let to = m.to().u8();
        let side = self.turn.index();
        let moved = self.piece[m.from().index()].index();
        flags != 6 && flags != 7 && (flags != 5 || (16 <= to && to < 24) || (40 <= to && to < 48)) && moved + side * 6
            < 12 && !((flags == 2 || flags == 3) && side == 1 && to == (if flags == 3 { 56 } else { 63 }))
    }

    /// The engine can take back `m` as the last move made.
    pub open spec fn can_take_back_spec(&self, m: Move) -> bool {
        &&& self.undo_stack@.len() > 0
        &&& self.positions@.len() > 0
        &&& unmake_shape_ok(self.pos(), self.turn.other().idx(), m, self.undo_stack@.last())
    }

    /// Whether the engine can take back `m`, the last move made (see `unmake_shape_ok`).
    pub fn can_take_back(&self, m: Move) -> (r: bool)
        requires
            self.turn.is_side(),
        ensures
            r == self.can_take_back_spec(m),
    {
        let n = self.undo_stack.len();
        if n == 0 || self.positions.len() == 0 {
            return false;
        }
        let u = self.undo_stack.undo_stack[n - 1];
        let flags = m.flags();
        let to = m.to().u8();
        let side = self.turn.opposite().index();
        let landed = self.piece[m.to().index()].index();
        (flags != 5 || (16 <= to && to < 24) || (40 <= to && to < 48)) && landed + side * 6 < 12 && (u.captured_piece
            == Piece::Empty || u.captured_piece.index() + (1 - side) * 6 < 12)
    }
}

} // verus!
