use vstd::prelude::*;
use crate::chess::square::{Square, lemma_square_of};
use crate::chess::constants::Color;
use crate::chess::chess_move::{Move, MoveList, MOVE_GEN_SIZE, encode};
use crate::chess::board::{Board, Position};
use crate::chess::board::bitboard::{
    Bitboard, bit, lsb_num, drop_lsb, lemma_drop_lsb_smaller, lemma_lsb_facts, knight_pattern,
    knight_pattern_spec, king_pattern, king_pattern_spec, straight_attacks, diagonal_attacks,
    FILE_A, FILE_H, RANK_1, RANK_4, RANK_5, RANK_8, WHITE_KING_CASTLE_BLOCKERS,
    WHITE_QUEEN_CASTLE_BLOCKERS, BLACK_KING_CASTLE_BLOCKERS, BLACK_QUEEN_CASTLE_BLOCKERS,
};
use crate::chess::board::attacks::{attacked, shift_up, shift_up_exec};
use crate::chess::board::hash_laws::{lemma_drop_lsb_flip, lemma_bits_flip};
use crate::chess::board::make_move::sq_mask;

verus! {

/// Which moves a generator produces.
pub trait GenType {
    spec fn captures_spec() -> bool;

    spec fn quiets_spec() -> bool;

    fn should_gen_captures() -> (r: bool)
        ensures
            r == Self::captures_spec(),
    ;

    fn should_gen_quiets() -> (r: bool)
        ensures
            r == Self::quiets_spec(),
    ;
}

/// All moves.
pub struct GenAll;

impl GenType for GenAll {
    open spec fn captures_spec() -> bool {
        true
    }

    open spec fn quiets_spec() -> bool {
        true
    }

    fn should_gen_captures() -> (r: bool) {
        true
    }

    fn should_gen_quiets() -> (r: bool) {
        true
    }
}

/// Only captures.
pub struct GenCaptures;

impl GenType for GenCaptures {
    open spec fn captures_spec() -> bool {
        true
    }

    open spec fn quiets_spec() -> bool {
        false
    }

    fn should_gen_captures() -> (r: bool) {
        true
    }

    fn should_gen_quiets() -> (r: bool) {
        false
    }
}

/// Only non-captures.
pub struct GenQuiets;

impl GenType for GenQuiets {
    open spec fn captures_spec() -> bool {
        false
    }

    open spec fn quiets_spec() -> bool {
        true
    }

    fn should_gen_captures() -> (r: bool) {
        false
    }

    fn should_gen_quiets() -> (r: bool) {
        true
    }
}

pub open spec fn mv_of(from: nat, to: nat, flag: u16) -> Move {
    Move(encode(from, to, flag))
}

/// The moves from `from` to each square of `mask`, lowest first, with flag `flag`.
pub open spec fn from_fixed(from: nat, mask: u64, flag: u16) -> Seq<Move>
    decreases mask,
{
    if mask == 0 {
        Seq::empty()
    } else {
        proof {
            lemma_drop_lsb_smaller(mask);
        }
        seq![mv_of(from, lsb_num(mask), flag)].add(from_fixed(from, drop_lsb(mask), flag))
    }
}

/// The square `dist` steps behind `t` (downwards when `up`).
pub open spec fn behind(t: nat, up: bool, dist: nat) -> nat {
    if up { (t - dist) as nat } else { t + dist }
}

/// For each square `t` of `mask`, lowest first, the move from the square `dist`
/// behind `t` to `t` with flag `flag`.
pub open spec fn shifted(mask: u64, up: bool, dist: nat, flag: u16) -> Seq<Move>
    decreases mask,
{
    if mask == 0 {
        Seq::empty()
    } else {
        proof {
            lemma_drop_lsb_smaller(mask);
        }
        seq![mv_of(behind(lsb_num(mask), up, dist), lsb_num(mask), flag)].add(shifted(drop_lsb(mask), up, dist, flag))
    }
}

/// Like `shifted`, four moves per square with the flags `f1` .. `f4` (promotions).
pub open spec fn shifted4(mask: u64, up: bool, dist: nat, f1: u16, f2: u16, f3: u16, f4: u16) -> Seq<Move>
    decreases mask,
{
    if mask == 0 {
        Seq::empty()
    } else {
        proof {
            lemma_drop_lsb_smaller(mask);
        }
        let t = lsb_num(mask);
        let f = behind(t, up, dist);
        seq![mv_of(f, t, f1), mv_of(f, t, f2), mv_of(f, t, f3), mv_of(f, t, f4)].add(
            shifted4(drop_lsb(mask), up, dist, f1, f2, f3, f4),
        )
    }
}

/// The squares a piece of kind `kind` (1 bishop .. 5 king) on `sq` attacks with occupancy `occ`.
pub open spec fn kind_pattern(kind: nat, sq: nat, occ: u64) -> u64 {
    if kind == 2 {
        knight_pattern_spec(sq)
    } else if kind == 1 {
        diagonal_attacks(sq, occ)
    } else if kind == 3 {
        straight_attacks(sq, occ)
    } else if kind == 4 {
        straight_attacks(sq, occ) | diagonal_attacks(sq, occ)
    } else {
        king_pattern_spec(sq)
    }
}

/// The moves of a piece of kind `kind` of side `side` standing on `sq`: first
/// the moves to empty squares (when `q`), then the captures (when `c`).
pub open spec fn square_moves(p: Position, side: nat, kind: nat, sq: nat, q: bool, c: bool) -> Seq<Move> {
    let pat = kind_pattern(kind, sq, p.occupied);
    let own = p.color_bb[side as int];
    let opp = p.color_bb[1 - side];
    (if q { from_fixed(sq, pat & !opp & !own, Move::QUIET) } else { Seq::empty() }).add(
        if c { from_fixed(sq, pat & opp, Move::CAPTURE) } else { Seq::empty() },
    )
}

/// The moves of the pieces of kind `kind` on the squares of `pieces`, lowest square first.
pub open spec fn kind_moves(p: Position, side: nat, kind: nat, pieces: u64, q: bool, c: bool) -> Seq<Move>
    decreases pieces,
{
    if pieces == 0 {
        Seq::empty()
    } else {
        proof {
            lemma_drop_lsb_smaller(pieces);
        }
        square_moves(p, side, kind, lsb_num(pieces), q, c).add(kind_moves(p, side, kind, drop_lsb(pieces), q, c))
    }
}

/// The pawn pushes of side `side`: single pushes, double pushes, then
/// promotions (knight, queen, rook, bishop for each square).
pub open spec fn pawn_quiet_spec(p: Position, side: nat) -> Seq<Move> {
    let pawns = p.piece_bb[(side * 6) as int];
    let occ = p.occupied;
    let last = if side == 0 { RANK_8 } else { RANK_1 };
    let dpr = if side == 0 { RANK_4 } else { RANK_5 };
    let up = side == 0;
    let pushes = shift_up(side, pawns) & !occ;
    let single = pushes & !last;
    let double = shift_up(side, single) & dpr & !occ;
    let promos = pushes & last;
    shifted(single, up, 8, 0).add(shifted(double, up, 16, 1)).add(shifted4(promos, up, 8, 8, 11, 10, 9))
}

/// The squares attacked towards the a-file side of pawns `pawns` of side `side`.
pub open spec fn pawn_left(side: nat, pawns: u64) -> u64 {
    if side == 0 { (pawns << 7u64) & !FILE_H } else { (pawns >> 9u64) & !FILE_H }
}

/// The squares attacked towards the h-file side of pawns `pawns` of side `side`.
pub open spec fn pawn_right(side: nat, pawns: u64) -> u64 {
    if side == 0 { (pawns << 9u64) & !FILE_A } else { (pawns >> 7u64) & !FILE_A }
}

/// The plain pawn captures of side `side` (not onto the last rank): to the
/// left, then to the right.
pub open spec fn pawn_plain_caps(p: Position, side: nat) -> Seq<Move> {
    let pawns = p.piece_bb[(side * 6) as int];
    let opp_bb = p.color_bb[1 - side];
    let last = if side == 0 { RANK_8 } else { RANK_1 };
    let up = side == 0;
    let dl: nat = if side == 0 { 7 } else { 9 };
    let dr: nat = if side == 0 { 9 } else { 7 };
    shifted(pawn_left(side, pawns) & opp_bb & !last, up, dl, 4).add(
        shifted(pawn_right(side, pawns) & opp_bb & !last, up, dr, 4),
    )
}

/// The en passant captures of side `side`: to the left, then to the right.
pub open spec fn pawn_ep_caps(p: Position, side: nat) -> Seq<Move> {
    let pawns = p.piece_bb[(side * 6) as int];
    let up = side == 0;
    let dl: nat = if side == 0 { 7 } else { 9 };
    let dr: nat = if side == 0 { 9 } else { 7 };
    shifted(pawn_left(side, pawns) & p.en_passant, up, dl, 5).add(
        shifted(pawn_right(side, pawns) & p.en_passant, up, dr, 5),
    )
}

/// The capturing promotions of side `side` (knight, bishop, queen, rook for
/// each square): to the left, then to the right.
pub open spec fn pawn_promo_caps(p: Position, side: nat) -> Seq<Move> {
    let pawns = p.piece_bb[(side * 6) as int];
    let opp_bb = p.color_bb[1 - side];
    let last = if side == 0 { RANK_8 } else { RANK_1 };
    let up = side == 0;
    let dl: nat = if side == 0 { 7 } else { 9 };
    let dr: nat = if side == 0 { 9 } else { 7 };
    shifted4(pawn_left(side, pawns) & opp_bb & last, up, dl, 12, 13, 15, 14).add(
        shifted4(pawn_right(side, pawns) & opp_bb & last, up, dr, 12, 13, 15, 14),
    )
}

/// The pawn captures of side `side`: plain captures, en passant captures,
/// then capturing promotions.
pub open spec fn pawn_capture_spec(p: Position, side: nat) -> Seq<Move> {
    pawn_plain_caps(p, side).add(pawn_ep_caps(p, side)).add(pawn_promo_caps(p, side))
}

/// The pawn moves of side `side`: the pushes (when `q`), then the captures (when `c`).
pub open spec fn pawn_moves_spec(p: Position, side: nat, q: bool, c: bool) -> Seq<Move> {
    (if q { pawn_quiet_spec(p, side) } else { Seq::empty() }).add(
        if c { pawn_capture_spec(p, side) } else { Seq::empty() },
    )
}

/// The bits of `mask` are at least `dist` (when `up`) or below `64 - dist`.
pub open spec fn shift_room(mask: u64, up: bool, dist: u64) -> bool {
    if up {
        mask & sub_one(1u64 << dist) == 0
    } else {
        mask >> ((64 - dist) as u64) == 0
    }
}

pub open spec fn sub_one(x: u64) -> u64 {
    (x - 1) as u64
}

proof fn lemma_lowest_bit_room(mask: u64, t: u64, dist: u64)
    by (bit_vector)
    requires
        1 <= dist <= 16,
        t < 64,
        (mask >> t) & 1u64 == 1u64,
    ensures
        mask & sub_one(1u64 << dist) == 0 ==> t >= dist,
        mask & sub_one(1u64 << dist) == 0 ==> (mask & sub_one(mask)) & sub_one(1u64 << dist) == 0,
        mask >> ((64 - dist) as u64) == 0 ==> t + dist < 64,
        mask >> ((64 - dist) as u64) == 0 ==> (mask & sub_one(mask)) >> ((64 - dist) as u64) == 0,
{
}

proof fn lemma_shift_room(mask: u64, up: bool, dist: u64)
    requires
        mask != 0,
        1 <= dist <= 16,
        shift_room(mask, up, dist),
    ensures
        up ==> lsb_num(mask) >= dist,
        !up ==> lsb_num(mask) + dist < 64,
        shift_room(drop_lsb(mask), up, dist),
{
    lemma_lsb_facts(mask);
    lemma_lowest_bit_room(mask, lsb_num(mask) as u64, dist);
}

/// Shifting by `d` leaves `d` bits of room, masking keeps room, and shifting
/// a mask with room `d` by a further rank gives room `d + 8`.
proof fn lemma_room(a: u64, m: u64, d: u64)
    by (bit_vector)
    requires
        1 <= d <= 16,
    ensures
        (a << d) & sub_one(1u64 << d) == 0,
        (a >> d) >> ((64 - d) as u64) == 0,
        a & sub_one(1u64 << d) == 0 ==> (a & m) & sub_one(1u64 << d) == 0,
        a >> ((64 - d) as u64) == 0 ==> (a & m) >> ((64 - d) as u64) == 0,
        d <= 8 && a & sub_one(1u64 << d) == 0 ==> (a << 8u64) & sub_one(1u64 << ((d + 8) as u64)) == 0,
        d <= 8 && a >> ((64 - d) as u64) == 0 ==> (a >> 8u64) >> ((64 - d - 8) as u64) == 0,
{
}

/// The pawn attack sets, masked once or twice, leave room for the pawns
/// behind them.
proof fn lemma_pawn_room(side: nat, x: u64, m1: u64, m2: u64)
    ensures
        shift_room(pawn_left(side, x) & m1, side == 0, if side == 0 { 7 } else { 9 }),
        shift_room(pawn_left(side, x) & m1 & m2, side == 0, if side == 0 { 7 } else { 9 }),
        shift_room(pawn_right(side, x) & m1, side == 0, if side == 0 { 9 } else { 7 }),
        shift_room(pawn_right(side, x) & m1 & m2, side == 0, if side == 0 { 9 } else { 7 }),
{
    if side == 0 {
        lemma_room(x, m1, 7);
        lemma_room(x << 7u64, !FILE_H, 7);
        lemma_room((x << 7u64) & !FILE_H, m1, 7);
        lemma_room((x << 7u64) & !FILE_H & m1, m2, 7);
        lemma_room(x, m1, 9);
        lemma_room(x << 9u64, !FILE_A, 9);
        lemma_room((x << 9u64) & !FILE_A, m1, 9);
        lemma_room((x << 9u64) & !FILE_A & m1, m2, 9);
    } else {
        lemma_room(x, m1, 9);
        lemma_room(x >> 9u64, !FILE_H, 9);
        lemma_room((x >> 9u64) & !FILE_H, m1, 9);
        lemma_room((x >> 9u64) & !FILE_H & m1, m2, 9);
        lemma_room(x, m1, 7);
        lemma_room(x >> 7u64, !FILE_A, 7);
        lemma_room((x >> 7u64) & !FILE_A, m1, 7);
        lemma_room((x >> 7u64) & !FILE_A & m1, m2, 7);
    }
}

impl<const N: usize> MoveList<N> {
    /// Appends the moves from `from` to each square of `mask`, lowest first.
    pub fn push_targets(&mut self, from: Square, mask: u64, flag: u16)
        requires
            from.num() < 64,
        ensures
            final(self)@ == old(self)@ + from_fixed(from.num(), mask, flag),
    {
        let mut rest = mask;
        while rest != 0
            invariant
                from.num() < 64,
                self@ + from_fixed(from.num(), rest, flag) == old(self)@ + from_fixed(from.num(), mask, flag),
            decreases rest,
        {
            proof {
                lemma_drop_lsb_smaller(rest);
                lemma_lsb_facts(rest);
            }
            let b = Bitboard(rest);
            let to = b.lsb();
            let ghost before = self@;
            self.push(Move::new(from, to, flag));
            assert(self@ + from_fixed(from.num(), drop_lsb(rest), flag) =~= before + from_fixed(from.num(), rest, flag));
            rest = rest & (rest - 1);
        }
        assert(self@ + from_fixed(from.num(), 0, flag) =~= self@);
    }

    /// Appends, for each square `t` of `mask`, the move from the square `dist`
    /// behind `t` (below it when `up`) to `t`.
    pub fn push_shifted(&mut self, mask: u64, up: bool, dist: u8, flag: u16)
        requires
            1 <= dist <= 16,
            shift_room(mask, up, dist as u64),
        ensures
            final(self)@ == old(self)@ + shifted(mask, up, dist as nat, flag),
    {
        let mut rest = mask;
        while rest != 0
            invariant
                1 <= dist <= 16,
                shift_room(rest, up, dist as u64),
                self@ + shifted(rest, up, dist as nat, flag) == old(self)@ + shifted(mask, up, dist as nat, flag),
            decreases rest,
        {
            proof {
                lemma_drop_lsb_smaller(rest);
                lemma_lsb_facts(rest);
                lemma_shift_room(rest, up, dist as u64);
                lemma_square_of(lsb_num(rest));
            }
            let b = Bitboard(rest);
            let to = b.lsb();
            let t = to.u8();
            let f = if up { t - dist } else { t + dist };
            proof {
                lemma_square_of(f as nat);
            }
            let from = Square::from_u8(f);
            let ghost before = self@;
            self.push(Move::new(from, to, flag));
            assert(self@ + shifted(drop_lsb(rest), up, dist as nat, flag) =~= before + shifted(rest, up, dist as nat, flag));
            rest = rest & (rest - 1);
        }
        assert(self@ + shifted(0, up, dist as nat, flag) =~= self@);
    }

    /// Like `push_shifted`, four moves per square with the given flags.
    pub fn push_shifted4(&mut self, mask: u64, up: bool, dist: u8, f1: u16, f2: u16, f3: u16, f4: u16)
        requires
            1 <= dist <= 16,
            shift_room(mask, up, dist as u64),
        ensures
            final(self)@ == old(self)@ + shifted4(mask, up, dist as nat, f1, f2, f3, f4),
    {
        let mut rest = mask;
        while rest != 0
            invariant
                1 <= dist <= 16,
                shift_room(rest, up, dist as u64),
                self@ + shifted4(rest, up, dist as nat, f1, f2, f3, f4) == old(self)@ + shifted4(mask, up, dist as nat, f1, f2, f3, f4),
            decreases rest,
        {
            proof {
                lemma_drop_lsb_smaller(rest);
                lemma_lsb_facts(rest);
                lemma_shift_room(rest, up, dist as u64);
                lemma_square_of(lsb_num(rest));
            }
            let b = Bitboard(rest);
            let to = b.lsb();
            let t = to.u8();
            let f = if up { t - dist } else { t + dist };
            proof {
                lemma_square_of(f as nat);
            }
            let from = Square::from_u8(f);
            let ghost before = self@;
            self.push(Move::new(from, to, f1));
            self.push(Move::new(from, to, f2));
            self.push(Move::new(from, to, f3));
            self.push(Move::new(from, to, f4));
            assert(self@ + shifted4(drop_lsb(rest), up, dist as nat, f1, f2, f3, f4) =~= before + shifted4(rest, up, dist as nat, f1, f2, f3, f4));
            rest = rest & (rest - 1);
        }
        assert(self@ + shifted4(0, up, dist as nat, f1, f2, f3, f4) =~= self@);
    }
}

/// The castling moves over one colour's castling squares (`block` 0 white,
/// 1 black): king side first, each when its right is held, its squares
/// between king and rook are empty, and the king's square and the squares it
/// crosses are not attacked by the opponent of `side`.
pub open spec fn castle_block_spec(p: Position, side: nat, block: nat) -> Seq<Move> {
    let opp = (1 - side) as nat;
    let c = p.castling;
    let occ = p.occupied;
    let (e, f, g, cs, d, kbit, qbit, kblock, qblock) = if block == 0 {
        (4nat, 5nat, 6nat, 2nat, 3nat, 1u8, 4u8, WHITE_KING_CASTLE_BLOCKERS, WHITE_QUEEN_CASTLE_BLOCKERS)
    } else {
        (60nat, 61nat, 62nat, 58nat, 59nat, 2u8, 8u8, BLACK_KING_CASTLE_BLOCKERS, BLACK_QUEEN_CASTLE_BLOCKERS)
    };
    if !attacked(p, opp, e) {
        (if c & kbit != 0 && occ & kblock == 0 && !attacked(p, opp, f) && !attacked(p, opp, g) {
            seq![mv_of(e, g, Move::KING_CASTLE)]
        } else {
            Seq::empty()
        }).add(
            if c & qbit != 0 && occ & qblock == 0 && !attacked(p, opp, cs) && !attacked(p, opp, d) {
                seq![mv_of(e, cs, Move::QUEEN_CASTLE)]
            } else {
                Seq::empty()
            },
        )
    } else {
        Seq::empty()
    }
}

/// The castling moves the engine lists for side `side`: both colours' castling
/// squares are looked at, white's first, each against attacks by the opponent of `side`.
pub open spec fn castling_spec(p: Position, side: nat) -> Seq<Move> {
    castle_block_spec(p, side, 0).add(castle_block_spec(p, side, 1))
}

/// The king moves of side `side`: those of its lowest king, none without a king.
pub open spec fn king_moves_spec(p: Position, side: nat, q: bool, c: bool) -> Seq<Move> {
    let kbb = p.piece_bb[(side * 6 + 5) as int];
    if kbb == 0 {
        Seq::empty()
    } else {
        square_moves(p, side, 5, lsb_num(kbb), q, c)
    }
}

/// Every pseudo-legal move the engine lists for side `side`, in its order:
/// pawns, knights, bishops, rooks, queens, king, castling.
pub open spec fn gen_spec(p: Position, side: nat, q: bool, c: bool) -> Seq<Move> {
    let off = side * 6;
    pawn_moves_spec(p, side, q, c).add(kind_moves(p, side, 2, p.piece_bb[(off + 2) as int], q, c)).add(
        kind_moves(p, side, 1, p.piece_bb[(off + 1) as int], q, c),
    ).add(kind_moves(p, side, 3, p.piece_bb[(off + 3) as int], q, c)).add(
        kind_moves(p, side, 4, p.piece_bb[(off + 4) as int], q, c),
    ).add(king_moves_spec(p, side, q, c)).add(if q { castling_spec(p, side) } else { Seq::empty() })
}

impl Board {
    /// The squares a piece of kind `kind` on `sq` attacks on this board.
    fn kind_pattern_exec(&self, kind: usize, sq: Square) -> (r: u64)
        requires
            sq.num() < 64,
            1 <= kind <= 5,
        ensures
            r == kind_pattern(kind as nat, sq.num(), self.occupied),
    {
        if kind == 2 {
            knight_pattern(sq).0
        } else if kind == 1 {
            self.diag_lines_w_bound(sq).0
        } else if kind == 3 {
            self.straight_lines_w_bound(sq).0
        } else if kind == 4 {
            self.straight_lines_w_bound(sq).0 | self.diag_lines_w_bound(sq).0
        } else {
            king_pattern(sq).0
        }
    }

    /// Appends the moves of the piece of kind `kind` of `side` on `from`.
    fn square_moves_exec(&self, side: Color, kind: usize, from: Square, q: bool, c: bool, move_list: &mut MoveList<MOVE_GEN_SIZE>)
        requires
            side.is_side(),
            from.num() < 64,
            1 <= kind <= 5,
        ensures
            final(move_list)@ == old(move_list)@ + square_moves(self.pos(), side.idx(), kind as nat, from.num(), q, c),
    {
        let pattern_board = self.kind_pattern_exec(kind, from);
        let own = self.color_bb[side.index()];
        let opp = self.color_bb[1 - side.index()];
        let ghost start = move_list@;
        if q {
            move_list.push_targets(from, pattern_board & !opp & !own, Move::QUIET);
        }
        let ghost mid = move_list@;
        if c {
            move_list.push_targets(from, pattern_board & opp, Move::CAPTURE);
        }
        assert(move_list@ =~= start + square_moves(self.pos(), side.idx(), kind as nat, from.num(), q, c));
    }

    /// Appends the moves of all pieces of kind `kind` of `side`.
    fn kind_moves_exec(&self, side: Color, kind: usize, q: bool, c: bool, move_list: &mut MoveList<MOVE_GEN_SIZE>)
        requires
            side.is_side(),
            1 <= kind <= 4,
        ensures
            final(move_list)@ == old(move_list)@ + kind_moves(self.pos(), side.idx(), kind as nat, self.bb(side.idx() * 6 + kind as nat), q, c),
    {
        let mut rest = self.piece_bb[side.offset() + kind];
        let ghost all = rest;
        while rest != 0
            invariant
                side.is_side(),
                1 <= kind <= 4,
                move_list@ + kind_moves(self.pos(), side.idx(), kind as nat, rest, q, c)
                    == old(move_list)@ + kind_moves(self.pos(), side.idx(), kind as nat, all, q, c),
            decreases rest,
        {
            proof {
                lemma_drop_lsb_smaller(rest);
                lemma_lsb_facts(rest);
                lemma_square_of(lsb_num(rest));
            }
            let from = Bitboard(rest).lsb();
            let ghost before = move_list@;
            self.square_moves_exec(side, kind, from, q, c, move_list);
            assert(move_list@ + kind_moves(self.pos(), side.idx(), kind as nat, drop_lsb(rest), q, c)
                =~= before + kind_moves(self.pos(), side.idx(), kind as nat, rest, q, c));
            rest = rest & (rest - 1);
        }
        assert(move_list@ + kind_moves(self.pos(), side.idx(), kind as nat, 0, q, c) =~= move_list@);
    }

    pub fn knight_moves<G: GenType>(&self, side: Color, move_list: &mut MoveList<MOVE_GEN_SIZE>)
        requires
            side.is_side(),
        ensures
            final(move_list)@ == old(move_list)@ + kind_moves(self.pos(), side.idx(), 2, self.bb(side.idx() * 6 + 2), G::quiets_spec(), G::captures_spec()),
    {
        self.kind_moves_exec(side, 2, G::should_gen_quiets(), G::should_gen_captures(), move_list);
    }

    pub fn bishop_moves<G: GenType>(&self, side: Color, move_list: &mut MoveList<MOVE_GEN_SIZE>)
        requires
            side.is_side(),
        ensures
            final(move_list)@ == old(move_list)@ + kind_moves(self.pos(), side.idx(), 1, self.bb(side.idx() * 6 + 1), G::quiets_spec(), G::captures_spec()),
    {
        self.kind_moves_exec(side, 1, G::should_gen_quiets(), G::should_gen_captures(), move_list);
    }

    pub fn rook_moves<G: GenType>(&self, side: Color, move_list: &mut MoveList<MOVE_GEN_SIZE>)
        requires
            side.is_side(),
        ensures
            final(move_list)@ == old(move_list)@ + kind_moves(self.pos(), side.idx(), 3, self.bb(side.idx() * 6 + 3), G::quiets_spec(), G::captures_spec()),
    {
        self.kind_moves_exec(side, 3, G::should_gen_quiets(), G::should_gen_captures(), move_list);
    }

    pub fn queen_moves<G: GenType>(&self, side: Color, move_list: &mut MoveList<MOVE_GEN_SIZE>)
        requires
            side.is_side(),
        ensures
            final(move_list)@ == old(move_list)@ + kind_moves(self.pos(), side.idx(), 4, self.bb(side.idx() * 6 + 4), G::quiets_spec(), G::captures_spec()),
    {
        self.kind_moves_exec(side, 4, G::should_gen_quiets(), G::should_gen_captures(), move_list);
    }

    /// The moves of the king of `side` (the lowest one; none if it has no king).
    pub fn king_moves<G: GenType>(&self, side: Color, move_list: &mut MoveList<MOVE_GEN_SIZE>)
        requires
            side.is_side(),
        ensures
            final(move_list)@ == old(move_list)@ + king_moves_spec(self.pos(), side.idx(), G::quiets_spec(), G::captures_spec()),
    {
        let king_board = self.piece_bb[side.offset() + 5];
        if king_board == 0 {
            assert(move_list@ + Seq::<Move>::empty() =~= move_list@);
            return;
        }
        proof {
            Bitboard(king_board).lemma_lsb_square();
        }
        let from = Bitboard(king_board).lsb();
        self.square_moves_exec(side, 5, from, G::should_gen_quiets(), G::should_gen_captures(), move_list);
    }

    /// The castling moves of one colour's castling squares (`block` 0 white,
    /// 1 black), checked against attacks by the opponent of `side`.
    fn castle_block(&self, side: Color, block: usize, move_list: &mut MoveList<MOVE_GEN_SIZE>)
        requires
            side.is_side(),
            block < 2,
        ensures
            final(move_list)@ == old(move_list)@ + castle_block_spec(self.pos(), side.idx(), block as nat),
    {
        let opp = side.opposite();
        let (e, f, g, c, d, kbit, qbit, kblock, qblock) = if block == 0 {
            (Square::E1, Square::F1, Square::G1, Square::C1, Square::D1, 1u8, 4u8, WHITE_KING_CASTLE_BLOCKERS, WHITE_QUEEN_CASTLE_BLOCKERS)
        } else {
            (Square::E8, Square::F8, Square::G8, Square::C8, Square::D8, 2u8, 8u8, BLACK_KING_CASTLE_BLOCKERS, BLACK_QUEEN_CASTLE_BLOCKERS)
        };
        let ghost start = move_list@;
        if !self.sq_attacked_by(opp, e) {
            if self.castling_rights & kbit != 0 {
                if self.occupied & kblock == 0 {
                    if !self.sq_attacked_by(opp, f) && !self.sq_attacked_by(opp, g) {
                        move_list.push(Move::new(e, g, Move::KING_CASTLE));
                    }
                }
            }
            let ghost mid = move_list@;
            if self.castling_rights & qbit != 0 {
                if self.occupied & qblock == 0 {
                    if !self.sq_attacked_by(opp, c) && !self.sq_attacked_by(opp, d) {
                        move_list.push(Move::new(e, c, Move::QUEEN_CASTLE));
                    }
                }
            }
        }
        assert(move_list@ =~= start + castle_block_spec(self.pos(), side.idx(), block as nat));
    }

    /// The castling moves (see `castling_spec`), when quiet moves are wanted.
    pub fn castling_moves<G: GenType>(&self, side: Color, move_list: &mut MoveList<MOVE_GEN_SIZE>)
        requires
            side.is_side(),
        ensures
            final(move_list)@ == old(move_list)@ + (if G::quiets_spec() { castling_spec(self.pos(), side.idx()) } else { Seq::empty() }),
    {
        let ghost start = move_list@;
        if !G::should_gen_quiets() {
            assert(start + Seq::<Move>::empty() =~= start);
            return;
        }
        self.castle_block(side, 0, move_list);
        self.castle_block(side, 1, move_list);
        assert(move_list@ =~= start + castling_spec(self.pos(), side.idx()));
    }

    /// The pawn moves of `side` (see `pawn_moves_spec`).
    pub fn pawn_moves<G: GenType>(&self, side: Color, move_list: &mut MoveList<MOVE_GEN_SIZE>)
        requires
            side.is_side(),
        ensures
            final(move_list)@ == old(move_list)@ + pawn_moves_spec(self.pos(), side.idx(), G::quiets_spec(), G::captures_spec()),
    {
        let q = G::should_gen_quiets();
        let c = G::should_gen_captures();
        self.pawn_moves_exec(side, q, c, move_list);
    }

    fn pawn_moves_exec(&self, side: Color, q: bool, c: bool, move_list: &mut MoveList<MOVE_GEN_SIZE>)
        requires
            side.is_side(),
        ensures
            final(move_list)@ == old(move_list)@ + pawn_moves_spec(self.pos(), side.idx(), q, c),
    {
        let ghost start = move_list@;
        if q {
            self.pawn_quiets(side, move_list);
        }
        if c {
            self.pawn_captures(side, move_list);
        }
        assert(move_list@ =~= start + pawn_moves_spec(self.pos(), side.idx(), q, c));
    }

    fn pawn_quiets(&self, side: Color, move_list: &mut MoveList<MOVE_GEN_SIZE>)
        requires
            side.is_side(),
        ensures
            final(move_list)@ == old(move_list)@ + pawn_quiet_spec(self.pos(), side.idx()),
    {
        let si = side.index();
        let pawn_board = self.piece_bb[side.offset()];
        let occ = self.occupied;
        let last = if si == 0 { RANK_8 } else { RANK_1 };
        let dpr = if si == 0 { RANK_4 } else { RANK_5 };
        let up = si == 0;
        let ghost start = move_list@;
        let sh = shift_up_exec(si, pawn_board);
        let pushes = sh & !occ;
        let single_pushes = pushes & !last;
        let sh2 = shift_up_exec(si, single_pushes);
        let double_pushes = sh2 & dpr & !occ;
        let promotions = pushes & last;
        proof {
            lemma_room(pawn_board, !occ, 8);
            lemma_room(sh, !occ, 8);
            lemma_room(pushes, !last, 8);
            lemma_room(pushes, last, 8);
            lemma_room(single_pushes, dpr, 8);
            lemma_room(sh2, dpr, 16);
            lemma_room(sh2 & dpr, !occ, 16);
        }
        move_list.push_shifted(single_pushes, up, 8, Move::QUIET);
        move_list.push_shifted(double_pushes, up, 16, Move::DOUBLE_PAWN);
        move_list.push_shifted4(promotions, up, 8, Move::PROMO_KNIGHT, Move::PROMO_QUEEN, Move::PROMO_ROOK, Move::PROMO_BISHOP);
        assert(move_list@ =~= start + pawn_quiet_spec(self.pos(), side.idx()));
    }

    fn pawn_captures(&self, side: Color, move_list: &mut MoveList<MOVE_GEN_SIZE>)
        requires
            side.is_side(),
        ensures
            final(move_list)@ == old(move_list)@ + pawn_capture_spec(self.pos(), side.idx()),
    {
        let ghost start = move_list@;
        self.pawn_plain_captures(side, move_list);
        let ghost mid1 = move_list@;
        self.pawn_en_passants(side, move_list);
        let ghost mid2 = move_list@;
        self.pawn_promo_captures(side, move_list);
        assert(move_list@ =~= start + pawn_capture_spec(self.pos(), side.idx()));
    }

    fn pawn_plain_captures(&self, side: Color, move_list: &mut MoveList<MOVE_GEN_SIZE>)
        requires
            side.is_side(),
        ensures
            final(move_list)@ == old(move_list)@ + pawn_plain_caps(self.pos(), side.idx()),
    {
        let si = side.index();
        let x = self.piece_bb[side.offset()];
        let l = if si == 0 { RANK_8 } else { RANK_1 };
        let up = si == 0;
        let ghost start = move_list@;
        let ob = self.color_bb[1 - si];
        let al = if up { (x << 7u64) & !FILE_H } else { (x >> 9u64) & !FILE_H };
        let ar = if up { (x << 9u64) & !FILE_A } else { (x >> 7u64) & !FILE_A };
        let dl: u8 = if up { 7 } else { 9 };
        let dr: u8 = if up { 9 } else { 7 };
        proof {
            lemma_pawn_room(side.idx(), x, ob, !l);
        }
        move_list.push_shifted(al & ob & !l, up, dl, Move::CAPTURE);
        move_list.push_shifted(ar & ob & !l, up, dr, Move::CAPTURE);
        assert(move_list@ =~= start + pawn_plain_caps(self.pos(), side.idx()));
    }

    fn pawn_en_passants(&self, side: Color, move_list: &mut MoveList<MOVE_GEN_SIZE>)
        requires
            side.is_side(),
        ensures
            final(move_list)@ == old(move_list)@ + pawn_ep_caps(self.pos(), side.idx()),
    {
        let si = side.index();
        let x = self.piece_bb[side.offset()];
        let up = si == 0;
        let ghost start = move_list@;
        let ep = self.en_passant;
        let al = if up { (x << 7u64) & !FILE_H } else { (x >> 9u64) & !FILE_H };
        let ar = if up { (x << 9u64) & !FILE_A } else { (x >> 7u64) & !FILE_A };
        let dl: u8 = if up { 7 } else { 9 };
        let dr: u8 = if up { 9 } else { 7 };
        proof {
            lemma_pawn_room(side.idx(), x, ep, ep);
        }
        move_list.push_shifted(al & ep, up, dl, Move::EN_PASSANT);
        move_list.push_shifted(ar & ep, up, dr, Move::EN_PASSANT);
        assert(move_list@ =~= start + pawn_ep_caps(self.pos(), side.idx()));
    }

    fn pawn_promo_captures(&self, side: Color, move_list: &mut MoveList<MOVE_GEN_SIZE>)
        requires
            side.is_side(),
        ensures
            final(move_list)@ == old(move_list)@ + pawn_promo_caps(self.pos(), side.idx()),
    {
        let si = side.index();
        let x = self.piece_bb[side.offset()];
        let l = if si == 0 { RANK_8 } else { RANK_1 };
        let up = si == 0;
        let ghost start = move_list@;
        let ob = self.color_bb[1 - si];
        let al = if up { (x << 7u64) & !FILE_H } else { (x >> 9u64) & !FILE_H };
        let ar = if up { (x << 9u64) & !FILE_A } else { (x >> 7u64) & !FILE_A };
        let dl: u8 = if up { 7 } else { 9 };
        let dr: u8 = if up { 9 } else { 7 };
        proof {
            lemma_pawn_room(side.idx(), x, ob, l);
        }
        move_list.push_shifted4(al & ob & l, up, dl, Move::PROMO_CAP_KNIGHT, Move::PROMO_CAP_BISHOP, Move::PROMO_CAP_QUEEN, Move::PROMO_CAP_ROOK);
        move_list.push_shifted4(ar & ob & l, up, dr, Move::PROMO_CAP_KNIGHT, Move::PROMO_CAP_BISHOP, Move::PROMO_CAP_QUEEN, Move::PROMO_CAP_ROOK);
        assert(move_list@ =~= start + pawn_promo_caps(self.pos(), side.idx()));
    }

    fn gen_moves<G: GenType>(&self, side: Color) -> (r: MoveList<MOVE_GEN_SIZE>)
        requires
            side.is_side(),
        ensures
            r@ == gen_spec(self.pos(), side.idx(), G::quiets_spec(), G::captures_spec()),
    {
        let mut move_list = MoveList::new();
        self.pawn_moves::<G>(side, &mut move_list);
        self.knight_moves::<G>(side, &mut move_list);
        self.bishop_moves::<G>(side, &mut move_list);
        self.rook_moves::<G>(side, &mut move_list);
        self.queen_moves::<G>(side, &mut move_list);
        self.king_moves::<G>(side, &mut move_list);
        self.castling_moves::<G>(side, &mut move_list);
        assert(move_list@ =~= gen_spec(self.pos(), side.idx(), G::quiets_spec(), G::captures_spec()));
        move_list
    }

    /// Every pseudo-legal move of the side to move.
    pub fn generate_pseudolegals(&self) -> (r: MoveList<MOVE_GEN_SIZE>)
        requires
            self.turn.is_side(),
        ensures
            r@ == gen_spec(self.pos(), self.turn.idx(), true, true),
    {
        self.gen_moves::<GenAll>(self.turn)
    }

    /// The pseudo-legal captures of the side to move.
    pub fn generate_captures(&self) -> (r: MoveList<MOVE_GEN_SIZE>)
        requires
            self.turn.is_side(),
        ensures
            r@ == gen_spec(self.pos(), self.turn.idx(), false, true),
    {
        self.gen_moves::<GenCaptures>(self.turn)
    }

    /// The pseudo-legal non-captures of the side to move.
    pub fn generate_quiets(&self) -> (r: MoveList<MOVE_GEN_SIZE>)
        requires
            self.turn.is_side(),
        ensures
            r@ == gen_spec(self.pos(), self.turn.idx(), true, false),
    {
        self.gen_moves::<GenQuiets>(self.turn)
    }
}

proof fn lemma_kind_moves_split(p: Position, side: nat, kind: nat, pieces: u64)
    ensures
        kind_moves(p, side, kind, pieces, true, true).to_multiset() =~= kind_moves(p, side, kind, pieces, true, false).to_multiset().add(
            kind_moves(p, side, kind, pieces, false, true).to_multiset(),
        ),
    decreases pieces,
{
    broadcast use vstd::seq_lib::lemma_multiset_commutative, vstd::multiset::group_multiset_axioms, vstd::seq_lib::group_to_multiset_ensures;

    if pieces == 0 {
        let e = Seq::<Move>::empty();
        assert forall|m: Move| e.to_multiset().count(m) == 0 by {
            assert(!e.contains(m));
        }
    } else {
        lemma_drop_lsb_smaller(pieces);
        lemma_kind_moves_split(p, side, kind, drop_lsb(pieces));
        let sq = lsb_num(pieces);
        lemma_square_moves_split(p, side, kind, sq);
        let tt = kind_moves(p, side, kind, pieces, true, true);
        let tf = kind_moves(p, side, kind, pieces, true, false);
        let ft = kind_moves(p, side, kind, pieces, false, true);
        let rest = drop_lsb(pieces);
        assert(tt == square_moves(p, side, kind, sq, true, true) + kind_moves(p, side, kind, rest, true, true));
        assert(tf == square_moves(p, side, kind, sq, true, false) + kind_moves(p, side, kind, rest, true, false));
        assert(ft == square_moves(p, side, kind, sq, false, true) + kind_moves(p, side, kind, rest, false, true));
        assert forall|m: Move| tt.to_multiset().count(m) == tf.to_multiset().count(m) + ft.to_multiset().count(m) by {}
    }
}

proof fn lemma_square_moves_split(p: Position, side: nat, kind: nat, sq: nat)
    ensures
        square_moves(p, side, kind, sq, true, true).to_multiset() =~= square_moves(p, side, kind, sq, true, false).to_multiset().add(
            square_moves(p, side, kind, sq, false, true).to_multiset(),
        ),
{
    broadcast use vstd::seq_lib::lemma_multiset_commutative, vstd::multiset::group_multiset_axioms;

    let pat = kind_pattern(kind, sq, p.occupied);
    let own = p.color_bb[side as int];
    let opp = p.color_bb[1 - side];
    let a = from_fixed(sq, pat & !opp & !own, Move::QUIET);
    let b = from_fixed(sq, pat & opp, Move::CAPTURE);
    assert(square_moves(p, side, kind, sq, true, true) == a + b);
    assert(square_moves(p, side, kind, sq, true, false) =~= a);
    assert(square_moves(p, side, kind, sq, false, true) =~= b);
}

/// The captures and the quiet moves the engine lists for a side together are
/// all its listed moves, each as often: generating them apart splits the
/// full list.
pub proof fn law_captures_and_quiets_split(p: Position, side: nat)
    ensures
        gen_spec(p, side, true, true).to_multiset() =~= gen_spec(p, side, true, false).to_multiset().add(
            gen_spec(p, side, false, true).to_multiset(),
        ),
{
    broadcast use vstd::seq_lib::lemma_multiset_commutative, vstd::multiset::group_multiset_axioms;

    let off = side * 6;
    lemma_kind_moves_split(p, side, 2, p.piece_bb[(off + 2) as int]);
    lemma_kind_moves_split(p, side, 1, p.piece_bb[(off + 1) as int]);
    lemma_kind_moves_split(p, side, 3, p.piece_bb[(off + 3) as int]);
    lemma_kind_moves_split(p, side, 4, p.piece_bb[(off + 4) as int]);
}

/// A square of `mask` stays a square of it after its lowest square is
/// dropped, unless it is that lowest square.
proof fn lemma_bit_after_drop(mask: u64, t: nat)
    requires
        mask != 0,
        t < 64,
        bit(mask, t as int),
    ensures
        t == lsb_num(mask) || bit(drop_lsb(mask), t as int),
{
    lemma_lsb_facts(mask);
    lemma_drop_lsb_flip(mask);
    lemma_bits_flip(mask, lsb_num(mask) as u64, t as u64);
}

/// `shifted` lists a move to every square of its mask.
proof fn lemma_shifted_has(mask: u64, up: bool, dist: nat, flag: u16, t: nat)
    requires
        t < 64,
        bit(mask, t as int),
    ensures
        shifted(mask, up, dist, flag).contains(mv_of(behind(t, up, dist), t, flag)),
    decreases mask,
{
    let x = mv_of(behind(t, up, dist), t, flag);
    if mask == 0 {
        lemma_bits_flip(0, 0, t as u64);
        assert(!bit(0u64, t as int));
    } else {
        lemma_drop_lsb_smaller(mask);
        lemma_bit_after_drop(mask, t);
        let head = seq![mv_of(behind(lsb_num(mask), up, dist), lsb_num(mask), flag)];
        let rest = shifted(drop_lsb(mask), up, dist, flag);
        assert(shifted(mask, up, dist, flag) == head + rest);
        if t == lsb_num(mask) {
            assert((head + rest)[0] == x);
        } else {
            lemma_shifted_has(drop_lsb(mask), up, dist, flag, t);
            let k = choose|k: int| 0 <= k < rest.len() && rest[k] == x;
            assert((head + rest)[k + 1] == x);
        }
    }
}

/// A pawn on `f` attacks the square one rank forward and one file aside,
/// where that square is on the board, and the en passant board of that
/// square holds it.
proof fn lemma_pawn_diagonals(x: u64, f: u64)
    by (bit_vector)
    requires
        f < 64,
        (x >> f) & 1u64 == 1u64,
    ensures
        f % 8 != 0 && f + 7 < 64 ==> (((((x << 7u64) & !0x8080808080808080u64) & (1u64 << ((f + 7) as u64))) >> ((f + 7) as u64)) & 1u64 == 1u64),
        f % 8 != 7 && f + 9 < 64 ==> (((((x << 9u64) & !0x0101010101010101u64) & (1u64 << ((f + 9) as u64))) >> ((f + 9) as u64)) & 1u64 == 1u64),
        f % 8 != 0 && f >= 9 ==> (((((x >> 9u64) & !0x8080808080808080u64) & (1u64 << ((f - 9) as u64))) >> ((f - 9) as u64)) & 1u64 == 1u64),
        f % 8 != 7 && f >= 7 ==> (((((x >> 7u64) & !0x0101010101010101u64) & (1u64 << ((f - 7) as u64))) >> ((f - 7) as u64)) & 1u64 == 1u64),
{
}

proof fn lemma_contains_add(a: Seq<Move>, b: Seq<Move>, x: Move)
    ensures
        a.contains(x) ==> (a + b).contains(x),
        b.contains(x) ==> (a + b).contains(x),
{
    if a.contains(x) {
        let k = choose|k: int| 0 <= k < a.len() && a[k] == x;
        assert((a + b)[k] == x);
    }
    if b.contains(x) {
        let k = choose|k: int| 0 <= k < b.len() && b[k] == x;
        assert((a + b)[a.len() + k] == x);
    }
}

/// En passant captures are generated: when the en passant board names
/// square `e`, every pawn of `side` standing one rank behind `e` (in its
/// direction of play) on a neighbouring file has the en passant capture to
/// `e` among the generated captures.
pub proof fn law_en_passant_generated(p: Position, side: nat, f: nat, e: nat, q: bool)
    requires
        side < 2,
        f < 64,
        e < 64,
        p.piece_bb.len() == 12,
        p.en_passant == sq_mask(e),
        bit(p.piece_bb[(side * 6) as int], f as int),
        f % 8 + 1 == e % 8 || e % 8 + 1 == f % 8,
        side == 0 ==> e / 8 == f / 8 + 1,
        side == 1 ==> e / 8 + 1 == f / 8,
    ensures
        gen_spec(p, side, q, true).contains(Move(encode(f, e, Move::EN_PASSANT))),
{
    let pawns = p.piece_bb[(side * 6) as int];
    let x = Move(encode(f, e, Move::EN_PASSANT));
    lemma_pawn_diagonals(pawns, f as u64);
    let up = side == 0;
    let dl: nat = if side == 0 { 7 } else { 9 };
    let dr: nat = if side == 0 { 9 } else { 7 };
    let l = shifted(pawn_left(side, pawns) & p.en_passant, up, dl, 5);
    let r = shifted(pawn_right(side, pawns) & p.en_passant, up, dr, 5);
    if e % 8 + 1 == f % 8 {
        if side == 0 {
            assert(e == f + 7);
        } else {
            assert(e + 9 == f);
        }
        lemma_shifted_has(pawn_left(side, pawns) & p.en_passant, up, dl, 5, e);
        assert(behind(e, up, dl) == f);
    } else {
        if side == 0 {
            assert(e == f + 9);
        } else {
            assert(e + 7 == f);
        }
        lemma_shifted_has(pawn_right(side, pawns) & p.en_passant, up, dr, 5, e);
        assert(behind(e, up, dr) == f);
    }
    lemma_contains_add(l, r, x);
    assert(pawn_ep_caps(p, side) == l + r);
    lemma_contains_add(pawn_plain_caps(p, side), pawn_ep_caps(p, side), x);
    lemma_contains_add(pawn_plain_caps(p, side) + pawn_ep_caps(p, side), pawn_promo_caps(p, side), x);
    let qs = if q { pawn_quiet_spec(p, side) } else { Seq::empty() };
    lemma_contains_add(qs, pawn_capture_spec(p, side), x);
    let off = side * 6;
    let g1 = pawn_moves_spec(p, side, q, true);
    let g2 = kind_moves(p, side, 2, p.piece_bb[(off + 2) as int], q, true);
    let g3 = kind_moves(p, side, 1, p.piece_bb[(off + 1) as int], q, true);
    let g4 = kind_moves(p, side, 3, p.piece_bb[(off + 3) as int], q, true);
    let g5 = kind_moves(p, side, 4, p.piece_bb[(off + 4) as int], q, true);
    let g6 = king_moves_spec(p, side, q, true);
    let g7 = if q { castling_spec(p, side) } else { Seq::empty() };
    lemma_contains_add(g1, g2, x);
    lemma_contains_add(g1 + g2, g3, x);
    lemma_contains_add(g1 + g2 + g3, g4, x);
    lemma_contains_add(g1 + g2 + g3 + g4, g5, x);
    lemma_contains_add(g1 + g2 + g3 + g4 + g5, g6, x);
    lemma_contains_add(g1 + g2 + g3 + g4 + g5 + g6, g7, x);
}

} // verus!
