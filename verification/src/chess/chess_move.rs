use vstd::prelude::*;
use crate::chess::square::Square;

verus! {

pub const MOVE_GEN_SIZE: usize = 256;
pub const GAME_MOVES_SIZE: usize = 1024;

/// The 16-bit encoding of a move from its parts: from-square in bits 0-5,
/// to-square in bits 6-11, flags in bits 12-15.
pub open spec fn encode(from: nat, to: nat, flags: u16) -> u16 {
    ((from as u16) | ((to as u16) << 6u16) | (flags << 12u16)) as u16
}

/// A move: from-square, to-square and a flag saying what kind of move it is.
#[derive(Copy, Clone, PartialEq, Eq, Debug, Structural)]
pub struct Move(pub u16);

/// The move that stands for "no move" (all bits zero).
pub fn null_move() -> (m: Move)
    ensures
        m.0 == 0,
{
    Move(0)
}

impl Move {
    pub const QUIET: u16 = 0;
    pub const DOUBLE_PAWN: u16 = 1;
    pub const KING_CASTLE: u16 = 2;
    pub const QUEEN_CASTLE: u16 = 3;
    pub const CAPTURE: u16 = 4;
    pub const EN_PASSANT: u16 = 5;
    pub const PROMO_KNIGHT: u16 = 8;
    pub const PROMO_BISHOP: u16 = 9;
    pub const PROMO_ROOK: u16 = 10;
    pub const PROMO_QUEEN: u16 = 11;
    pub const PROMO_CAP_KNIGHT: u16 = 12;
    pub const PROMO_CAP_BISHOP: u16 = 13;
    pub const PROMO_CAP_ROOK: u16 = 14;
    pub const PROMO_CAP_QUEEN: u16 = 15;

    pub open spec fn from_num(self) -> nat {
        (self.0 & 0x3Fu16) as nat
    }

    pub open spec fn to_num(self) -> nat {
        ((self.0 & 0xFC0u16) >> 6u16) as nat
    }

    pub open spec fn flag_bits(self) -> u16 {
        ((self.0 & 0xF000u16) >> 12u16) as u16
    }

    pub proof fn lemma_parts(self)
        ensures
            self.from_num() < 64,
            self.to_num() < 64,
            self.flag_bits() < 16,
    {
        let x = self.0;
        assert(x & 0x3Fu16 < 64) by (bit_vector);
        assert((x & 0xFC0u16) >> 6u16 < 64) by (bit_vector);
        assert((x & 0xF000u16) >> 12u16 < 16) by (bit_vector);
    }

    pub proof fn lemma_encode(from: nat, to: nat, flags: u16)
        requires
            from < 64,
            to < 64,
            flags < 16,
        ensures
            Move(encode(from, to, flags)).from_num() == from,
            Move(encode(from, to, flags)).to_num() == to,
            Move(encode(from, to, flags)).flag_bits() == flags,
    {
        let f = from as u16;
        let t = to as u16;
        assert(f < 64 && t < 64 && flags < 16 ==> ((f | (t << 6u16) | (flags << 12u16)) & 0x3Fu16) == f) by (bit_vector);
        assert(f < 64 && t < 64 && flags < 16 ==> (((f | (t << 6u16) | (flags << 12u16)) & 0xFC0u16) >> 6u16) == t) by (bit_vector);
        assert(f < 64 && t < 64 && flags < 16 ==> (((f | (t << 6u16) | (flags << 12u16)) & 0xF000u16) >> 12u16) == flags) by (bit_vector);
    }

    /// The empty move goes from a1 to a1.
    pub proof fn lemma_no_move()
        ensures
            Move(0).from_num() == 0,
            Move(0).to_num() == 0,
    {
        assert(0u16 & 0x3Fu16 == 0 && (0u16 & 0xFC0u16) >> 6u16 == 0) by (bit_vector);
    }

    /// A move is fixed by its from-square, to-square and flags.
    pub proof fn lemma_parts_equal(a: Move, b: Move)
        requires
            a.from_num() == b.from_num(),
            a.to_num() == b.to_num(),
            a.flag_bits() == b.flag_bits(),
        ensures
            a == b,
    {
        let x = a.0;
        let y = b.0;
        assert(x & 0x3Fu16 == y & 0x3Fu16 && (x & 0xFC0u16) >> 6u16 == (y & 0xFC0u16) >> 6u16 && (x & 0xF000u16)
            >> 12u16 == (y & 0xF000u16) >> 12u16 ==> x == y) by (bit_vector);
    }

    /// The move from `from` to `to` with the given flags.
    pub fn new(from: Square, to: Square, flags: u16) -> (m: Move)
        requires
            from.num() < 64,
            to.num() < 64,
        ensures
            m.0 == encode(from.num(), to.num(), flags),
            flags < 16 ==> m.from_num() == from.num() && m.to_num() == to.num() && m.flag_bits() == flags,
    {
        let from_u = from.u16();
        let to_u = to.u16();
        proof {
            if flags < 16 {
                Move::lemma_encode(from.num(), to.num(), flags);
            }
        }
        Move(from_u | (to_u << 6u16) | (flags << 12u16))
    }

    pub fn from(self) -> (s: Square)
        ensures
            s.num() == self.from_num(),
            s.num() < 64,
    {
        proof {
            self.lemma_parts();
        }
        Square::from_u16(self.0 & 0x3Fu16)
    }

    pub fn to(self) -> (s: Square)
        ensures
            s.num() == self.to_num(),
            s.num() < 64,
    {
        proof {
            self.lemma_parts();
        }
        Square::from_u16((self.0 & 0xFC0u16) >> 6u16)
    }

    pub fn flags(self) -> (f: u16)
        ensures
            f == self.flag_bits(),
            f < 16,
    {
        proof {
            self.lemma_parts();
        }
        (self.0 & 0xF000u16) >> 12u16
    }

    pub fn is_quiet(self) -> (r: bool)
        ensures
            r == (self.flag_bits() == 0),
    {
        self.flags() == 0
    }

    pub fn is_capture(self) -> (r: bool)
        ensures
            r == (self.flag_bits() & 4 != 0),
    {
        (self.flags() & 4) != 0
    }

    pub fn is_simple_promo(self) -> (r: bool)
        ensures
            r == (self.flag_bits() < 12),
    {
        self.flags() < 12
    }

    pub fn is_promo(self) -> (r: bool)
        ensures
            r == (self.flag_bits() & 8 != 0),
    {
        (self.flags() & 8) != 0
    }

    pub fn is_castle(&self) -> (r: bool)
        ensures
            r == (self.flag_bits() == 2 || self.flag_bits() == 3),
    {
        self.flags() == 3 || self.flags() == 2
    }

    /// The index of the castling side in the castling table (0 king side, 1 queen side),
    /// for a castling move.
    pub fn get_castle_idx(&self) -> (r: usize)
        requires
            self.flag_bits() == 2 || self.flag_bits() == 3,
        ensures
            r == self.flag_bits() - 2,
    {
        (self.flags() - 2) as usize
    }
}

/// A list of moves; `N` is the number of moves the engine expects to fit.
#[derive(Clone, Debug)]
pub struct MoveList<const N: usize> {
    pub moves: Vec<Move>,
}

impl<const N: usize> MoveList<N> {
    pub open spec fn view(&self) -> Seq<Move> {
        self.moves@
    }

    pub fn new() -> (l: Self)
        ensures
            l@ == Seq::<Move>::empty(),
    {
        MoveList { moves: Vec::new() }
    }

    pub fn push(&mut self, m: Move)
        ensures
            final(self)@ == old(self)@.push(m),
    {
        self.moves.push(m);
    }

    /// Removes the last move.
    pub fn pop(&mut self)
        requires
            old(self)@.len() > 0,
        ensures
            final(self)@ == old(self)@.drop_last(),
    {
        self.moves.pop();
    }

    pub fn as_slice(&self) -> (s: &[Move])
        ensures
            s@ == self@,
    {
        self.moves.as_slice()
    }

    /// The moves, for changing them in place.
    pub fn as_mut_slice(&mut self) -> (s: &mut [Move])
        ensures
            s@ == old(self)@,
            final(s)@ == final(self)@,
    {
        self.moves.as_mut_slice()
    }

    pub fn size(&self) -> (r: usize)
        ensures
            r == self@.len(),
    {
        self.moves.len()
    }

    /// The move at position `i`.
    pub fn get(&self, i: usize) -> (m: Move)
        requires
            i < self@.len(),
        ensures
            m == self@[i as int],
    {
        self.moves[i]
    }
}

} // verus!
