use vstd::prelude::*;
use vstd::std_specs::bits::{u64_trailing_zeros, axiom_u64_trailing_zeros};
use crate::chess::square::{Square, lemma_square_of};

verus! {

/// Bit `i` of `x` (for `0 <= i < 64`).
pub open spec fn bit(x: u64, i: int) -> bool {
    (x >> (i as u64)) & 1u64 == 1u64
}

/// The number of the lowest set bit of `x` (64 for zero).
pub open spec fn lsb_num(x: u64) -> nat {
    u64_trailing_zeros(x) as nat
}

/// `x` with its lowest set bit cleared.
pub open spec fn drop_lsb(x: u64) -> u64 {
    x & ((x - 1u64) as u64)
}

pub proof fn lemma_drop_lsb_smaller(x: u64)
    requires
        x != 0,
    ensures
        drop_lsb(x) < x,
{
    assert(x != 0 ==> x & ((x - 1u64) as u64) < x) by (bit_vector);
}

/// The numbers of the set bits of `x`, lowest first: the order in which the
/// engine visits the squares of a bitboard.
pub open spec fn bits_asc(x: u64) -> Seq<nat>
    decreases x,
{
    if x == 0 {
        Seq::empty()
    } else {
        proof {
            lemma_drop_lsb_smaller(x);
        }
        seq![lsb_num(x)].add(bits_asc(drop_lsb(x)))
    }
}

/// The number of set bits of `x`.
pub open spec fn popcount(x: u64) -> nat {
    bits_asc(x).len()
}

pub proof fn lemma_lsb_facts(x: u64)
    requires
        x != 0,
    ensures
        lsb_num(x) < 64,
        bit(x, lsb_num(x) as int),
        drop_lsb(x) == 0 || lsb_num(drop_lsb(x)) > lsb_num(x),
{
    axiom_u64_trailing_zeros(x);
    let t = u64_trailing_zeros(x) as u64;
    let y = x & ((x - 1u64) as u64);
    if y != 0 {
        axiom_u64_trailing_zeros(y);
        let ty = u64_trailing_zeros(y) as u64;
        assert(t < 64 && (x >> t) & 1u64 == 1u64 && x << ((64 - t) as u64) == 0 && ty <= t
            ==> ((x & ((x - 1u64) as u64)) >> ty) & 1u64 == 0u64) by (bit_vector);
    }
}

/// The lowest square of a single-square board is that square.
pub proof fn lemma_lsb_single(k: u64)
    requires
        k < 64,
    ensures
        lsb_num(1u64 << k) == k,
        (1u64 << k) != 0,
{
    let x = 1u64 << k;
    assert(k < 64 ==> (1u64 << k) != 0) by (bit_vector);
    axiom_u64_trailing_zeros(x);
    let t = u64_trailing_zeros(x) as u64;
    assert(k < 64 && t < 64 && t != k ==> ((1u64 << k) >> t) & 1u64 == 0u64) by (bit_vector);
    assert(k < 64 ==> ((1u64 << k) >> k) & 1u64 == 1u64) by (bit_vector);
    if t > k {
        assert((x >> k) & 1u64 == 0u64);
    }
}

proof fn lemma_bits_asc_len(x: u64)
    requires
        x != 0,
    ensures
        bits_asc(x).len() + lsb_num(x) <= 64,
    decreases x,
{
    lemma_lsb_facts(x);
    lemma_drop_lsb_smaller(x);
    let y = drop_lsb(x);
    assert(bits_asc(x).len() == 1 + bits_asc(y).len());
    if y != 0 {
        lemma_bits_asc_len(y);
    }
}

pub proof fn lemma_popcount_bound(x: u64)
    ensures
        popcount(x) <= 64,
{
    if x != 0 {
        lemma_bits_asc_len(x);
    }
}

/// A set of squares, one bit per square (bit 0 is a1, bit 63 is h8).
#[derive(Copy, Clone, PartialEq, Eq, Debug, Structural)]
pub struct Bitboard(pub u64);

impl Bitboard {
    pub fn from_u64(board: u64) -> (b: Bitboard)
        ensures
            b.0 == board,
    {
        Bitboard(board)
    }

    /// The board holding only `square`.
    pub fn with_one_bit(square: Square) -> (b: Bitboard)
        requires
            square.num() < 64,
        ensures
            b.0 == 1u64 << (square.num() as u64),
    {
        let s = square.u8();
        Bitboard(1u64 << s)
    }

    pub fn u64(self) -> (r: u64)
        ensures
            r == self.0,
    {
        self.0
    }

    /// The number of squares on the board.
    pub fn count_ones(self) -> (r: u32)
        ensures
            r == popcount(self.0),
    {
        let mut x = self.0;
        let mut c: u32 = 0;
        proof {
            lemma_popcount_bound(self.0);
        }
        while x != 0
            invariant
                c + popcount(x) == popcount(self.0),
                popcount(self.0) <= 64,
            decreases x,
        {
            proof {
                lemma_drop_lsb_smaller(x);
            }
            x = x & (x - 1);
            c = c + 1;
        }
        c
    }

    /// The lowest square on the board (`UNDEFINED` for the empty board).
    pub fn lsb(self) -> (s: Square)
        ensures
            s == Square::of(lsb_num(self.0) as int),
            self.0 != 0 ==> s.num() == lsb_num(self.0) && s.num() < 64 && bit(self.0, s.num() as int),
            self.0 == 0 ==> s == Square::UNDEFINED,
    {
        proof {
            axiom_u64_trailing_zeros(self.0);
            if self.0 != 0 {
                lemma_lsb_facts(self.0);
            }
        }
        let t = self.0.trailing_zeros();
        Square::from_u8(t as u8)
    }

    pub proof fn lemma_lsb_square(self)
        requires
            self.0 != 0,
        ensures
            Square::of(lsb_num(self.0) as int).num() == lsb_num(self.0),
            lsb_num(self.0) < 64,
            bit(self.0, lsb_num(self.0) as int),
    {
        lemma_lsb_facts(self.0);
        lemma_square_of(lsb_num(self.0));
    }

    /// Removes the lowest square from the board.
    pub fn pop_lsb(&mut self)
        requires
            old(self).0 != 0,
        ensures
            final(self).0 == drop_lsb(old(self).0),
    {
        self.0 = self.0 & (self.0 - 1);
    }
}

impl Bitboard {
    pub fn and(self, rhs: Bitboard) -> (r: Bitboard)
        ensures
            r.0 == self.0 & rhs.0,
    {
        Bitboard(self.0 & rhs.0)
    }

    pub fn or(self, rhs: Bitboard) -> (r: Bitboard)
        ensures
            r.0 == self.0 | rhs.0,
    {
        Bitboard(self.0 | rhs.0)
    }

    pub fn xor(self, rhs: Bitboard) -> (r: Bitboard)
        ensures
            r.0 == self.0 ^ rhs.0,
    {
        Bitboard(self.0 ^ rhs.0)
    }

    pub fn not(self) -> (r: Bitboard)
        ensures
            r.0 == !self.0,
    {
        Bitboard(!self.0)
    }

    pub fn shl(self, n: u8) -> (r: Bitboard)
        requires
            n < 64,
        ensures
            r.0 == self.0 << n,
    {
        Bitboard(self.0 << n)
    }

    pub fn shr(self, n: u8) -> (r: Bitboard)
        requires
            n < 64,
        ensures
            r.0 == self.0 >> n,
    {
        Bitboard(self.0 >> n)
    }

    pub fn is_empty(self) -> (r: bool)
        ensures
            r == (self.0 == 0),
    {
        self.0 == 0
    }

    /// The board holding exactly the given squares.
    pub fn from_squares(squares: Vec<Square>) -> (b: Bitboard)
        requires
            forall|i: int| 0 <= i < squares@.len() ==> squares@[i].num() < 64,
        ensures
            b.0 == squares_mask(squares@),
    {
        let mut board: u64 = 0;
        let mut i: usize = 0;
        while i < squares.len()
            invariant
                i <= squares@.len(),
                forall|j: int| 0 <= j < squares@.len() ==> squares@[j].num() < 64,
                board == squares_mask(squares@.take(i as int)),
            decreases squares@.len() - i,
        {
            let sq = squares[i];
            board = board | (1u64 << sq.u8());
            assert(squares@.take(i as int + 1).drop_last() =~= squares@.take(i as int));
            i = i + 1;
        }
        assert(squares@.take(squares@.len() as int) =~= squares@);
        Bitboard(board)
    }
}

/// The union of the given squares.
pub open spec fn squares_mask(s: Seq<Square>) -> u64
    decreases s.len(),
{
    if s.len() == 0 {
        0
    } else {
        squares_mask(s.drop_last()) | (1u64 << (s.last().num() as u64))
    }
}

pub const PAWN_W_DEFAULT: u64 = 0x000000000000FF00;
pub const BISHOP_W_DEFAULT: u64 = 0x0000000000000024;
pub const KNIGHT_W_DEFAULT: u64 = 0x0000000000000042;
pub const ROOK_W_DEFAULT: u64 = 0x0000000000000081;
pub const QUEEN_W_DEFAULT: u64 = 0x0000000000000008;
pub const KING_W_DEFAULT: u64 = 0x0000000000000010;

pub const PAWN_B_DEFAULT: u64 = 0x00FF000000000000;
pub const BISHOP_B_DEFAULT: u64 = 0x2400000000000000;
pub const KNIGHT_B_DEFAULT: u64 = 0x4200000000000000;
pub const ROOK_B_DEFAULT: u64 = 0x8100000000000000;
pub const QUEEN_B_DEFAULT: u64 = 0x0800000000000000;
pub const KING_B_DEFAULT: u64 = 0x1000000000000000;

pub const EMPTY: u64 = 0x0000000000000000;
pub const FULL: u64 = 0xFFFFFFFFFFFFFFFF;

pub const RANK_1: u64 = 0x00000000000000FF;
pub const RANK_2: u64 = 0x000000000000FF00;
pub const RANK_3: u64 = 0x0000000000FF0000;
pub const RANK_4: u64 = 0x00000000FF000000;
pub const RANK_5: u64 = 0x000000FF00000000;
pub const RANK_6: u64 = 0x0000FF0000000000;
pub const RANK_7: u64 = 0x00FF000000000000;
pub const RANK_8: u64 = 0xFF00000000000000;

pub const FILE_A: u64 = 0x0101010101010101;
pub const FILE_B: u64 = 0x0202020202020202;
pub const FILE_C: u64 = 0x0404040404040404;
pub const FILE_D: u64 = 0x0808080808080808;
pub const FILE_E: u64 = 0x1010101010101010;
pub const FILE_F: u64 = 0x2020202020202020;
pub const FILE_G: u64 = 0x4040404040404040;
pub const FILE_H: u64 = 0x8080808080808080;

/// f1 and g1.
pub const WHITE_KING_CASTLE_BLOCKERS: u64 = 0x0000000000000060;
/// f8 and g8.
pub const BLACK_KING_CASTLE_BLOCKERS: u64 = 0x6000000000000000;
/// b1, c1 and d1.
pub const WHITE_QUEEN_CASTLE_BLOCKERS: u64 = 0x000000000000000E;
/// b8, c8 and d8.
pub const BLACK_QUEEN_CASTLE_BLOCKERS: u64 = 0x0E00000000000000;

pub const DEFAULT_COLOR_W: u64 = 0x000000000000FFFF;
pub const DEFAULT_COLOR_B: u64 = 0xFFFF000000000000;
pub const DEFAULT_OCCUPIED: u64 = 0xFFFF00000000FFFF;

/// The en passant square created by a double pawn move from the square
/// numbered `sq` (the square the pawn passes), empty off the second and seventh ranks.
pub open spec fn en_passant_update_spec(sq: nat) -> u64 {
    if 8 <= sq < 16 {
        1u64 << ((sq + 8) as u64)
    } else if 48 <= sq < 56 {
        1u64 << ((sq - 8) as u64)
    } else {
        0
    }
}

pub fn en_passant_update(sq: Square) -> (r: Bitboard)
    requires
        sq.num() < 64,
    ensures
        r.0 == en_passant_update_spec(sq.num()),
{
    let s = sq.u8();
    if 8 <= s && s < 16 {
        Bitboard(1u64 << (s + 8))
    } else if 48 <= s && s < 56 {
        Bitboard(1u64 << (s - 8))
    } else {
        Bitboard(0)
    }
}

/// The pawn taken by an en passant capture landing on the square numbered
/// `sq`: the square behind it, for landings on the sixth and third ranks.
pub open spec fn en_passant_rm_spec(sq: nat) -> u64 {
    if 40 <= sq < 48 {
        1u64 << ((sq - 8) as u64)
    } else if 16 <= sq < 24 {
        1u64 << ((sq + 8) as u64)
    } else {
        0
    }
}

pub fn en_passant_rm(sq: Square) -> (r: Bitboard)
    requires
        sq.num() < 64,
    ensures
        r.0 == en_passant_rm_spec(sq.num()),
{
    let s = sq.u8();
    if 40 <= s && s < 48 {
        Bitboard(1u64 << (s - 8))
    } else if 16 <= s && s < 24 {
        Bitboard(1u64 << (s + 8))
    } else {
        Bitboard(0)
    }
}

/// The squares on either side of the squares of `b`, on the same rank.
pub open spec fn sideways(b: u64) -> u64 {
    ((b << 1u64) & !FILE_A) | ((b >> 1u64) & !FILE_H)
}

/// The squares a pawn of side `side` (0 white, 1 black) on square `sq` attacks.
pub open spec fn pawn_attacks_spec(side: nat, sq: nat) -> u64 {
    if side == 0 {
        sideways(1u64 << (sq as u64)) << 8u64
    } else {
        sideways(1u64 << (sq as u64)) >> 8u64
    }
}

pub fn pawn_attacks(side: usize, sq: Square) -> (r: Bitboard)
    requires
        side < 2,
        sq.num() < 64,
    ensures
        r.0 == pawn_attacks_spec(side as nat, sq.num()),
{
    let board = 1u64 << sq.u8();
    let prefix = ((board << 1u64) & !FILE_A) | ((board >> 1u64) & !FILE_H);
    if side == 0 {
        Bitboard(prefix << 8u64)
    } else {
        Bitboard(prefix >> 8u64)
    }
}

/// The squares a king on square `sq` attacks.
pub open spec fn king_pattern_spec(sq: nat) -> u64 {
    let board = 1u64 << (sq as u64);
    let prefix = sideways(board);
    prefix | (prefix << 8u64) | (prefix >> 8u64) | (board >> 8u64) | (board << 8u64)
}

pub fn king_pattern(sq: Square) -> (r: Bitboard)
    requires
        sq.num() < 64,
    ensures
        r.0 == king_pattern_spec(sq.num()),
{
    let board = 1u64 << sq.u8();
    let prefix = ((board << 1u64) & !FILE_A) | ((board >> 1u64) & !FILE_H);
    let first_half = prefix | (prefix << 8u64) | (prefix >> 8u64);
    Bitboard(first_half | (board >> 8u64) | (board << 8u64))
}

/// The squares the knights on `board` attack.
pub open spec fn knight_spread(board: u64) -> u64 {
    let vertical = (board << 16u64) | (board >> 16u64);
    let first_half = ((vertical << 1u64) & !FILE_A) | ((vertical >> 1u64) & !FILE_H);
    let horizontal = (board << 8u64) | (board >> 8u64);
    ((horizontal >> 2u64) & !(FILE_G | FILE_H)) | ((horizontal << 2u64) & !(FILE_A | FILE_B)) | first_half
}

pub open spec fn knight_pattern_spec(sq: nat) -> u64 {
    knight_spread(1u64 << (sq as u64))
}

pub fn knight_spread_of(board: u64) -> (r: u64)
    ensures
        r == knight_spread(board),
{
    let vertical = (board << 16u64) | (board >> 16u64);
    let first_half = ((vertical << 1u64) & !FILE_A) | ((vertical >> 1u64) & !FILE_H);
    let horizontal = (board << 8u64) | (board >> 8u64);
    ((horizontal >> 2u64) & !(FILE_G | FILE_H)) | ((horizontal << 2u64) & !(FILE_A | FILE_B)) | first_half
}

pub fn knight_pattern(sq: Square) -> (r: Bitboard)
    requires
        sq.num() < 64,
    ensures
        r.0 == knight_pattern_spec(sq.num()),
{
    Bitboard(knight_spread_of(1u64 << sq.u8()))
}

/// The eight sliding directions: 0 east, 1 west, 2 north, 3 south,
/// 4 north-east, 5 north-west, 6 south-east, 7 south-west.
pub open spec fn can_step(cur: nat, dir: nat) -> bool {
    if dir == 0 {
        cur % 8 < 7
    } else if dir == 1 {
        cur % 8 > 0
    } else if dir == 2 {
        cur < 56
    } else if dir == 3 {
        cur > 7
    } else if dir == 4 {
        cur % 8 < 7 && cur < 56
    } else if dir == 5 {
        cur % 8 > 0 && cur < 56
    } else if dir == 6 {
        cur % 8 < 7 && cur > 7
    } else {
        cur % 8 > 0 && cur > 7
    }
}

pub open spec fn step(cur: nat, dir: nat) -> int {
    if dir == 0 {
        cur + 1int
    } else if dir == 1 {
        cur - 1
    } else if dir == 2 {
        cur + 8int
    } else if dir == 3 {
        cur - 8
    } else if dir == 4 {
        cur + 9int
    } else if dir == 5 {
        cur + 7int
    } else if dir == 6 {
        cur - 7
    } else {
        cur - 9
    }
}

pub open spec fn ray_measure(cur: nat, dir: nat) -> nat {
    if dir == 0 || dir == 2 || dir == 4 || dir == 5 {
        (64 - cur) as nat
    } else {
        cur
    }
}

/// The squares a slider on square `cur` reaches in direction `dir` when the
/// occupied squares are `occ`: every square up to and including the first
/// occupied one, or up to the edge of the board.
pub open spec fn ray(cur: nat, dir: nat, occ: u64) -> u64
    decreases ray_measure(cur, dir),
{
    if cur < 64 && dir < 8 && can_step(cur, dir) {
        let nxt = step(cur, dir) as nat;
        let b = 1u64 << (nxt as u64);
        if bit(occ, nxt as int) {
            b
        } else {
            b | ray(nxt, dir, occ)
        }
    } else {
        0
    }
}

/// The squares a rook on `sq` attacks with occupancy `occ`.
pub open spec fn straight_attacks(sq: nat, occ: u64) -> u64 {
    ray(sq, 0, occ) | ray(sq, 1, occ) | ray(sq, 2, occ) | ray(sq, 3, occ)
}

/// The squares a bishop on `sq` attacks with occupancy `occ`.
pub open spec fn diagonal_attacks(sq: nat, occ: u64) -> u64 {
    ray(sq, 4, occ) | ray(sq, 5, occ) | ray(sq, 6, occ) | ray(sq, 7, occ)
}

pub proof fn lemma_zero_or(x: u64)
    ensures
        0u64 | x == x,
        x | 0u64 == x,
        x ^ 0u64 == x,
        x & 0u64 == 0,
{
    assert(0u64 | x == x) by (bit_vector);
    assert(x | 0u64 == x) by (bit_vector);
    assert(x ^ 0u64 == x) by (bit_vector);
    assert(x & 0u64 == 0) by (bit_vector);
}

pub proof fn lemma_or_assoc(a: u64, b: u64, c: u64)
    ensures
        (a | b) | c == a | (b | c),
{
    assert((a | b) | c == a | (b | c)) by (bit_vector);
}

/// The squares reached from `sq` in direction `dir` with occupancy `occ`.
pub fn slide(sq: u8, dir: u8, occ: u64) -> (r: u64)
    requires
        sq < 64,
        dir < 8,
    ensures
        r == ray(sq as nat, dir as nat, occ),
{
    let mut cur: u8 = sq;
    let mut acc: u64 = 0;
    proof {
        lemma_zero_or(ray(sq as nat, dir as nat, occ));
    }
    loop
        invariant
            cur < 64,
            dir < 8,
            acc | ray(cur as nat, dir as nat, occ) == ray(sq as nat, dir as nat, occ),
        decreases ray_measure(cur as nat, dir as nat),
    {
        let can = if dir == 0 {
            cur % 8 < 7
        } else if dir == 1 {
            cur % 8 > 0
        } else if dir == 2 {
            cur < 56
        } else if dir == 3 {
            cur > 7
        } else if dir == 4 {
            cur % 8 < 7 && cur < 56
        } else if dir == 5 {
            cur % 8 > 0 && cur < 56
        } else if dir == 6 {
            cur % 8 < 7 && cur > 7
        } else {
            cur % 8 > 0 && cur > 7
        };
        if !can {
            assert(ray(cur as nat, dir as nat, occ) == 0);
            assert(acc | 0 == acc) by (bit_vector);
            return acc;
        }
        let nxt: u8 = if dir == 0 {
            cur + 1
        } else if dir == 1 {
            cur - 1
        } else if dir == 2 {
            cur + 8
        } else if dir == 3 {
            cur - 8
        } else if dir == 4 {
            cur + 9
        } else if dir == 5 {
            cur + 7
        } else if dir == 6 {
            cur - 7
        } else {
            cur - 9
        };
        assert(nxt == step(cur as nat, dir as nat));
        let b = 1u64 << nxt;
        let blocked = (occ >> nxt) & 1u64 == 1u64;
        if blocked {
            return acc | b;
        }
        proof {
            lemma_or_assoc(acc, b, ray(nxt as nat, dir as nat, occ));
        }
        acc = acc | b;
        cur = nxt;
    }
}

/// The squares a rook on `sq` attacks.
pub fn straight_lines(sq: Square, occ: u64) -> (r: Bitboard)
    requires
        sq.num() < 64,
    ensures
        r.0 == straight_attacks(sq.num(), occ),
{
    let s = sq.u8();
    Bitboard(slide(s, 0, occ) | slide(s, 1, occ) | slide(s, 2, occ) | slide(s, 3, occ))
}

/// The squares a bishop on `sq` attacks.
pub fn diag_lines(sq: Square, occ: u64) -> (r: Bitboard)
    requires
        sq.num() < 64,
    ensures
        r.0 == diagonal_attacks(sq.num(), occ),
{
    let s = sq.u8();
    Bitboard(slide(s, 4, occ) | slide(s, 5, occ) | slide(s, 6, occ) | slide(s, 7, occ))
}

} // verus!
