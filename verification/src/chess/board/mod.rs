pub mod bitboard;
pub mod tables;
pub mod hash;
pub mod evaluation;
pub mod move_gen;
pub mod attacks;
pub mod make_move;
pub mod laws;
pub mod hash_laws;
pub mod eval_laws;
pub mod consistency;
pub mod fen;
pub mod notation;
pub mod exchange;
pub mod play;
pub mod display;

use vstd::prelude::*;
use crate::chess::square::Square;
use crate::chess::constants::{Piece, Color};
use crate::chess::board::bitboard::{Bitboard, bit, popcount, lemma_popcount_bound};
use crate::chess::board::hash::{ZobristTable, HashList};

verus! {

pub const GAME_POSITIONS_SIZE: usize = 1024;

/// What a move changes that cannot be recomputed when it is taken back.
#[derive(Copy, Clone, PartialEq, Eq, Debug, Structural)]
pub struct UndoInfo {
    pub castling_rights: u8,
    pub en_passant_square: Bitboard,
    pub halfmove_clock: u16,
    pub hash: u64,
    pub captured_piece: Piece,
    pub last_mg: i16,
    pub last_eg: i16,
    pub last_phase: i16,
}

impl UndoInfo {
    pub fn empty() -> (u: Self)
        ensures
            u.castling_rights == 0,
            u.en_passant_square.0 == 0,
            u.halfmove_clock == 0,
            u.hash == 0,
            u.captured_piece == Piece::Empty,
            u.last_mg == 0,
            u.last_eg == 0,
            u.last_phase == 0,
    {
        UndoInfo {
            castling_rights: 0,
            en_passant_square: Bitboard(0),
            halfmove_clock: 0,
            captured_piece: Piece::Empty,
            hash: 0,
            last_eg: 0,
            last_mg: 0,
            last_phase: 0,
        }
    }
}

/// The undo records of the moves made on a board, oldest first.
#[derive(Clone, Debug)]
pub struct UndoStack {
    pub undo_stack: Vec<UndoInfo>,
}

impl UndoStack {
    pub open spec fn view(&self) -> Seq<UndoInfo> {
        self.undo_stack@
    }

    pub fn new() -> (s: Self)
        ensures
            s@ == Seq::<UndoInfo>::empty(),
    {
        UndoStack { undo_stack: Vec::new() }
    }

    pub fn push(&mut self, info: UndoInfo)
        requires
            old(self)@.len() < GAME_POSITIONS_SIZE,
        ensures
            final(self)@ == old(self)@.push(info),
    {
        self.undo_stack.push(info);
    }

    pub fn pop(&mut self) -> (u: UndoInfo)
        requires
            old(self)@.len() > 0,
        ensures
            u == old(self)@.last(),
            final(self)@ == old(self)@.drop_last(),
    {
        self.undo_stack.pop().unwrap()
    }

    pub fn len(&self) -> (r: usize)
        ensures
            r == self@.len(),
    {
        self.undo_stack.len()
    }
}

/// The part of a board that a move changes: what a position is.
pub struct Position {
    pub piece_bb: Seq<u64>,
    pub color_bb: Seq<u64>,
    pub occupied: u64,
    pub piece: Seq<Piece>,
    pub turn: Color,
    pub en_passant: u64,
    pub castling: u8,
    pub mg: i16,
    pub eg: i16,
    pub phase: i16,
    pub hash: u64,
    pub halfmoves: u16,
    pub fullmoves: u16,
}

/// A chess position with twelve piece boards (white pawn, bishop, knight, rook,
/// queen, king, then the same for black), the two colour boards, the piece on
/// each square, and the history needed to take moves back and spot repetitions.
#[derive(Clone, Debug)]
pub struct Board {
    pub piece_bb: [u64; 12],
    pub color_bb: [u64; 2],
    pub occupied: u64,
    pub piece: [Piece; 64],
    pub turn: Color,
    pub en_passant: u64,
    pub castling_rights: u8,
    pub eval_mg: i16,
    pub eval_eg: i16,
    pub game_phase: i16,
    pub hash: u64,
    pub halfmoves: u16,
    pub fullmove_counter: u16,
    pub undo_stack: Box<UndoStack>,
    pub positions: HashList<GAME_POSITIONS_SIZE>,
    pub zobrist: Box<ZobristTable>,
}

/// Why a FEN string could not be read.
#[derive(Copy, Clone, PartialEq, Eq, Debug, Structural)]
pub enum FenError {
    InvalidNumSections,
    InvalidTurn,
    InvalidNumRanks,
    InvalidPiece,
    Castling,
    EnPassant,
    HalfMove,
    FullMove,
}

/// Bit `sq` of the colour board of side `side`.
pub open spec fn side_has(p: Position, side: nat, sq: nat) -> bool {
    bit(p.color_bb[side as int], sq as int)
}

impl Board {
    /// Piece board number `i`.
    pub open spec fn bb(&self, i: nat) -> u64 {
        self.piece_bb@[i as int]
    }

    pub open spec fn pos(&self) -> Position {
        Position {
            piece_bb: self.piece_bb@,
            color_bb: self.color_bb@,
            occupied: self.occupied,
            piece: self.piece@,
            turn: self.turn,
            en_passant: self.en_passant,
            castling: self.castling_rights,
            mg: self.eval_mg,
            eg: self.eval_eg,
            phase: self.game_phase,
            hash: self.hash,
            halfmoves: self.halfmoves,
            fullmoves: self.fullmove_counter,
        }
    }

    /// The board's bookkeeping is sound: a side is to move, the castling byte
    /// fits its key table, the occupied board is the union of the colour
    /// boards, the hash keys are the engine's keys, and the histories fit.
    pub open spec fn wf(&self) -> bool {
        &&& self.turn.is_side()
        &&& self.castling_rights < 16
        &&& self.occupied == self.color_bb[0] | self.color_bb[1]
        &&& self.zobrist.canonical()
        &&& self.undo_stack@.len() <= GAME_POSITIONS_SIZE
        &&& self.positions@.len() <= GAME_POSITIONS_SIZE
    }

    /// Two boards hold the same position and the same histories.
    pub open spec fn same_state(&self, other: &Board) -> bool {
        &&& self.pos() == other.pos()
        &&& self.undo_stack@ == other.undo_stack@
        &&& self.positions@ == other.positions@
        &&& self.zobrist@ == other.zobrist@
    }

    pub fn get_hash(&self) -> (r: u64)
        ensures
            r == self.hash,
    {
        self.hash
    }

    pub fn get_turn(&self) -> (r: Color)
        ensures
            r == self.turn,
    {
        self.turn
    }

    pub fn get_halfmoves(&self) -> (r: u16)
        ensures
            r == self.halfmoves,
    {
        self.halfmoves
    }

    pub fn get_enpassant(&self) -> (r: Bitboard)
        ensures
            r.0 == self.en_passant,
    {
        Bitboard(self.en_passant)
    }

    pub fn get_pieces(&self) -> (r: [Piece; 64])
        ensures
            r@ == self.piece@,
    {
        self.piece
    }

    pub fn get_mg(&self) -> (r: i16)
        ensures
            r == self.eval_mg,
    {
        self.eval_mg
    }

    pub fn get_eg(&self) -> (r: i16)
        ensures
            r == self.eval_eg,
    {
        self.eval_eg
    }

    pub fn get_phase(&self) -> (r: i16)
        ensures
            r == self.game_phase,
    {
        self.game_phase
    }

    pub fn get_castling_rights(&self) -> (r: u8)
        ensures
            r == self.castling_rights,
    {
        self.castling_rights
    }

    pub fn get_fullmoves(&self) -> (r: u16)
        ensures
            r == self.fullmove_counter,
    {
        self.fullmove_counter
    }

    /// The twelve piece boards.
    pub fn get_all_bitboards(&self) -> (r: [Bitboard; 12])
        ensures
            forall|i: int| 0 <= i < 12 ==> #[trigger] r@[i].0 == self.piece_bb@[i],
    {
        let mut r = [Bitboard(0); 12];
        let mut i: usize = 0;
        while i < 12
            invariant
                i <= 12,
                forall|j: int| 0 <= j < i ==> #[trigger] r@[j].0 == self.piece_bb@[j],
            decreases 12 - i,
        {
            r[i] = Bitboard(self.piece_bb[i]);
            i += 1;
        }
        r
    }

    pub fn get_bit_board(&self, i: usize) -> (r: Bitboard)
        requires
            i < 12,
        ensures
            r.0 == self.piece_bb@[i as int],
    {
        Bitboard(self.piece_bb[i])
    }

    pub fn get_occupied(&self) -> (r: Bitboard)
        ensures
            r.0 == self.occupied,
    {
        Bitboard(self.occupied)
    }

    pub fn black_pieces(&self) -> (r: Bitboard)
        ensures
            r.0 == self.color_bb@[1],
    {
        Bitboard(self.color_bb[1])
    }

    pub fn white_pieces(&self) -> (r: Bitboard)
        ensures
            r.0 == self.color_bb@[0],
    {
        Bitboard(self.color_bb[0])
    }

    pub fn get_piece(&self, square: Square) -> (p: Piece)
        requires
            square.num() < 64,
        ensures
            p == self.piece@[square.num() as int],
    {
        self.piece[square.usize()]
    }

    /// The number of the piece kind on `square` (6 for an empty square).
    pub fn get_piece_usize(&self, square: Square) -> (r: usize)
        requires
            square.num() < 64,
        ensures
            r == self.piece@[square.num() as int].idx(),
    {
        self.get_piece(square).index()
    }
}

/// White's material minus black's (pawn 1, minor piece 3, rook 5, queen 9),
/// seen from the side to move (negated unless white is to move).
pub open spec fn material_spec(p: Position) -> int {
    let side = |o: int|
        popcount(p.piece_bb[o]) + popcount(p.piece_bb[o + 1]) * 3 + popcount(p.piece_bb[o + 2]) * 3
            + popcount(p.piece_bb[o + 3]) * 5 + popcount(p.piece_bb[o + 4]) * 9;
    let d = side(0) - side(6);
    if p.turn == Color::White { d } else { -d }
}

/// How often `h` occurs in `s`.
pub open spec fn occurrences(s: Seq<u64>, h: u64) -> nat
    decreases s.len(),
{
    if s.len() == 0 {
        0
    } else {
        occurrences(s.drop_last(), h) + if s.last() == h { 1nat } else { 0nat }
    }
}

/// A draw can be claimed: a hundred half moves without capture or pawn move,
/// or the current position three times among the positions since then.
pub open spec fn draw_spec(halfmoves: u16, hash: u64, positions: Seq<u64>) -> bool {
    let len = positions.len();
    halfmoves > 99 || occurrences(
        positions.subrange(if halfmoves >= len { 0 } else { len - halfmoves }, len as int),
        hash,
    ) > 2
}

impl Board {
    fn side_material(&self, o: usize) -> (r: i16)
        requires
            o == 0 || o == 6,
        ensures
            r == popcount(self.piece_bb@[o as int]) + popcount(self.piece_bb@[o + 1]) * 3 + popcount(
                self.piece_bb@[o + 2],
            ) * 3 + popcount(self.piece_bb@[o + 3]) * 5 + popcount(self.piece_bb@[o + 4]) * 9,
            0 <= r <= 64 * 21,
    {
        proof {
            lemma_popcount_bound(self.piece_bb@[o as int]);
            lemma_popcount_bound(self.piece_bb@[o + 1]);
            lemma_popcount_bound(self.piece_bb@[o + 2]);
            lemma_popcount_bound(self.piece_bb@[o + 3]);
            lemma_popcount_bound(self.piece_bb@[o + 4]);
        }
        let p = Bitboard(self.piece_bb[o]).count_ones() as i16;
        let b = Bitboard(self.piece_bb[o + 1]).count_ones() as i16;
        let n = Bitboard(self.piece_bb[o + 2]).count_ones() as i16;
        let r = Bitboard(self.piece_bb[o + 3]).count_ones() as i16;
        let q = Bitboard(self.piece_bb[o + 4]).count_ones() as i16;
        p + b * 3 + n * 3 + r * 5 + q * 9
    }

    /// The material balance from the view of the side to move.
    pub fn count_material(&self) -> (r: i16)
        ensures
            r == material_spec(self.pos()),
    {
        let w = self.side_material(0);
        let b = self.side_material(6);
        let d = w - b;
        if self.turn == Color::White {
            d
        } else {
            -d
        }
    }

    /// White when a white pawn stands on `square`, else black.
    pub fn get_color(&self, square: Square) -> (r: Color)
        requires
            square.num() < 64,
        ensures
            r == (if bit(self.piece_bb@[0], square.num() as int) { Color::White } else { Color::Black }),
    {
        let b = Bitboard::with_one_bit(square);
        let n = square.u8() as u64;
        let x = self.piece_bb[0];
        assert((x & (1u64 << n) != 0) == ((x >> n) & 1u64 == 1u64)) by (bit_vector)
            requires
                n < 64,
        ;
        if x & b.0 != 0 {
            Color::White
        } else {
            Color::Black
        }
    }

    /// Whether the side to move can claim a draw (fifty-move rule or threefold repetition).
    pub fn can_claim_draw(&self) -> (r: bool)
        ensures
            r == draw_spec(self.halfmoves, self.hash, self.positions@),
    {
        let halfmoves = self.halfmoves as u64;
        if halfmoves > 99 {
            return true;
        }
        let recent = self.positions.half_move_iter(halfmoves);
        let current = self.hash;
        let mut count: u64 = 0;
        let mut i: usize = 0;
        while i < recent.len()
            invariant
                i <= recent@.len(),
                count == occurrences(recent@.subrange(0, i as int), current),
                count <= i,
            decreases recent.len() - i,
        {
            assert(recent@.subrange(0, i + 1).drop_last() =~= recent@.subrange(0, i as int));
            if recent[i] == current {
                count += 1;
            }
            i += 1;
        }
        assert(recent@.subrange(0, i as int) =~= recent@);
        count > 2
    }
}

impl UndoStack {
    /// A copy of the stack.
    pub fn duplicate(&self) -> (s: Self)
        ensures
            s@ == self@,
    {
        let mut v: Vec<UndoInfo> = Vec::new();
        let mut i: usize = 0;
        while i < self.undo_stack.len()
            invariant
                i <= self.undo_stack@.len(),
                v@ == self.undo_stack@.subrange(0, i as int),
            decreases self.undo_stack.len() - i,
        {
            v.push(self.undo_stack[i]);
            i += 1;
            assert(v@ =~= self.undo_stack@.subrange(0, i as int));
        }
        assert(self.undo_stack@.subrange(0, i as int) =~= self.undo_stack@);
        UndoStack { undo_stack: v }
    }
}

impl Board {
    /// A copy of the board, histories and keys included.
    pub fn duplicate(&self) -> (b: Board)
        ensures
            b.same_state(self),
            self.wf() ==> b.wf(),
    {
        Board {
            piece_bb: self.piece_bb,
            color_bb: self.color_bb,
            occupied: self.occupied,
            piece: self.piece,
            turn: self.turn,
            en_passant: self.en_passant,
            castling_rights: self.castling_rights,
            eval_mg: self.eval_mg,
            eval_eg: self.eval_eg,
            game_phase: self.game_phase,
            hash: self.hash,
            halfmoves: self.halfmoves,
            fullmove_counter: self.fullmove_counter,
            undo_stack: Box::new(self.undo_stack.duplicate()),
            positions: self.positions.duplicate(),
            zobrist: Box::new(self.zobrist.duplicate()),
        }
    }
}

/// Whether `a` and `b` hold the same numbers.
pub fn same_u64s(a: &[u64], b: &[u64]) -> (r: bool)
    ensures
        r == (a@ == b@),
{
    if a.len() != b.len() {
        return false;
    }
    let mut i: usize = 0;
    while i < a.len()
        invariant
            a@.len() == b@.len(),
            i <= a@.len(),
            a@.subrange(0, i as int) == b@.subrange(0, i as int),
        decreases a.len() - i,
    {
        if a[i] != b[i] {
            assert(a@[i as int] != b@[i as int]);
            return false;
        }
        i += 1;
        assert(a@.subrange(0, i as int) =~= a@.subrange(0, i - 1).push(a@[i - 1]));
        assert(b@.subrange(0, i as int) =~= b@.subrange(0, i - 1).push(b@[i - 1]));
    }
    assert(a@ =~= a@.subrange(0, i as int));
    assert(b@ =~= b@.subrange(0, i as int));
    true
}

impl Board {
    /// Whether the two boards hold the same position, histories and keys.
    pub fn equals(&self, other: &Board) -> (r: bool)
        ensures
            r == self.same_state(other),
    {
        let mut i: usize = 0;
        while i < 64
            invariant
                i <= 64,
                self.piece@.subrange(0, i as int) == other.piece@.subrange(0, i as int),
            decreases 64 - i,
        {
            if self.piece[i] != other.piece[i] {
                assert(self.piece@[i as int] != other.piece@[i as int]);
                return false;
            }
            i += 1;
            assert(self.piece@.subrange(0, i as int) =~= self.piece@.subrange(0, i - 1).push(self.piece@[i - 1]));
            assert(other.piece@.subrange(0, i as int) =~= other.piece@.subrange(0, i - 1).push(other.piece@[i - 1]));
        }
        assert(self.piece@ =~= self.piece@.subrange(0, 64));
        assert(other.piece@ =~= other.piece@.subrange(0, 64));
        let n = self.undo_stack.undo_stack.len();
        if n != other.undo_stack.undo_stack.len() {
            return false;
        }
        let mut k: usize = 0;
        while k < n
            invariant
                n == self.undo_stack@.len(),
                n == other.undo_stack@.len(),
                k <= n,
                self.undo_stack@.subrange(0, k as int) == other.undo_stack@.subrange(0, k as int),
            decreases n - k,
        {
            if self.undo_stack.undo_stack[k] != other.undo_stack.undo_stack[k] {
                assert(self.undo_stack@[k as int] != other.undo_stack@[k as int]);
                return false;
            }
            k += 1;
            assert(self.undo_stack@.subrange(0, k as int) =~= self.undo_stack@.subrange(0, k - 1).push(
                self.undo_stack@[k - 1],
            ));
            assert(other.undo_stack@.subrange(0, k as int) =~= other.undo_stack@.subrange(0, k - 1).push(
                other.undo_stack@[k - 1],
            ));
        }
        assert(self.undo_stack@ =~= self.undo_stack@.subrange(0, n as int));
        assert(other.undo_stack@ =~= other.undo_stack@.subrange(0, n as int));
        same_u64s(self.piece_bb.as_slice(), other.piece_bb.as_slice()) && same_u64s(
            self.color_bb.as_slice(),
            other.color_bb.as_slice(),
        ) && self.occupied == other.occupied && self.turn == other.turn && self.en_passant == other.en_passant
            && self.castling_rights == other.castling_rights && self.eval_mg == other.eval_mg && self.eval_eg
            == other.eval_eg && self.game_phase == other.game_phase && self.hash == other.hash && self.halfmoves
            == other.halfmoves && self.fullmove_counter == other.fullmove_counter && same_u64s(
            self.positions.positions.as_slice(),
            other.positions.positions.as_slice(),
        ) && same_u64s(self.zobrist.pieces.as_slice(), other.zobrist.pieces.as_slice()) && same_u64s(
            self.zobrist.castling.as_slice(),
            other.zobrist.castling.as_slice(),
        ) && same_u64s(self.zobrist.en_passant.as_slice(), other.zobrist.en_passant.as_slice())
            && self.zobrist.side_to_move == other.zobrist.side_to_move
    }
}

} // verus!
