use vstd::prelude::*;
use vstd::string::{StringSliceAdditionalSpecFns, StringExecFns};
use crate::chess::square::{Square, SquareError, parse_square, law_square_name_round_trip, lemma_square_of};
use crate::chess::constants::{Piece, Color};
use crate::chess::chess_move::{Move, encode};
use crate::chess::board::{Board, Position, GAME_POSITIONS_SIZE};
use crate::chess::board::bitboard::{RANK_1, RANK_8};
use crate::chess::board::attacks::{shift_up, shift_up_exec};
use crate::chess::board::make_move::{apply_move, undo_of, mover_safe, revert_move, move_shape_ok};

verus! {

/// Why a move in coordinate notation could not be read.
#[derive(Copy, Clone, PartialEq, Eq, Debug, Structural)]
pub enum MoveError {
    /// One of the two squares is not a square name.
    Square(SquareError),
    /// A pawn reaches the last rank but no promotion piece is given.
    MissingPromotion,
}

/// `b` continues a multi-byte UTF-8 character.
pub open spec fn continues(b: u8) -> bool {
    128 <= b < 192
}

/// The promotion flag for the letter `c` (quiet or capturing); `None` for a
/// letter that names no promotion piece.
pub open spec fn promo_flag(c: u8, cap: bool) -> Option<u16> {
    let base: u16 = if cap { 4 } else { 0 };
    if c == 113 {
        Some((11 + base) as u16)
    } else if c == 110 {
        Some((8 + base) as u16)
    } else if c == 114 {
        Some((10 + base) as u16)
    } else if c == 98 {
        Some((9 + base) as u16)
    } else {
        None
    }
}

/// The flags of a promotion written with the fifth byte of `b`.
pub open spec fn promo_flags(b: Seq<u8>, cap: bool) -> Option<Result<u16, MoveError>> {
    if b.len() == 4 {
        Some(Err(MoveError::MissingPromotion))
    } else {
        match promo_flag(b[4], cap) {
            None => None,
            Some(f) => Some(Ok(f)),
        }
    }
}

/// The flags of the move from `from` to `to` in `p`: a king moving two files
/// from its start square castles, a piece landing on an occupied square
/// captures, a pawn landing on the en passant square takes en passant, a
/// pawn moving one rank forward pushes (promoting on the last rank), any
/// other pawn move to an empty square is a double push.
pub open spec fn move_flags(p: Position, b: Seq<u8>, from: nat, to: nat) -> Option<Result<u16, MoveError>> {
    let fp = p.piece[from as int];
    let tp = p.piece[to as int];
    let tb = 1u64 << (to as u64);
    let side = p.turn.idx();
    let last = if side == 0 { RANK_8 } else { RANK_1 };
    if fp == Piece::King {
        let castle: u16 = if from == 4 || from == 60 {
            if to == 6 || to == 62 {
                2
            } else if to == 2 || to == 58 {
                3
            } else {
                0
            }
        } else {
            0
        };
        Some(Ok(if tp != Piece::Empty { 4 } else { castle }))
    } else if fp == Piece::Pawn {
        if tp == Piece::Empty {
            if tb == p.en_passant {
                Some(Ok(5))
            } else if shift_up(side, 1u64 << (from as u64)) & tb != 0 {
                if tb & last != 0 {
                    promo_flags(b, false)
                } else {
                    Some(Ok(0))
                }
            } else {
                Some(Ok(1))
            }
        } else if tb & last != 0 {
            promo_flags(b, true)
        } else {
            Some(Ok(4))
        }
    } else {
        Some(Ok(if tp != Piece::Empty { 4 } else { 0 }))
    }
}

/// The move that the coordinate notation `b` ("e2e4", "e7e8q") names in `p`,
/// its flags read off the board; `None` where the engine cannot read it: a
/// text shorter than four bytes or cut inside a character, no side to move,
/// or an unknown promotion letter.
pub open spec fn qualify_spec(p: Position, b: Seq<u8>) -> Option<Result<Move, MoveError>> {
    if b.len() < 4 || continues(b[2]) || (b.len() > 4 && continues(b[4])) || !p.turn.is_side() {
        None
    } else {
        match parse_square(b.subrange(0, 2)) {
            Err(e) => Some(Err(MoveError::Square(e))),
            Ok(from) => match parse_square(b.subrange(2, 4)) {
                Err(e) => Some(Err(MoveError::Square(e))),
                Ok(to) => match move_flags(p, b, from.num(), to.num()) {
                    None => None,
                    Some(Err(e)) => Some(Err(e)),
                    Some(Ok(f)) => Some(Ok(Move(encode(from.num(), to.num(), f)))),
                },
            },
        }
    }
}

fn promo_exec(b: &[u8], cap: bool) -> (r: Option<Result<u16, MoveError>>)
    requires
        b@.len() >= 4,
    ensures
        r == promo_flags(b@, cap),
{
    if b.len() == 4 {
        return Some(Err(MoveError::MissingPromotion));
    }
    let base: u16 = if cap { 4 } else { 0 };
    let c = b[4];
    if c == 113 {
        Some(Ok(11 + base))
    } else if c == 110 {
        Some(Ok(8 + base))
    } else if c == 114 {
        Some(Ok(10 + base))
    } else if c == 98 {
        Some(Ok(9 + base))
    } else {
        None
    }
}

impl Board {
    fn flags_for(&self, b: &[u8], from: Square, to: Square) -> (r: Option<Result<u16, MoveError>>)
        requires
            b@.len() >= 4,
            from.num() < 64,
            to.num() < 64,
            self.turn.is_side(),
        ensures
            r == move_flags(self.pos(), b@, from.num(), to.num()),
    {
        let fp = self.piece[from.index()];
        let tp = self.piece[to.index()];
        let tb = 1u64 << to.u8();
        let si = self.turn.index();
        let last = if si == 0 { RANK_8 } else { RANK_1 };
        if fp == Piece::King {
            let fnum = from.u8();
            let tnum = to.u8();
            let castle: u16 = if fnum == 4 || fnum == 60 {
                if tnum == 6 || tnum == 62 {
                    2
                } else if tnum == 2 || tnum == 58 {
                    3
                } else {
                    0
                }
            } else {
                0
            };
            Some(Ok(if tp != Piece::Empty { 4 } else { castle }))
        } else if fp == Piece::Pawn {
            if tp == Piece::Empty {
                if tb == self.en_passant {
                    Some(Ok(5))
                } else if shift_up_exec(si, 1u64 << from.u8()) & tb != 0 {
                    if tb & last != 0 {
                        promo_exec(b, false)
                    } else {
                        Some(Ok(0))
                    }
                } else {
                    Some(Ok(1))
                }
            } else if tb & last != 0 {
                promo_exec(b, true)
            } else {
                Some(Ok(4))
            }
        } else {
            Some(Ok(if tp != Piece::Empty { 4 } else { 0 }))
        }
    }

    /// Reads a move in coordinate notation, or `None` where the text cannot
    /// be read at all (see `qualify_spec`).
    pub fn read_move(&self, m: &str) -> (r: Option<Result<Move, MoveError>>)
        ensures
            r == qualify_spec(self.pos(), m.spec_bytes()),
    {
        let b = m.as_bytes();
        if b.len() < 4 || (128 <= b[2] && b[2] < 192) || (b.len() > 4 && 128 <= b[4] && b[4] < 192)
            || self.turn == Color::Empty {
            return None;
        }
        let first = Square::from_bytes(&b[0..2]);
        let from = match first {
            Err(e) => {
                return Some(Err(MoveError::Square(e)));
            },
            Ok(s) => s,
        };
        let second = Square::from_bytes(&b[2..4]);
        let to = match second {
            Err(e) => {
                return Some(Err(MoveError::Square(e)));
            },
            Ok(s) => s,
        };
        match self.flags_for(b, from, to) {
            None => None,
            Some(Err(e)) => Some(Err(e)),
            Some(Ok(f)) => Some(Ok(Move::new(from, to, f))),
        }
    }

    /// Reads a move in coordinate notation ("e2e4", "e7e8q") for the side to
    /// move, taking its flags from the board.
    pub fn qualify_move(&self, m: &str) -> (r: Result<Move, MoveError>)
        requires
            qualify_spec(self.pos(), m.spec_bytes()) is Some,
        ensures
            r == qualify_spec(self.pos(), m.spec_bytes())->Some_0,
    {
        match self.read_move(m) {
            Some(r) => r,
            None => Err(MoveError::MissingPromotion),
        }
    }

    /// Reads the move `m` and plays it for the side to move (updating the
    /// evaluation when `EVAL`); returns the move read.
    pub fn make_pl_move_from_string<const EVAL: bool>(&mut self, m: &str) -> (r: Move)
        requires
            old(self).wf(),
            old(self).positions@.len() < GAME_POSITIONS_SIZE,
            old(self).undo_stack@.len() < GAME_POSITIONS_SIZE,
            qualify_spec(old(self).pos(), m.spec_bytes()) matches Some(Ok(mv)) && move_shape_ok(old(self).pos(), mv),
        ensures
            qualify_spec(old(self).pos(), m.spec_bytes()) == Some(Ok::<Move, MoveError>(r)),
            mover_safe(apply_move(old(self).pos(), old(self).zobrist@, r, EVAL)) ==> final(self).pos() == apply_move(
                old(self).pos(),
                old(self).zobrist@,
                r,
                EVAL,
            ),
            !mover_safe(apply_move(old(self).pos(), old(self).zobrist@, r, EVAL)) ==> final(self).pos() == revert_move(
                apply_move(old(self).pos(), old(self).zobrist@, r, EVAL),
                old(self).turn.idx(),
                r,
                undo_of(old(self).pos(), r),
            ),
            final(self).zobrist == old(self).zobrist,
    {
        let mv = match self.read_move(m) {
            Some(Ok(mv)) => mv,
            _ => {
                return Move(0);
            },
        };
        self.make_pl_move::<EVAL>(mv);
        mv
    }
}

impl Move {
    /// Reads a move in coordinate notation on `board` (see `Board::qualify_move`).
    pub fn from_string(m: &str, board: &Board) -> (r: Result<Move, MoveError>)
        requires
            qualify_spec(board.pos(), m.spec_bytes()) is Some,
        ensures
            r == qualify_spec(board.pos(), m.spec_bytes())->Some_0,
    {
        board.qualify_move(m)
    }
}

/// The name of square number `n` ("e4").
pub open spec fn square_text(n: nat) -> Seq<char> {
    seq![((97 + n % 8) as u8) as char, ((49 + n / 8) as u8) as char]
}

/// The promotion letter of a move with flags `flags`, if it promotes.
pub open spec fn promo_text(flags: u16) -> Seq<char> {
    if flags == 11 || flags == 15 {
        seq!['q']
    } else if flags == 8 || flags == 12 {
        seq!['n']
    } else if flags == 9 || flags == 13 {
        seq!['b']
    } else if flags == 10 || flags == 14 {
        seq!['r']
    } else {
        Seq::empty()
    }
}

/// A move in coordinate notation ("e2e4", "e7e8q").
pub open spec fn move_text(m: Move) -> Seq<char> {
    square_text(m.from_num()) + square_text(m.to_num()) + promo_text(m.flag_bits())
}

fn file_str(f: u8) -> (r: &'static str)
    requires
        f < 8,
    ensures
        r@ == seq![((97 + f) as u8) as char],
{
    if f == 0 {
        proof { reveal_strlit("a"); }
        "a"
    } else if f == 1 {
        proof { reveal_strlit("b"); }
        "b"
    } else if f == 2 {
        proof { reveal_strlit("c"); }
        "c"
    } else if f == 3 {
        proof { reveal_strlit("d"); }
        "d"
    } else if f == 4 {
        proof { reveal_strlit("e"); }
        "e"
    } else if f == 5 {
        proof { reveal_strlit("f"); }
        "f"
    } else if f == 6 {
        proof { reveal_strlit("g"); }
        "g"
    } else {
        proof { reveal_strlit("h"); }
        "h"
    }
}

pub(crate) fn rank_str(r: u8) -> (s: &'static str)
    requires
        r < 8,
    ensures
        s@ == seq![((49 + r) as u8) as char],
{
    if r == 0 {
        proof { reveal_strlit("1"); }
        "1"
    } else if r == 1 {
        proof { reveal_strlit("2"); }
        "2"
    } else if r == 2 {
        proof { reveal_strlit("3"); }
        "3"
    } else if r == 3 {
        proof { reveal_strlit("4"); }
        "4"
    } else if r == 4 {
        proof { reveal_strlit("5"); }
        "5"
    } else if r == 5 {
        proof { reveal_strlit("6"); }
        "6"
    } else if r == 6 {
        proof { reveal_strlit("7"); }
        "7"
    } else {
        proof { reveal_strlit("8"); }
        "8"
    }
}

fn promo_str(flags: u16) -> (s: &'static str)
    ensures
        s@ == promo_text(flags),
{
    if flags == 11 || flags == 15 {
        proof { reveal_strlit("q"); }
        "q"
    } else if flags == 8 || flags == 12 {
        proof { reveal_strlit("n"); }
        "n"
    } else if flags == 9 || flags == 13 {
        proof { reveal_strlit("b"); }
        "b"
    } else if flags == 10 || flags == 14 {
        proof { reveal_strlit("r"); }
        "r"
    } else {
        proof { reveal_strlit(""); }
        ""
    }
}

impl Move {
    /// The move in coordinate notation ("e2e4", "e7e8q").
    pub fn to_string(self) -> (s: String)
        ensures
            s@ == move_text(self),
    {
        let from = self.from();
        let to = self.to();
        let mut s = String::new();
        s.append(file_str(from.file()));
        s.append(rank_str(from.rank()));
        s.append(file_str(to.file()));
        s.append(rank_str(to.rank()));
        s.append(promo_str(self.flags()));
        assert(s@ =~= move_text(self));
        s
    }
}

/// Reading a move's own text back on a board with a side to move (as
/// `Move::from_string` does with the text of `Move::to_string`) never fails
/// on a square or a letter: it gives a move between the same two squares,
/// keeping the promoted piece of a promotion read as one, and it gives the
/// move itself whenever the board reads the move's own flags for those
/// squares. The one error is a missing promotion letter, for a move that
/// does not promote but that the board sees as a pawn reaching its last rank.
pub proof fn law_move_text_round_trip(p: Position, m: Move)
    requires
        p.turn.is_side(),
        p.piece.len() == 64,
    ensures
        ({
            let b = vstd::utf8::encode_utf8(move_text(m));
            match qualify_spec(p, b) {
                None => false,
                Some(Err(e)) => e == MoveError::MissingPromotion && m.flag_bits() < 8,
                Some(Ok(m2)) => {
                    &&& m2.from_num() == m.from_num()
                    &&& m2.to_num() == m.to_num()
                    &&& (m.flag_bits() >= 8 && m2.flag_bits() >= 8 ==> m2.flag_bits() % 4 == m.flag_bits() % 4)
                    &&& (move_flags(p, b, m.from_num(), m.to_num()) == Some(Ok::<u16, MoveError>(m.flag_bits())) ==> m2 == m)
                },
            }
        }),
{
    m.lemma_parts();
    let from = m.from_num();
    let to = m.to_num();
    let flags = m.flag_bits();
    let t = move_text(m);
    assert(vstd::utf8::is_ascii_chars(t));
    vstd::utf8::is_ascii_chars_encode_utf8(t);
    let b = vstd::utf8::encode_utf8(t);
    assert(b.subrange(0, 2) =~= seq![(97 + from % 8) as u8, (49 + from / 8) as u8]);
    assert(b.subrange(2, 4) =~= seq![(97 + to % 8) as u8, (49 + to / 8) as u8]);
    law_square_name_round_trip(from);
    law_square_name_round_trip(to);
    lemma_square_of(from);
    lemma_square_of(to);
    assert(!continues(b[2]));
    assert(b.len() > 4 ==> !continues(b[4]));
    match move_flags(p, b, from, to) {
        Some(Ok(f)) => {
            assert(f < 16);
            Move::lemma_encode(from, to, f);
            if flags == f {
                Move::lemma_parts_equal(m, Move(encode(from, to, f)));
            }
        },
        _ => {},
    }
}

} // verus!
