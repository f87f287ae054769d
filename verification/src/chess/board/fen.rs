use vstd::prelude::*;
use vstd::string::StringSliceAdditionalSpecFns;
use crate::chess::square::{Square, parse_square, lower, ascii_lower};
use crate::chess::board::bitboard::{PAWN_W_DEFAULT, BISHOP_W_DEFAULT, KNIGHT_W_DEFAULT, ROOK_W_DEFAULT, QUEEN_W_DEFAULT, KING_W_DEFAULT, PAWN_B_DEFAULT, BISHOP_B_DEFAULT, KNIGHT_B_DEFAULT, ROOK_B_DEFAULT, QUEEN_B_DEFAULT, KING_B_DEFAULT, DEFAULT_COLOR_W, DEFAULT_COLOR_B, DEFAULT_OCCUPIED};
use crate::chess::constants::{Piece, Color};
use crate::chess::board::{Board, Position, FenError, UndoStack, GAME_POSITIONS_SIZE};
use crate::chess::board::hash::{HashList, ZobristTable, Keys};
use crate::chess::board::make_move::hash_spec;
use crate::chess::board::evaluation::{score_total, phase_spec};
use crate::chess::board::move_gen::{castling_spec, castle_block_spec, mv_of};
use crate::chess::board::attacks::attacked;
use crate::chess::chess_move::Move;
use crate::chess::board::bitboard::{WHITE_KING_CASTLE_BLOCKERS, WHITE_QUEEN_CASTLE_BLOCKERS, BLACK_KING_CASTLE_BLOCKERS, BLACK_QUEEN_CASTLE_BLOCKERS};

verus! {

/// Splitting `rest`, where `acc` holds the pieces already cut off and `cur`
/// the piece being read.
pub open spec fn split_from(acc: Seq<Seq<u8>>, cur: Seq<u8>, rest: Seq<u8>, sep: u8) -> Seq<Seq<u8>>
    decreases rest.len(),
{
    if rest.len() == 0 {
        acc.push(cur)
    } else if rest[0] == sep {
        split_from(acc.push(cur), Seq::empty(), rest.drop_first(), sep)
    } else {
        split_from(acc, cur.push(rest[0]), rest.drop_first(), sep)
    }
}

/// The pieces of `b` between the separators `sep`, empty pieces included
/// (there is always at least one piece).
pub open spec fn split(b: Seq<u8>, sep: u8) -> Seq<Seq<u8>> {
    split_from(Seq::empty(), Seq::empty(), b, sep)
}

pub proof fn lemma_split_from_len(acc: Seq<Seq<u8>>, cur: Seq<u8>, rest: Seq<u8>, sep: u8)
    ensures
        split_from(acc, cur, rest, sep).len() > acc.len(),
    decreases rest.len(),
{
    if rest.len() > 0 {
        if rest[0] == sep {
            lemma_split_from_len(acc.push(cur), Seq::empty(), rest.drop_first(), sep);
        } else {
            lemma_split_from_len(acc, cur.push(rest[0]), rest.drop_first(), sep);
        }
    }
}

/// The contents of a sequence of byte vectors.
pub open spec fn views(v: Seq<Vec<u8>>) -> Seq<Seq<u8>> {
    v.map_values(|x: Vec<u8>| x@)
}

/// Cuts `b` at each byte `sep`.
pub fn split_bytes(b: &[u8], sep: u8) -> (r: Vec<Vec<u8>>)
    ensures
        views(r@) == split(b@, sep),
        r@.len() > 0,
{
    let mut out: Vec<Vec<u8>> = Vec::new();
    let mut cur: Vec<u8> = Vec::new();
    let mut i: usize = 0;
    assert(b@.skip(0) =~= b@);
    assert(views(out@) =~= Seq::<Seq<u8>>::empty());
    while i < b.len()
        invariant
            i <= b.len(),
            split_from(views(out@), cur@, b@.skip(i as int), sep) == split(b@, sep),
        decreases b.len() - i,
    {
        assert(b@.skip(i as int).drop_first() =~= b@.skip(i + 1));
        assert(b@.skip(i as int)[0] == b[i as int]);
        if b[i] == sep {
            let ghost before = views(out@);
            let ghost cv = cur@;
            out.push(cur);
            cur = Vec::new();
            assert(views(out@) =~= before.push(cv));
            assert(cur@ =~= Seq::<u8>::empty());
        } else {
            cur.push(b[i]);
        }
        i += 1;
    }
    assert(b@.skip(i as int) =~= Seq::<u8>::empty());
    let ghost before = views(out@);
    let ghost cv = cur@;
    out.push(cur);
    assert(views(out@) =~= before.push(cv));
    out
}

pub open spec fn is_digit(c: u8) -> bool {
    48 <= c <= 57
}

pub open spec fn all_digits(d: Seq<u8>) -> bool {
    forall|i: int| 0 <= i < d.len() ==> #[trigger] is_digit(d[i])
}

/// The number written by the decimal digits `d`.
pub open spec fn digits_value(d: Seq<u8>) -> nat
    decreases d.len(),
{
    if d.len() == 0 {
        0
    } else {
        digits_value(d.drop_last()) * 10 + (d.last() - 48) as nat
    }
}

/// The unsigned 16-bit number written in `b`: an optional `+`, then at least
/// one decimal digit, the value at most 65535 (none otherwise).
pub open spec fn parse_u16(b: Seq<u8>) -> Option<u16> {
    let d = if b.len() > 0 && b[0] == 43 { b.drop_first() } else { b };
    if d.len() > 0 && all_digits(d) && digits_value(d) <= 65535 {
        Some(digits_value(d) as u16)
    } else {
        None
    }
}

pub open spec fn sat(v: nat) -> nat {
    if v > 65536 { 65536 } else { v }
}

/// Reads an unsigned 16-bit number as `str::parse::<u16>` does.
pub fn parse_u16_bytes(b: &[u8]) -> (r: Option<u16>)
    ensures
        r == parse_u16(b@),
{
    let start: usize = if b.len() > 0 && b[0] == 43 { 1 } else { 0 };
    let ghost d = if b@.len() > 0 && b@[0] == 43 { b@.drop_first() } else { b@ };
    assert(d =~= b@.subrange(start as int, b@.len() as int));
    if start >= b.len() {
        return None;
    }
    let mut acc: u32 = 0;
    let mut k: usize = start;
    assert(b@.subrange(start as int, k as int) =~= Seq::<u8>::empty());
    while k < b.len()
        invariant
            start <= k <= b.len(),
            d == b@.subrange(start as int, b@.len() as int),
            d == (if b@.len() > 0 && b@[0] == 43 { b@.drop_first() } else { b@ }),
            acc == sat(digits_value(b@.subrange(start as int, k as int))),
            all_digits(b@.subrange(start as int, k as int)),
        decreases b.len() - k,
    {
        let c = b[k];
        if c < 48 || c > 57 {
            assert(d[k - start] == c);
            assert(!is_digit(d[k - start]));
            assert(!all_digits(d));
            return None;
        }
        let ghost pre = b@.subrange(start as int, k as int);
        let ghost next = b@.subrange(start as int, k + 1);
        assert(next.drop_last() =~= pre);
        assert(next.last() == c);
        assert(forall|i: int| 0 <= i < next.len() ==> #[trigger] next[i] == if i < pre.len() { pre[i] } else { c });
        let v = acc * 10 + (c - 48) as u32;
        acc = if v > 65536 { 65536 } else { v };
        k += 1;
    }
    assert(b@.subrange(start as int, k as int) =~= d);
    if acc > 65535 {
        None
    } else {
        Some(acc as u16)
    }
}

/// The pieces placed so far while reading a position.
pub struct Placement {
    pub piece_bb: Seq<u64>,
    pub color_bb: Seq<u64>,
    pub occupied: u64,
    pub piece: Seq<Piece>,
}

pub open spec fn empty_placement() -> Placement {
    Placement {
        piece_bb: Seq::new(12, |i: int| 0u64),
        color_bb: Seq::new(2, |i: int| 0u64),
        occupied: 0,
        piece: Seq::new(64, |i: int| Piece::Empty),
    }
}

/// The piece a FEN letter names (either case).
pub open spec fn fen_piece(c: u8) -> Option<Piece> {
    let l = lower(c);
    if l == 112 {
        Some(Piece::Pawn)
    } else if l == 110 {
        Some(Piece::Knight)
    } else if l == 98 {
        Some(Piece::Bishop)
    } else if l == 114 {
        Some(Piece::Rook)
    } else if l == 113 {
        Some(Piece::Queen)
    } else if l == 107 {
        Some(Piece::King)
    } else {
        None
    }
}

/// The side a FEN letter names: white for upper case.
pub open spec fn fen_side(c: u8) -> nat {
    if 65 <= c <= 90 { 0 } else { 1 }
}

/// Puts piece `p` of `side` on square `off`, toggling its bit on the boards.
pub open spec fn put_piece(st: Placement, p: Piece, side: nat, off: nat) -> Placement {
    let m = 1u64 << (off as u64);
    let i = p.idx() + side * 6;
    Placement {
        piece_bb: st.piece_bb.update(i as int, st.piece_bb[i as int] ^ m),
        color_bb: st.color_bb.update(side as int, st.color_bb[side as int] ^ m),
        occupied: st.occupied ^ m,
        piece: st.piece.update(off as int, p),
    }
}

/// Reads the rank text `r` from square `off` on: a digit skips that many
/// squares, a letter places a piece. An unknown letter is an error; `None`
/// where the engine would run off its board (a piece past h8, or a square
/// number past 255).
pub open spec fn place_chars(st: Placement, off: nat, r: Seq<u8>) -> Option<Result<Placement, FenError>>
    decreases r.len(),
{
    if r.len() == 0 {
        Some(Ok(st))
    } else if is_digit(r[0]) {
        if off + (r[0] - 48) > 255 {
            None
        } else {
            place_chars(st, (off + r[0] - 48) as nat, r.drop_first())
        }
    } else {
        match fen_piece(r[0]) {
            None => Some(Err(FenError::InvalidPiece)),
            Some(p) => if off >= 64 {
                None
            } else {
                place_chars(put_piece(st, p, fen_side(r[0]), off), off + 1, r.drop_first())
            },
        }
    }
}

/// Reads the ranks `ranks`, the `n`-th counted from the eighth rank down;
/// gives the placement and the number of ranks read. `None` where the engine
/// would fail: a ninth rank, or a rank running off the board.
pub open spec fn place_ranks(st: Placement, ranks: Seq<Seq<u8>>, n: nat) -> Option<Result<(Placement, nat), FenError>>
    decreases ranks.len(),
{
    if ranks.len() == 0 {
        Some(Ok((st, n)))
    } else if n > 7 {
        None
    } else {
        match place_chars(st, ((7 - n) * 8) as nat, ranks[0]) {
            None => None,
            Some(Err(e)) => Some(Err(e)),
            Some(Ok(st2)) => place_ranks(st2, ranks.drop_first(), n + 1),
        }
    }
}

/// The boards being filled while reading a position.
pub struct Setup {
    pub piece_bb: [u64; 12],
    pub color_bb: [u64; 2],
    pub occupied: u64,
    pub piece: [Piece; 64],
}

impl Setup {
    pub open spec fn view(&self) -> Placement {
        Placement { piece_bb: self.piece_bb@, color_bb: self.color_bb@, occupied: self.occupied, piece: self.piece@ }
    }

    pub fn new() -> (s: Self)
        ensures
            s@ == empty_placement(),
    {
        let s = Setup { piece_bb: [0u64; 12], color_bb: [0u64; 2], occupied: 0, piece: [Piece::Empty; 64] };
        assert(s.piece_bb@ =~= empty_placement().piece_bb);
        assert(s.color_bb@ =~= empty_placement().color_bb);
        assert(s.piece@ =~= empty_placement().piece);
        s
    }

    fn put(&mut self, p: Piece, side: usize, off: u32)
        requires
            side < 2,
            off < 64,
            p.idx() < 6,
        ensures
            final(self)@ == put_piece(old(self)@, p, side as nat, off as nat),
    {
        let m = 1u64 << off;
        let i = p.index() + side * 6;
        self.piece_bb[i] = self.piece_bb[i] ^ m;
        self.color_bb[side] = self.color_bb[side] ^ m;
        self.occupied = self.occupied ^ m;
        self.piece[off as usize] = p;
        assert(final(self)@.piece_bb =~= put_piece(old(self)@, p, side as nat, off as nat).piece_bb);
        assert(final(self)@.color_bb =~= put_piece(old(self)@, p, side as nat, off as nat).color_bb);
        assert(final(self)@.piece =~= put_piece(old(self)@, p, side as nat, off as nat).piece);
    }
}

fn fen_piece_exec(c: u8) -> (r: Option<Piece>)
    ensures
        r == fen_piece(c),
{
    let l = ascii_lower(c);
    if l == 112 {
        Some(Piece::Pawn)
    } else if l == 110 {
        Some(Piece::Knight)
    } else if l == 98 {
        Some(Piece::Bishop)
    } else if l == 114 {
        Some(Piece::Rook)
    } else if l == 113 {
        Some(Piece::Queen)
    } else if l == 107 {
        Some(Piece::King)
    } else {
        None
    }
}

/// Reads one rank of a FEN placement into `st`, from square `off0` on.
fn place_rank(st: &mut Setup, off0: u32, r: &[u8]) -> (res: Option<Result<(), FenError>>)
    requires
        off0 <= 56,
    ensures
        match place_chars(old(st)@, off0 as nat, r@) {
            None => res is None,
            Some(Err(e)) => res == Some(Err::<(), FenError>(e)),
            Some(Ok(p)) => res == Some(Ok::<(), FenError>(())) && final(st)@ == p,
        },
{
    let mut off: u32 = off0;
    let mut k: usize = 0;
    assert(r@.skip(0) =~= r@);
    while k < r.len()
        invariant
            k <= r.len(),
            off <= 255,
            place_chars(st@, off as nat, r@.skip(k as int)) == place_chars(old(st)@, off0 as nat, r@),
        decreases r.len() - k,
    {
        assert(r@.skip(k as int).drop_first() =~= r@.skip(k + 1));
        assert(r@.skip(k as int)[0] == r[k as int]);
        let c = r[k];
        if 48 <= c && c <= 57 {
            let o2 = off + (c - 48) as u32;
            if o2 > 255 {
                return None;
            }
            off = o2;
        } else {
            match fen_piece_exec(c) {
                None => {
                    return Some(Err(FenError::InvalidPiece));
                },
                Some(p) => {
                    if off >= 64 {
                        return None;
                    }
                    let side: usize = if 65 <= c && c <= 90 { 0 } else { 1 };
                    st.put(p, side, off);
                    off = off + 1;
                },
            }
        }
        k += 1;
    }
    assert(r@.skip(k as int) =~= Seq::<u8>::empty());
    Some(Ok(()))
}

/// The castling bit a FEN letter stands for (`-` for none).
pub open spec fn castle_bit(c: u8) -> Option<nat> {
    if c == 75 {
        Some(1)
    } else if c == 81 {
        Some(4)
    } else if c == 107 {
        Some(2)
    } else if c == 113 {
        Some(8)
    } else if c == 45 {
        Some(0)
    } else {
        None
    }
}

/// The sum of the castling bits of the letters `r` added to `acc`; an
/// unknown letter is an error, `None` where the sum passes 255.
pub open spec fn castling_sum(r: Seq<u8>, acc: nat) -> Option<Result<nat, FenError>>
    decreases r.len(),
{
    if r.len() == 0 {
        Some(Ok(acc))
    } else {
        match castle_bit(r[0]) {
            None => Some(Err(FenError::Castling)),
            Some(v) => if acc + v > 255 {
                None
            } else {
                castling_sum(r.drop_first(), acc + v)
            },
        }
    }
}

/// The en passant board a FEN field names (`-` for none).
pub open spec fn ep_field(f: Seq<u8>) -> Result<u64, FenError> {
    if f == seq![45u8] {
        Ok(0)
    } else {
        match parse_square(f) {
            Ok(sq) => Ok(1u64 << (sq.num() as u64)),
            Err(_) => Err(FenError::EnPassant),
        }
    }
}

/// What a FEN string `b` describes: the placement (ranks from the eighth
/// down, separated by `/`), the side to move (`w` or `b`), the castling
/// rights, and optionally the en passant square, the halfmove clock
/// (1 when missing) and the fullmove number (0 when missing). The first
/// failing field gives the error. `None` where the engine cannot read it
/// at all: a ninth rank, a piece past the last square, too many castling
/// letters, or a castling byte past its key table.
pub open spec fn fen_spec(b: Seq<u8>) -> Option<Result<Position, FenError>> {
    let f = split(b, 32);
    match place_ranks(empty_placement(), split(f[0], 47), 0) {
        None => None,
        Some(Err(e)) => Some(Err(e)),
        Some(Ok((pl, n))) => if n != 8 {
            Some(Err(FenError::InvalidNumRanks))
        } else if f.len() < 2 {
            Some(Err(FenError::InvalidNumSections))
        } else if f[1] != seq![119u8] && f[1] != seq![98u8] {
            Some(Err(FenError::InvalidTurn))
        } else if f.len() < 3 {
            Some(Err(FenError::InvalidNumSections))
        } else {
            match castling_sum(f[2], 0) {
                None => None,
                Some(Err(e)) => Some(Err(e)),
                Some(Ok(c)) => {
                    let ep = if f.len() < 4 { Ok(0u64) } else { ep_field(f[3]) };
                    let hm = if f.len() < 5 { Some(1u16) } else { parse_u16(f[4]) };
                    let fm = if f.len() < 6 { Some(0u16) } else { parse_u16(f[5]) };
                    if ep is Err {
                        Some(Err(FenError::EnPassant))
                    } else if hm is None {
                        Some(Err(FenError::HalfMove))
                    } else if fm is None {
                        Some(Err(FenError::FullMove))
                    } else if c >= 16 {
                        None
                    } else {
                        Some(
                            Ok(
                                Position {
                                    piece_bb: pl.piece_bb,
                                    color_bb: pl.color_bb,
                                    occupied: pl.occupied,
                                    piece: pl.piece,
                                    turn: if f[1] == seq![119u8] { Color::White } else { Color::Black },
                                    en_passant: ep->Ok_0,
                                    castling: c as u8,
                                    mg: 0,
                                    eg: 0,
                                    phase: 0,
                                    hash: 0,
                                    halfmoves: hm->Some_0,
                                    fullmoves: fm->Some_0,
                                },
                            ),
                        )
                    }
                },
            }
        },
    }
}

/// A freshly set up position `raw` with its hash, evaluation and phase
/// computed under the keys `z`.
pub open spec fn scored(raw: Position, z: Keys) -> Position {
    Position {
        hash: hash_spec(raw, z),
        mg: score_total(raw.piece_bb, true) as i16,
        eg: score_total(raw.piece_bb, false) as i16,
        phase: phase_spec(raw.piece_bb) as i16,
        ..raw
    }
}

fn castling_exec(r: &[u8]) -> (res: Option<Result<u8, FenError>>)
    ensures
        match castling_sum(r@, 0) {
            None => res is None,
            Some(Err(e)) => res == Some(Err::<u8, FenError>(e)),
            Some(Ok(c)) => res == Some(Ok::<u8, FenError>(c as u8)) && c <= 255,
        },
{
    let mut acc: u32 = 0;
    let mut k: usize = 0;
    assert(r@.skip(0) =~= r@);
    while k < r.len()
        invariant
            k <= r.len(),
            acc <= 255,
            castling_sum(r@.skip(k as int), acc as nat) == castling_sum(r@, 0),
        decreases r.len() - k,
    {
        assert(r@.skip(k as int).drop_first() =~= r@.skip(k + 1));
        assert(r@.skip(k as int)[0] == r[k as int]);
        let c = r[k];
        let v: u32 = if c == 75 {
            1
        } else if c == 81 {
            4
        } else if c == 107 {
            2
        } else if c == 113 {
            8
        } else if c == 45 {
            0
        } else {
            return Some(Err(FenError::Castling));
        };
        if acc + v > 255 {
            return None;
        }
        acc = acc + v;
        k += 1;
    }
    assert(r@.skip(k as int) =~= Seq::<u8>::empty());
    Some(Ok(acc as u8))
}

fn ep_exec(f: &[u8]) -> (r: Result<u64, FenError>)
    ensures
        r == ep_field(f@),
{
    if f.len() == 1 && f[0] == 45 {
        assert(f@ =~= seq![45u8]);
        return Ok(0);
    }
    assert(f@ != seq![45u8]) by {
        if f@ == seq![45u8] {
            assert(f@.len() == 1 && f@[0] == 45);
        }
    }
    match Square::from_bytes(f) {
        Ok(sq) => Ok(sq.to_bitboard().0),
        Err(_) => Err(FenError::EnPassant),
    }
}

/// The piece on each square at the start of a game.
pub open spec fn start_pieces() -> Seq<Piece> {
    let back = seq![
        Piece::Rook,
        Piece::Knight,
        Piece::Bishop,
        Piece::Queen,
        Piece::King,
        Piece::Bishop,
        Piece::Knight,
        Piece::Rook,
    ];
    Seq::new(
        64,
        |i: int|
            if i < 8 {
                back[i]
            } else if i < 16 || 48 <= i < 56 {
                Piece::Pawn
            } else if i < 48 {
                Piece::Empty
            } else {
                back[i - 56]
            },
    )
}

/// The starting position, before its hash and evaluation are computed.
pub open spec fn start_position() -> Position {
    Position {
        piece_bb: seq![
            PAWN_W_DEFAULT,
            BISHOP_W_DEFAULT,
            KNIGHT_W_DEFAULT,
            ROOK_W_DEFAULT,
            QUEEN_W_DEFAULT,
            KING_W_DEFAULT,
            PAWN_B_DEFAULT,
            BISHOP_B_DEFAULT,
            KNIGHT_B_DEFAULT,
            ROOK_B_DEFAULT,
            QUEEN_B_DEFAULT,
            KING_B_DEFAULT,
        ],
        color_bb: seq![DEFAULT_COLOR_W, DEFAULT_COLOR_B],
        occupied: DEFAULT_OCCUPIED,
        piece: start_pieces(),
        turn: Color::White,
        en_passant: 0,
        castling: 15,
        mg: 0,
        eg: 0,
        phase: 0,
        hash: 0,
        halfmoves: 0,
        fullmoves: 1,
    }
}

impl Board {
    /// Fills in the hash, the evaluation and the phase of a freshly set up board.
    fn score_setup(&mut self)
        requires
            old(self).zobrist.canonical(),
            old(self).castling_rights < 16,
            old(self).turn.is_side(),
        ensures
            final(self).pos() == scored(old(self).pos(), old(self).zobrist@),
            final(self).zobrist == old(self).zobrist,
            final(self).undo_stack == old(self).undo_stack,
            final(self).positions == old(self).positions,
    {
        self.hash = self.calculate_hash();
        self.eval_eg = self.calculate_eg();
        self.eval_mg = self.calculate_mg();
        self.game_phase = self.calc_phase();
    }

    /// The board at the start of a game.
    pub fn default() -> (b: Board)
        ensures
            b.pos() == scored(start_position(), b.zobrist@),
            b.wf(),
            b.undo_stack@.len() == 0,
            b.positions@.len() == 0,
    {
        let piece = [
            Piece::Rook, Piece::Knight, Piece::Bishop, Piece::Queen, Piece::King, Piece::Bishop, Piece::Knight,
            Piece::Rook, Piece::Pawn, Piece::Pawn, Piece::Pawn, Piece::Pawn, Piece::Pawn, Piece::Pawn, Piece::Pawn,
            Piece::Pawn, Piece::Empty, Piece::Empty, Piece::Empty, Piece::Empty, Piece::Empty, Piece::Empty,
            Piece::Empty, Piece::Empty, Piece::Empty, Piece::Empty, Piece::Empty, Piece::Empty, Piece::Empty,
            Piece::Empty, Piece::Empty, Piece::Empty, Piece::Empty, Piece::Empty, Piece::Empty, Piece::Empty,
            Piece::Empty, Piece::Empty, Piece::Empty, Piece::Empty, Piece::Empty, Piece::Empty, Piece::Empty,
            Piece::Empty, Piece::Empty, Piece::Empty, Piece::Empty, Piece::Empty, Piece::Pawn, Piece::Pawn,
            Piece::Pawn, Piece::Pawn, Piece::Pawn, Piece::Pawn, Piece::Pawn, Piece::Pawn, Piece::Rook,
            Piece::Knight, Piece::Bishop, Piece::Queen, Piece::King, Piece::Bishop, Piece::Knight, Piece::Rook,
        ];
        let piece_bb = [
            PAWN_W_DEFAULT, BISHOP_W_DEFAULT, KNIGHT_W_DEFAULT, ROOK_W_DEFAULT, QUEEN_W_DEFAULT, KING_W_DEFAULT,
            PAWN_B_DEFAULT, BISHOP_B_DEFAULT, KNIGHT_B_DEFAULT, ROOK_B_DEFAULT, QUEEN_B_DEFAULT, KING_B_DEFAULT,
        ];
        let color_bb = [DEFAULT_COLOR_W, DEFAULT_COLOR_B];
        assert(piece@ =~= start_pieces());
        assert(piece_bb@ =~= start_position().piece_bb);
        assert(color_bb@ =~= start_position().color_bb);
        let mut board = Board {
            piece_bb,
            color_bb,
            occupied: DEFAULT_OCCUPIED,
            piece,
            turn: Color::White,
            en_passant: 0,
            castling_rights: 15,
            eval_mg: 0,
            eval_eg: 0,
            game_phase: 0,
            hash: 0,
            halfmoves: 0,
            fullmove_counter: 1,
            undo_stack: Box::new(UndoStack::new()),
            positions: HashList::new(),
            zobrist: Box::new(ZobristTable::new()),
        };
        board.score_setup();
        assert(0xFFFFu64 | 0xFFFF000000000000u64 == 0xFFFF00000000FFFFu64) by (bit_vector);
        board
    }

    /// Reads a position in Forsyth-Edwards notation. `None` where the engine
    /// cannot read the string at all (see `fen_spec`).
    pub fn parse_fen(fen: &str) -> (r: Option<Result<Board, FenError>>)
        ensures
            match fen_spec(fen.spec_bytes()) {
                None => r is None,
                Some(Err(e)) => r is Some && r->Some_0 is Err && r->Some_0->Err_0 == e,
                Some(Ok(raw)) => r is Some && r->Some_0 is Ok && ({
                    let b = r->Some_0->Ok_0;
                    &&& b.pos() == scored(raw, b.zobrist@)
                    &&& b.zobrist.canonical()
                    &&& b.undo_stack@.len() == 0
                    &&& b.positions@.len() == 0
                }),
            },
    {
        Board::parse_fen_bytes(fen.as_bytes())
    }

    /// Reads a position from the bytes of a FEN record (see `parse_fen`).
    pub fn parse_fen_bytes(bytes: &[u8]) -> (r: Option<Result<Board, FenError>>)
        ensures
            match fen_spec(bytes@) {
                None => r is None,
                Some(Err(e)) => r is Some && r->Some_0 is Err && r->Some_0->Err_0 == e,
                Some(Ok(raw)) => r is Some && r->Some_0 is Ok && ({
                    let b = r->Some_0->Ok_0;
                    &&& b.pos() == scored(raw, b.zobrist@)
                    &&& b.zobrist.canonical()
                    &&& b.undo_stack@.len() == 0
                    &&& b.positions@.len() == 0
                }),
            },
    {
        let fields = split_bytes(bytes, 32);
        let ghost f = views(fields@);
        let ranks = split_bytes(fields[0].as_slice(), 47);
        let ghost rk = views(ranks@);
        assert(f[0] == fields@[0]@);
        let mut st = Setup::new();
        let mut n: u32 = 0;
        let mut j: usize = 0;
        assert(rk.skip(0) =~= rk);
        while j < ranks.len()
            invariant
                j <= ranks.len(),
                n == j,
                rk == views(ranks@),
                rk == split(split(bytes@, 32)[0], 47),
                place_ranks(st@, rk.skip(j as int), n as nat) == place_ranks(empty_placement(), rk, 0),
            decreases ranks.len() - j,
        {
            assert(rk.skip(j as int).drop_first() =~= rk.skip(j + 1));
            assert(rk.skip(j as int)[0] == ranks@[j as int]@);
            if n > 7 {
                return None;
            }
            match place_rank(&mut st, (7 - n) * 8, ranks[j].as_slice()) {
                None => {
                    return None;
                },
                Some(Err(e)) => {
                    return Some(Err(e));
                },
                Some(Ok(())) => {},
            }
            n += 1;
            j += 1;
        }
        assert(rk.skip(j as int) =~= Seq::<Seq<u8>>::empty());
        if n != 8 {
            return Some(Err(FenError::InvalidNumRanks));
        }
        if fields.len() < 2 {
            return Some(Err(FenError::InvalidNumSections));
        }
        let f1 = fields[1].as_slice();
        assert(f[1] == f1@);
        let is_w = f1.len() == 1 && f1[0] == 119;
        let is_b = f1.len() == 1 && f1[0] == 98;
        assert(is_w == (f1@ == seq![119u8])) by {
            if f1@ == seq![119u8] {
                assert(f1@.len() == 1 && f1@[0] == 119);
            }
            if is_w {
                assert(f1@ =~= seq![119u8]);
            }
        }
        assert(is_b == (f1@ == seq![98u8])) by {
            if f1@ == seq![98u8] {
                assert(f1@.len() == 1 && f1@[0] == 98);
            }
            if is_b {
                assert(f1@ =~= seq![98u8]);
            }
        }
        if !is_w && !is_b {
            return Some(Err(FenError::InvalidTurn));
        }
        let turn = if is_w { Color::White } else { Color::Black };
        if fields.len() < 3 {
            return Some(Err(FenError::InvalidNumSections));
        }
        assert(f[2] == fields@[2]@);
        let castling = match castling_exec(fields[2].as_slice()) {
            None => {
                return None;
            },
            Some(Err(e)) => {
                return Some(Err(e));
            },
            Some(Ok(c)) => c,
        };
        let ep = if fields.len() < 4 {
            Ok(0u64)
        } else {
            assert(f[3] == fields@[3]@);
            ep_exec(fields[3].as_slice())
        };
        let en_passant = match ep {
            Err(_) => {
                return Some(Err(FenError::EnPassant));
            },
            Ok(v) => v,
        };
        let hm = if fields.len() < 5 {
            Some(1u16)
        } else {
            assert(f[4] == fields@[4]@);
            parse_u16_bytes(fields[4].as_slice())
        };
        let halfmoves = match hm {
            None => {
                return Some(Err(FenError::HalfMove));
            },
            Some(v) => v,
        };
        let fm = if fields.len() < 6 {
            Some(0u16)
        } else {
            assert(f[5] == fields@[5]@);
            parse_u16_bytes(fields[5].as_slice())
        };
        let fullmoves = match fm {
            None => {
                return Some(Err(FenError::FullMove));
            },
            Some(v) => v,
        };
        if castling >= 16 {
            return None;
        }
        let mut board = Board {
            piece_bb: st.piece_bb,
            color_bb: st.color_bb,
            occupied: st.occupied,
            piece: st.piece,
            turn,
            en_passant,
            castling_rights: castling,
            eval_mg: 0,
            eval_eg: 0,
            game_phase: 0,
            hash: 0,
            halfmoves,
            fullmove_counter: fullmoves,
            undo_stack: Box::new(UndoStack::new()),
            positions: HashList::new(),
            zobrist: Box::new(ZobristTable::new()),
        };
        board.score_setup();
        Some(Ok(board))
    }

    /// Reads a position in Forsyth-Edwards notation, for strings the engine
    /// can read (see `parse_fen`).
    pub fn from_fen(fen: &str) -> (r: Result<Board, FenError>)
        requires
            fen_spec(fen.spec_bytes()) is Some,
        ensures
            match fen_spec(fen.spec_bytes()) {
                None => false,
                Some(Err(e)) => r is Err && r->Err_0 == e,
                Some(Ok(raw)) => r is Ok && ({
                    let b = r->Ok_0;
                    &&& b.pos() == scored(raw, b.zobrist@)
                    &&& b.zobrist.canonical()
                    &&& b.undo_stack@.len() == 0
                    &&& b.positions@.len() == 0
                }),
            },
    {
        match Board::parse_fen(fen) {
            Some(r) => r,
            None => Err(FenError::InvalidNumSections),
        }
    }

    /// Whether the board's bookkeeping is sound (see `wf`).
    pub fn bookkeeping_ok(&self) -> (r: bool)
        requires
            self.zobrist.canonical(),
        ensures
            r == self.wf(),
    {
        self.turn != Color::Empty && self.castling_rights < 16 && self.occupied == self.color_bb[0] | self.color_bb[1]
            && self.undo_stack.len() <= GAME_POSITIONS_SIZE && self.positions.len() <= GAME_POSITIONS_SIZE
    }
}

/// The castling value the letters `r` add up to.
pub open spec fn castling_value(r: Seq<u8>) -> nat
    decreases r.len(),
{
    if r.len() == 0 {
        0
    } else {
        match castle_bit(r[0]) {
            Some(v) => v + castling_value(r.drop_first()),
            None => 0,
        }
    }
}

proof fn lemma_castling_sum(r: Seq<u8>, acc: nat)
    ensures
        castling_sum(r, acc) matches Some(Ok(c)) ==> c == acc + castling_value(r) && forall|i: int|
            0 <= i < r.len() ==> #[trigger] castle_bit(r[i]) is Some,
    decreases r.len(),
{
    if r.len() > 0 {
        match castle_bit(r[0]) {
            Some(v) => {
                if acc + v <= 255 {
                    lemma_castling_sum(r.drop_first(), acc + v);
                    if castling_sum(r, acc) is Some && castling_sum(r, acc)->Some_0 is Ok {
                        assert forall|i: int| 0 <= i < r.len() implies #[trigger] castle_bit(r[i]) is Some by {
                            if i > 0 {
                                assert(r[i] == r.drop_first()[i - 1]);
                            }
                        }
                    }
                }
            },
            None => {},
        }
    }
}

/// Distinct known castling letters add up to one bit for each letter present.
proof fn lemma_castling_value(r: Seq<u8>)
    requires
        forall|i: int| 0 <= i < r.len() ==> #[trigger] castle_bit(r[i]) is Some,
        forall|i: int, j: int| 0 <= i < j < r.len() ==> r[i] != r[j],
    ensures
        castling_value(r) == (if r.contains(75u8) { 1nat } else { 0 }) + (if r.contains(107u8) { 2nat } else { 0 }) + (if r.contains(
            81u8,
        ) { 4nat } else { 0 }) + (if r.contains(113u8) { 8nat } else { 0 }),
    decreases r.len(),
{
    if r.len() > 0 {
        let t = r.drop_first();
        assert forall|i: int| 0 <= i < t.len() implies #[trigger] castle_bit(t[i]) is Some by {
            assert(t[i] == r[i + 1]);
        }
        assert forall|i: int, j: int| 0 <= i < j < t.len() implies t[i] != t[j] by {
            assert(t[i] == r[i + 1] && t[j] == r[j + 1]);
        }
        lemma_castling_value(t);
        assert(castle_bit(r[0]) is Some);
        assert forall|c: u8| #![trigger r.contains(c)] r.contains(c) == (r[0] == c || t.contains(c)) by {
            if r.contains(c) {
                let k = choose|k: int| 0 <= k < r.len() && r[k] == c;
                if k > 0 {
                    assert(t[k - 1] == c);
                }
            }
            if t.contains(c) {
                let k = choose|k: int| 0 <= k < t.len() && t[k] == c;
                assert(r[k + 1] == c);
            }
        }
        assert(!t.contains(r[0])) by {
            if t.contains(r[0]) {
                let k = choose|k: int| 0 <= k < t.len() && t[k] == r[0];
                assert(r[k + 1] == r[0]);
            }
        }
        assert(r.contains(r[0]));
    }
}

/// Which bit of a castling value each letter sets.
proof fn lemma_castling_bits(c: u8, wk: bool, bk: bool, wq: bool, bq: bool)
    by (bit_vector)
    requires
        c == (if wk { 1u8 } else { 0u8 }) + (if bk { 2u8 } else { 0u8 }) + (if wq { 4u8 } else { 0u8 }) + (if bq {
            8u8
        } else {
            0u8
        }),
    ensures
        (c & 1u8 != 0u8) == wk,
        (c & 2u8 != 0u8) == bk,
        (c & 4u8 != 0u8) == wq,
        (c & 8u8 != 0u8) == bq,
{
}

/// The castling letters of a FEN string decide which castling moves can be
/// generated: without `K`, `Q`, `k` or `q` there is no castling move from e1
/// to g1, e1 to c1, e8 to g8 or e8 to c8 respectively; with the letter, the
/// move is generated whenever the squares between king and rook are empty
/// and neither the king's square nor the two it crosses or lands on are
/// attacked by the other side. (Each letter written at most once.)
pub proof fn law_fen_castling_letters(b: Seq<u8>, side: nat)
    requires
        fen_spec(b) is Some && fen_spec(b)->Some_0 is Ok,
        side < 2,
        forall|i: int, j: int| 0 <= i < j < split(b, 32)[2].len() ==> split(b, 32)[2][i] != split(b, 32)[2][j],
    ensures
        ({
            let p = fen_spec(b)->Some_0->Ok_0;
            let r = split(b, 32)[2];
            let cs = castling_spec(p, side);
            let o = (1 - side) as nat;
            &&& !r.contains(75u8) ==> !cs.contains(mv_of(4, 6, Move::KING_CASTLE))
            &&& !r.contains(81u8) ==> !cs.contains(mv_of(4, 2, Move::QUEEN_CASTLE))
            &&& !r.contains(107u8) ==> !cs.contains(mv_of(60, 62, Move::KING_CASTLE))
            &&& !r.contains(113u8) ==> !cs.contains(mv_of(60, 58, Move::QUEEN_CASTLE))
            &&& r.contains(75u8) && p.occupied & WHITE_KING_CASTLE_BLOCKERS == 0 && !attacked(p, o, 4) && !attacked(p, o, 5)
                && !attacked(p, o, 6) ==> cs.contains(mv_of(4, 6, Move::KING_CASTLE))
            &&& r.contains(81u8) && p.occupied & WHITE_QUEEN_CASTLE_BLOCKERS == 0 && !attacked(p, o, 4) && !attacked(p, o, 2)
                && !attacked(p, o, 3) ==> cs.contains(mv_of(4, 2, Move::QUEEN_CASTLE))
            &&& r.contains(107u8) && p.occupied & BLACK_KING_CASTLE_BLOCKERS == 0 && !attacked(p, o, 60) && !attacked(p, o, 61)
                && !attacked(p, o, 62) ==> cs.contains(mv_of(60, 62, Move::KING_CASTLE))
            &&& r.contains(113u8) && p.occupied & BLACK_QUEEN_CASTLE_BLOCKERS == 0 && !attacked(p, o, 60) && !attacked(p, o, 58)
                && !attacked(p, o, 59) ==> cs.contains(mv_of(60, 58, Move::QUEEN_CASTLE))
        }),
{
    let p = fen_spec(b)->Some_0->Ok_0;
    let f = split(b, 32);
    let r = f[2];
    lemma_castling_sum(r, 0);
    let c = castling_sum(r, 0)->Some_0->Ok_0;
    lemma_castling_value(r);
    assert(p.castling == c as u8);
    lemma_castling_bits(p.castling, r.contains(75u8), r.contains(107u8), r.contains(81u8), r.contains(113u8));
    let m1 = mv_of(4, 6, 2);
    let m2 = mv_of(4, 2, 3);
    let m3 = mv_of(60, 62, 2);
    let m4 = mv_of(60, 58, 3);
    Move::lemma_encode(4, 6, 2);
    Move::lemma_encode(4, 2, 3);
    Move::lemma_encode(60, 62, 2);
    Move::lemma_encode(60, 58, 3);
    let b0 = castle_block_spec(p, side, 0);
    let b1 = castle_block_spec(p, side, 1);
    assert(castling_spec(p, side) == b0 + b1);
    assert forall|x: Move| #![trigger castling_spec(p, side).contains(x)] castling_spec(p, side).contains(x) <==> (b0.contains(x) || b1.contains(x)) by {
        if castling_spec(p, side).contains(x) {
            let k = choose|k: int| 0 <= k < (b0 + b1).len() && (b0 + b1)[k] == x;
            if k < b0.len() {
                assert(b0[k] == x);
            } else {
                assert(b1[k - b0.len()] == x);
            }
        }
        if b0.contains(x) {
            let k = choose|k: int| 0 <= k < b0.len() && b0[k] == x;
            assert((b0 + b1)[k] == x);
        }
        if b1.contains(x) {
            let k = choose|k: int| 0 <= k < b1.len() && b1[k] == x;
            assert((b0 + b1)[b0.len() + k] == x);
        }
    }
    assert(m1 != m2 && m1 != m3 && m1 != m4 && m2 != m3 && m2 != m4 && m3 != m4);
    let o = (1 - side) as nat;
    let occ = p.occupied;
    let c8 = p.castling;
    let k0 = if c8 & 1u8 != 0 && occ & WHITE_KING_CASTLE_BLOCKERS == 0 && !attacked(p, o, 5) && !attacked(p, o, 6) {
        seq![m1]
    } else {
        Seq::<Move>::empty()
    };
    let q0 = if c8 & 4u8 != 0 && occ & WHITE_QUEEN_CASTLE_BLOCKERS == 0 && !attacked(p, o, 2) && !attacked(p, o, 3) {
        seq![m2]
    } else {
        Seq::<Move>::empty()
    };
    let k1 = if c8 & 2u8 != 0 && occ & BLACK_KING_CASTLE_BLOCKERS == 0 && !attacked(p, o, 61) && !attacked(p, o, 62) {
        seq![m3]
    } else {
        Seq::<Move>::empty()
    };
    let q1 = if c8 & 8u8 != 0 && occ & BLACK_QUEEN_CASTLE_BLOCKERS == 0 && !attacked(p, o, 58) && !attacked(p, o, 59) {
        seq![m4]
    } else {
        Seq::<Move>::empty()
    };
    if !attacked(p, o, 4) {
        assert(b0 == k0 + q0);
        if k0.len() == 1 {
            assert(b0[0] == m1);
        }
        if q0.len() == 1 {
            assert(b0[k0.len() as int] == m2);
        }
    }
    if !attacked(p, o, 60) {
        assert(b1 == k1 + q1);
        if k1.len() == 1 {
            assert(b1[0] == m3);
        }
        if q1.len() == 1 {
            assert(b1[k1.len() as int] == m4);
        }
    }
    assert forall|x: Move| #![trigger b0.contains(x)] b0.contains(x) ==> x == m1 || x == m2 by {
        if b0.contains(x) {
            let k = choose|k: int| 0 <= k < b0.len() && b0[k] == x;
        }
    }
    assert forall|x: Move| #![trigger b1.contains(x)] b1.contains(x) ==> x == m3 || x == m4 by {
        if b1.contains(x) {
            let k = choose|k: int| 0 <= k < b1.len() && b1[k] == x;
        }
    }
}

} // verus!
