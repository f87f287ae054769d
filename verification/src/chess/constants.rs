use vstd::prelude::*;
use crate::chess::square::Square;
use crate::chess::board::bitboard::Bitboard;

verus! {

pub const NUM_PIECES: usize = 6;
pub const NUM_COLORS: usize = 2;

/// The four castling rights, one bit each in a board's castling byte.
#[derive(Copy, Clone, PartialEq, Eq, Debug, Structural)]
pub enum CastlingRights {
    KingCastleWhite,
    KingCastleBlack,
    QueenCastleWhite,
    QueenCastleBlack,
}

impl CastlingRights {
    pub open spec fn bit_value(self) -> u8 {
        match self {
            CastlingRights::KingCastleWhite => 1,
            CastlingRights::KingCastleBlack => 2,
            CastlingRights::QueenCastleWhite => 4,
            CastlingRights::QueenCastleBlack => 8,
        }
    }

    /// The bit of this right in the castling byte.
    pub fn index(self) -> (r: u8)
        ensures
            r == self.bit_value(),
    {
        match self {
            CastlingRights::KingCastleWhite => 1,
            CastlingRights::KingCastleBlack => 2,
            CastlingRights::QueenCastleWhite => 4,
            CastlingRights::QueenCastleBlack => 8,
        }
    }
}

/// The castling rights that are lost when a piece leaves or arrives on the
/// square numbered `sq`: a rook corner loses its right, a king square both.
pub open spec fn castling_loss(sq: nat) -> u8 {
    if sq == 0 {
        4
    } else if sq == 56 {
        8
    } else if sq == 7 {
        1
    } else if sq == 63 {
        2
    } else if sq == 4 {
        5
    } else if sq == 60 {
        10
    } else {
        0
    }
}

/// The castling rights lost by a move from or to `square`.
pub fn castling_rights_of(square: Square) -> (r: u8)
    requires
        square.num() < 64,
    ensures
        r == castling_loss(square.num()),
        r < 16,
{
    match square {
        Square::A1 => 4,
        Square::A8 => 8,
        Square::H1 => 1,
        Square::H8 => 2,
        Square::E1 => 5,
        Square::E8 => 10,
        _ => 0,
    }
}

/// What a castling move does to the rook and the king.
#[derive(Copy, Clone, Debug)]
pub struct CastlingMechanics {
    pub rook_disappears: Square,
    pub rook_appears: Square,
    pub king_disappears: Square,
    pub king_appears: Square,
    pub rook_movement: Bitboard,
    pub king_movement: Bitboard,
    pub combined_movement: Bitboard,
    pub castling_rights_update: u8,
}

impl CastlingMechanics {
    pub fn new(rook_from: Square, rook_to: Square, king_from: Square, king_to: Square, update: u8) -> (c: Self)
        requires
            rook_from.num() < 64,
            rook_to.num() < 64,
            king_from.num() < 64,
            king_to.num() < 64,
        ensures
            c.rook_disappears == rook_from,
            c.rook_appears == rook_to,
            c.king_disappears == king_from,
            c.king_appears == king_to,
            c.rook_movement.0 == (1u64 << (rook_from.num() as u64)) ^ (1u64 << (rook_to.num() as u64)),
            c.king_movement.0 == (1u64 << (king_from.num() as u64)) ^ (1u64 << (king_to.num() as u64)),
            c.combined_movement.0 == c.rook_movement.0 | c.king_movement.0,
            c.castling_rights_update == update,
    {
        let from_board_rook = 1u64 << rook_from.u8();
        let to_board_rook = 1u64 << rook_to.u8();
        let from_board_king = 1u64 << king_from.u8();
        let to_board_king = 1u64 << king_to.u8();

        let rook_movement = from_board_rook ^ to_board_rook;
        let king_movement = from_board_king ^ to_board_king;

        let combined_movement = rook_movement | king_movement;

        CastlingMechanics {
            rook_disappears: rook_from,
            rook_appears: rook_to,
            king_disappears: king_from,
            king_appears: king_to,
            rook_movement: Bitboard(rook_movement),
            king_movement: Bitboard(king_movement),
            combined_movement: Bitboard(combined_movement),
            castling_rights_update: update,
        }
    }
}

/// The rook's squares of the castling move of side `side` (0 white, 1 black),
/// king side for `queen_side == false`: (from, to).
pub open spec fn castle_rook_squares(side: nat, queen_side: bool) -> (nat, nat) {
    if side == 0 {
        if queen_side { (0, 3) } else { (7, 5) }
    } else {
        if queen_side { (56, 59) } else { (63, 61) }
    }
}

/// The king's squares of the castling move: (from, to).
pub open spec fn castle_king_squares(side: nat, queen_side: bool) -> (nat, nat) {
    if side == 0 {
        if queen_side { (4, 2) } else { (4, 6) }
    } else {
        if queen_side { (60, 58) } else { (60, 62) }
    }
}

/// The mechanics of castling for side `side` (0 white, 1 black): index 0 is
/// the king side, index 1 the queen side.
pub fn castling_table(side: usize, idx: usize) -> (c: CastlingMechanics)
    requires
        side < 2,
        idx < 2,
    ensures
        c.rook_disappears.num() == castle_rook_squares(side as nat, idx == 1).0,
        c.rook_appears.num() == castle_rook_squares(side as nat, idx == 1).1,
        c.king_disappears.num() == castle_king_squares(side as nat, idx == 1).0,
        c.king_appears.num() == castle_king_squares(side as nat, idx == 1).1,
        c.rook_movement.0 == (1u64 << (c.rook_disappears.num() as u64)) ^ (1u64 << (c.rook_appears.num() as u64)),
        c.king_movement.0 == (1u64 << (c.king_disappears.num() as u64)) ^ (1u64 << (c.king_appears.num() as u64)),
        c.combined_movement.0 == c.rook_movement.0 | c.king_movement.0,
        c.castling_rights_update == (if side == 0 { 5u8 } else { 10u8 }),
{
    if side == 0 {
        if idx == 0 {
            CastlingMechanics::new(Square::H1, Square::F1, Square::E1, Square::G1, 5)
        } else {
            CastlingMechanics::new(Square::A1, Square::D1, Square::E1, Square::C1, 5)
        }
    } else {
        if idx == 0 {
            CastlingMechanics::new(Square::H8, Square::F8, Square::E8, Square::G8, 10)
        } else {
            CastlingMechanics::new(Square::A8, Square::D8, Square::E8, Square::C8, 10)
        }
    }
}

/// A kind of piece; `Empty` marks a square without a piece.
#[derive(Copy, Clone, PartialEq, Eq, Debug, Structural)]
pub enum Piece {
    Pawn,
    Bishop,
    Knight,
    Rook,
    Queen,
    King,
    Empty,
}

impl Piece {
    pub open spec fn idx(self) -> nat {
        match self {
            Piece::Pawn => 0,
            Piece::Bishop => 1,
            Piece::Knight => 2,
            Piece::Rook => 3,
            Piece::Queen => 4,
            Piece::King => 5,
            Piece::Empty => 6,
        }
    }

    pub open spec fn of(v: nat) -> Piece {
        if v == 0 {
            Piece::Pawn
        } else if v == 1 {
            Piece::Bishop
        } else if v == 2 {
            Piece::Knight
        } else if v == 3 {
            Piece::Rook
        } else if v == 4 {
            Piece::Queen
        } else if v == 5 {
            Piece::King
        } else {
            Piece::Empty
        }
    }

    pub fn index(self) -> (r: usize)
        ensures
            r == self.idx(),
            r <= 6,
    {
        match self {
            Piece::Pawn => 0,
            Piece::Bishop => 1,
            Piece::Knight => 2,
            Piece::Rook => 3,
            Piece::Queen => 4,
            Piece::King => 5,
            Piece::Empty => 6,
        }
    }

    /// The piece with number `value` (0 pawn ... 5 king, 6 empty).
    pub fn from_u8(value: u8) -> (p: Piece)
        requires
            value <= 6,
        ensures
            p.idx() == value,
            p == Piece::of(value as nat),
    {
        match value {
            0 => Piece::Pawn,
            1 => Piece::Bishop,
            2 => Piece::Knight,
            3 => Piece::Rook,
            4 => Piece::Queen,
            5 => Piece::King,
            _ => Piece::Empty,
        }
    }
}

/// A side; `Empty` stands for no side.
#[derive(Copy, Clone, PartialEq, Eq, Debug, Structural)]
pub enum Color {
    White,
    Black,
    Empty,
}

impl Color {
    pub open spec fn idx(self) -> nat {
        match self {
            Color::White => 0,
            Color::Black => 1,
            Color::Empty => 2,
        }
    }

    /// White or Black.
    pub open spec fn is_side(self) -> bool {
        self != Color::Empty
    }

    pub open spec fn other(self) -> Color {
        match self {
            Color::White => Color::Black,
            _ => Color::White,
        }
    }

    pub fn index(self) -> (r: usize)
        ensures
            r == self.idx(),
    {
        match self {
            Color::White => 0,
            Color::Black => 1,
            Color::Empty => 2,
        }
    }

    /// The index of this side's pawns among the twelve piece boards.
    pub fn offset(self) -> (r: usize)
        ensures
            r == self.idx() * 6,
    {
        match self {
            Color::White => 0,
            Color::Black => 6,
            Color::Empty => 12,
        }
    }

    pub fn opposite(self) -> (c: Color)
        requires
            self.is_side(),
        ensures
            c == self.other(),
            c.is_side(),
            c.idx() == 1 - self.idx(),
    {
        match self {
            Color::White => Color::Black,
            _ => Color::White,
        }
    }

    pub fn is_white(self) -> (r: bool)
        ensures
            r == (self == Color::White),
    {
        match self {
            Color::White => true,
            _ => false,
        }
    }
}

} // verus!
