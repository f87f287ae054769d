use vstd::prelude::*;
use crate::chess::board::bitboard::Bitboard;
use vstd::string::StringSliceAdditionalSpecFns;

verus! {

/// A square of the board. The squares are numbered 0 (a1) to 63 (h8), rank by
/// rank; `UNDEFINED` (number 64) is what the lowest set bit of an empty board gives.
#[derive(Copy, Clone, PartialEq, Eq, Debug, Structural)]
pub enum Square {
    A1,
    B1,
    C1,
    D1,
    E1,
    F1,
    G1,
    H1,
    A2,
    B2,
    C2,
    D2,
    E2,
    F2,
    G2,
    H2,
    A3,
    B3,
    C3,
    D3,
    E3,
    F3,
    G3,
    H3,
    A4,
    B4,
    C4,
    D4,
    E4,
    F4,
    G4,
    H4,
    A5,
    B5,
    C5,
    D5,
    E5,
    F5,
    G5,
    H5,
    A6,
    B6,
    C6,
    D6,
    E6,
    F6,
    G6,
    H6,
    A7,
    B7,
    C7,
    D7,
    E7,
    F7,
    G7,
    H7,
    A8,
    B8,
    C8,
    D8,
    E8,
    F8,
    G8,
    H8,
    UNDEFINED,
}

impl Square {
    /// The number of the square: 0..63 for a real square, 64 for `UNDEFINED`.
    pub open spec fn num(self) -> nat {
        match self {
            Square::A1 => 0,
            Square::B1 => 1,
            Square::C1 => 2,
            Square::D1 => 3,
            Square::E1 => 4,
            Square::F1 => 5,
            Square::G1 => 6,
            Square::H1 => 7,
            Square::A2 => 8,
            Square::B2 => 9,
            Square::C2 => 10,
            Square::D2 => 11,
            Square::E2 => 12,
            Square::F2 => 13,
            Square::G2 => 14,
            Square::H2 => 15,
            Square::A3 => 16,
            Square::B3 => 17,
            Square::C3 => 18,
            Square::D3 => 19,
            Square::E3 => 20,
            Square::F3 => 21,
            Square::G3 => 22,
            Square::H3 => 23,
            Square::A4 => 24,
            Square::B4 => 25,
            Square::C4 => 26,
            Square::D4 => 27,
            Square::E4 => 28,
            Square::F4 => 29,
            Square::G4 => 30,
            Square::H4 => 31,
            Square::A5 => 32,
            Square::B5 => 33,
            Square::C5 => 34,
            Square::D5 => 35,
            Square::E5 => 36,
            Square::F5 => 37,
            Square::G5 => 38,
            Square::H5 => 39,
            Square::A6 => 40,
            Square::B6 => 41,
            Square::C6 => 42,
            Square::D6 => 43,
            Square::E6 => 44,
            Square::F6 => 45,
            Square::G6 => 46,
            Square::H6 => 47,
            Square::A7 => 48,
            Square::B7 => 49,
            Square::C7 => 50,
            Square::D7 => 51,
            Square::E7 => 52,
            Square::F7 => 53,
            Square::G7 => 54,
            Square::H7 => 55,
            Square::A8 => 56,
            Square::B8 => 57,
            Square::C8 => 58,
            Square::D8 => 59,
            Square::E8 => 60,
            Square::F8 => 61,
            Square::G8 => 62,
            Square::H8 => 63,
            Square::UNDEFINED => 64,
        }
    }

    /// The square with number `n` (`UNDEFINED` for 64 and above).
    pub open spec fn of(n: int) -> Square {
        if n == 0 {
            Square::A1
        } else if n == 1 {
            Square::B1
        } else if n == 2 {
            Square::C1
        } else if n == 3 {
            Square::D1
        } else if n == 4 {
            Square::E1
        } else if n == 5 {
            Square::F1
        } else if n == 6 {
            Square::G1
        } else if n == 7 {
            Square::H1
        } else if n == 8 {
            Square::A2
        } else if n == 9 {
            Square::B2
        } else if n == 10 {
            Square::C2
        } else if n == 11 {
            Square::D2
        } else if n == 12 {
            Square::E2
        } else if n == 13 {
            Square::F2
        } else if n == 14 {
            Square::G2
        } else if n == 15 {
            Square::H2
        } else if n == 16 {
            Square::A3
        } else if n == 17 {
            Square::B3
        } else if n == 18 {
            Square::C3
        } else if n == 19 {
            Square::D3
        } else if n == 20 {
            Square::E3
        } else if n == 21 {
            Square::F3
        } else if n == 22 {
            Square::G3
        } else if n == 23 {
            Square::H3
        } else if n == 24 {
            Square::A4
        } else if n == 25 {
            Square::B4
        } else if n == 26 {
            Square::C4
        } else if n == 27 {
            Square::D4
        } else if n == 28 {
            Square::E4
        } else if n == 29 {
            Square::F4
        } else if n == 30 {
            Square::G4
        } else if n == 31 {
            Square::H4
        } else if n == 32 {
            Square::A5
        } else if n == 33 {
            Square::B5
        } else if n == 34 {
            Square::C5
        } else if n == 35 {
            Square::D5
        } else if n == 36 {
            Square::E5
        } else if n == 37 {
            Square::F5
        } else if n == 38 {
            Square::G5
        } else if n == 39 {
            Square::H5
        } else if n == 40 {
            Square::A6
        } else if n == 41 {
            Square::B6
        } else if n == 42 {
            Square::C6
        } else if n == 43 {
            Square::D6
        } else if n == 44 {
            Square::E6
        } else if n == 45 {
            Square::F6
        } else if n == 46 {
            Square::G6
        } else if n == 47 {
            Square::H6
        } else if n == 48 {
            Square::A7
        } else if n == 49 {
            Square::B7
        } else if n == 50 {
            Square::C7
        } else if n == 51 {
            Square::D7
        } else if n == 52 {
            Square::E7
        } else if n == 53 {
            Square::F7
        } else if n == 54 {
            Square::G7
        } else if n == 55 {
            Square::H7
        } else if n == 56 {
            Square::A8
        } else if n == 57 {
            Square::B8
        } else if n == 58 {
            Square::C8
        } else if n == 59 {
            Square::D8
        } else if n == 60 {
            Square::E8
        } else if n == 61 {
            Square::F8
        } else if n == 62 {
            Square::G8
        } else if n == 63 {
            Square::H8
        } else {
            Square::UNDEFINED
        }
    }

    /// The square numbered `value`; any value of 64 or more gives `UNDEFINED`.
    pub fn from_u8(value: u8) -> (s: Square)
        ensures
            s == Square::of(value as int),
            value < 64 ==> s.num() == value,
            value >= 64 ==> s == Square::UNDEFINED,
    {
        match value {
            0 => Square::A1,
            1 => Square::B1,
            2 => Square::C1,
            3 => Square::D1,
            4 => Square::E1,
            5 => Square::F1,
            6 => Square::G1,
            7 => Square::H1,
            8 => Square::A2,
            9 => Square::B2,
            10 => Square::C2,
            11 => Square::D2,
            12 => Square::E2,
            13 => Square::F2,
            14 => Square::G2,
            15 => Square::H2,
            16 => Square::A3,
            17 => Square::B3,
            18 => Square::C3,
            19 => Square::D3,
            20 => Square::E3,
            21 => Square::F3,
            22 => Square::G3,
            23 => Square::H3,
            24 => Square::A4,
            25 => Square::B4,
            26 => Square::C4,
            27 => Square::D4,
            28 => Square::E4,
            29 => Square::F4,
            30 => Square::G4,
            31 => Square::H4,
            32 => Square::A5,
            33 => Square::B5,
            34 => Square::C5,
            35 => Square::D5,
            36 => Square::E5,
            37 => Square::F5,
            38 => Square::G5,
            39 => Square::H5,
            40 => Square::A6,
            41 => Square::B6,
            42 => Square::C6,
            43 => Square::D6,
            44 => Square::E6,
            45 => Square::F6,
            46 => Square::G6,
            47 => Square::H6,
            48 => Square::A7,
            49 => Square::B7,
            50 => Square::C7,
            51 => Square::D7,
            52 => Square::E7,
            53 => Square::F7,
            54 => Square::G7,
            55 => Square::H7,
            56 => Square::A8,
            57 => Square::B8,
            58 => Square::C8,
            59 => Square::D8,
            60 => Square::E8,
            61 => Square::F8,
            62 => Square::G8,
            63 => Square::H8,
            _ => Square::UNDEFINED,
        }
    }

    /// The number of the square as a `u8`.
    pub fn u8(self) -> (r: u8)
        ensures
            r == self.num(),
    {
        match self {
            Square::A1 => 0,
            Square::B1 => 1,
            Square::C1 => 2,
            Square::D1 => 3,
            Square::E1 => 4,
            Square::F1 => 5,
            Square::G1 => 6,
            Square::H1 => 7,
            Square::A2 => 8,
            Square::B2 => 9,
            Square::C2 => 10,
            Square::D2 => 11,
            Square::E2 => 12,
            Square::F2 => 13,
            Square::G2 => 14,
            Square::H2 => 15,
            Square::A3 => 16,
            Square::B3 => 17,
            Square::C3 => 18,
            Square::D3 => 19,
            Square::E3 => 20,
            Square::F3 => 21,
            Square::G3 => 22,
            Square::H3 => 23,
            Square::A4 => 24,
            Square::B4 => 25,
            Square::C4 => 26,
            Square::D4 => 27,
            Square::E4 => 28,
            Square::F4 => 29,
            Square::G4 => 30,
            Square::H4 => 31,
            Square::A5 => 32,
            Square::B5 => 33,
            Square::C5 => 34,
            Square::D5 => 35,
            Square::E5 => 36,
            Square::F5 => 37,
            Square::G5 => 38,
            Square::H5 => 39,
            Square::A6 => 40,
            Square::B6 => 41,
            Square::C6 => 42,
            Square::D6 => 43,
            Square::E6 => 44,
            Square::F6 => 45,
            Square::G6 => 46,
            Square::H6 => 47,
            Square::A7 => 48,
            Square::B7 => 49,
            Square::C7 => 50,
            Square::D7 => 51,
            Square::E7 => 52,
            Square::F7 => 53,
            Square::G7 => 54,
            Square::H7 => 55,
            Square::A8 => 56,
            Square::B8 => 57,
            Square::C8 => 58,
            Square::D8 => 59,
            Square::E8 => 60,
            Square::F8 => 61,
            Square::G8 => 62,
            Square::H8 => 63,
            Square::UNDEFINED => 64,
        }
    }

    pub fn from_u16(value: u16) -> (s: Square)
        ensures
            value < 64 ==> s.num() == value,
            value >= 64 ==> s == Square::UNDEFINED,
    {
        if value < 64 {
            Square::from_u8(value as u8)
        } else {
            Square::UNDEFINED
        }
    }

    /// The board holding only this square.
    pub fn to_bitboard(self) -> (b: Bitboard)
        requires
            self.num() < 64,
        ensures
            b.0 == 1u64 << (self.num() as u64),
    {
        Bitboard(1u64 << self.u8())
    }

    pub fn i8(self) -> (r: i8)
        ensures
            r == self.num(),
    {
        self.u8() as i8
    }

    pub fn u16(self) -> (r: u16)
        ensures
            r == self.num(),
    {
        self.u8() as u16
    }

    pub fn usize(self) -> (r: usize)
        ensures
            r == self.num(),
    {
        self.u8() as usize
    }

    pub fn index(self) -> (r: usize)
        ensures
            r == self.num(),
    {
        self.u8() as usize
    }

    /// The rank of the square, 0 (first rank) to 7.
    pub fn rank(self) -> (r: u8)
        ensures
            r == self.num() / 8,
    {
        self.u8() / 8
    }

    /// The file of the square, 0 (a file) to 7.
    pub fn file(self) -> (r: u8)
        ensures
            r == self.num() % 8,
    {
        self.u8() % 8
    }

    /// The same square seen from the other side of the board (rank mirrored).
    pub fn flip(self) -> (s: Square)
        requires
            self.num() < 64,
        ensures
            s.num() == (7 - self.num() / 8) * 8 + self.num() % 8,
    {
        let n = self.u8();
        Square::from_u8((7 - n / 8) * 8 + n % 8)
    }

    /// Reads a square in algebraic notation ("e4"); the file letter may be upper case.
    pub fn from_string(square: &str) -> (r: Result<Square, SquareError>)
        ensures
            r == parse_square(square.spec_bytes()),
    {
        Square::from_bytes(square.as_bytes())
    }

    /// Reads a square from the two bytes of its name.
    pub fn from_bytes(bytes: &[u8]) -> (r: Result<Square, SquareError>)
        ensures
            r == parse_square(bytes@),
            r is Ok ==> r->Ok_0.num() < 64,
    {
        if bytes.len() != 2 {
            return Err(SquareError::WrongLength);
        }
        let file = ascii_lower(bytes[0]);
        let rank = bytes[1];
        if !(97u8 <= file && file <= 104u8) || !(49u8 <= rank && rank <= 56u8) {
            return Err(SquareError::InvalidFormat);
        }
        let f = file - 97u8;
        let r = rank - 49u8;
        Ok(Square::from_u8(r * 8 + f))
    }

    /// The square in algebraic notation, as two ASCII bytes.
    pub fn name_bytes(self) -> (r: (u8, u8))
        requires
            self.num() < 64,
        ensures
            r.0 == 97 + self.num() % 8,
            r.1 == 49 + self.num() / 8,
    {
        (97u8 + self.file(), 49u8 + self.rank())
    }
}

pub proof fn lemma_square_of(n: nat)
    requires
        n < 64,
    ensures
        Square::of(n as int).num() == n,
{
}

/// Reading a square's name gives the square back: the two bytes that
/// `name_bytes` gives for square number `n` parse to that square.
pub proof fn law_square_name_round_trip(n: nat)
    requires
        n < 64,
    ensures
        parse_square(seq![(97 + n % 8) as u8, (49 + n / 8) as u8]) == Ok::<Square, SquareError>(Square::of(n as int)),
{
    let b = seq![(97 + n % 8) as u8, (49 + n / 8) as u8];
    assert(lower(b[0]) == b[0]);
    assert((b[1] - 49) * 8 + (lower(b[0]) - 97) == n);
}

/// Why a square could not be read.
#[derive(Copy, Clone, PartialEq, Eq, Debug, Structural)]
pub enum SquareError {
    WrongLength,
    InvalidFormat,
}

/// `b` in lower case, if it is an ASCII letter.
pub open spec fn lower(b: u8) -> u8 {
    if 65 <= b <= 90 { (b + 32) as u8 } else { b }
}

pub fn ascii_lower(b: u8) -> (r: u8)
    ensures
        r == lower(b),
{
    if 65u8 <= b && b <= 90u8 {
        b + 32
    } else {
        b
    }
}

/// The square named by the two bytes `b` ("e4", "E4"), or why there is none.
pub open spec fn parse_square(b: Seq<u8>) -> Result<Square, SquareError> {
    if b.len() != 2 {
        Err(SquareError::WrongLength)
    } else if !(97 <= lower(b[0]) <= 104) || !(49 <= b[1] <= 56) {
        Err(SquareError::InvalidFormat)
    } else {
        Ok(Square::of((b[1] - 49) * 8 + (lower(b[0]) - 97)))
    }
}

} // verus!
