use vstd::prelude::*;
use vstd::string::StringExecFns;
use crate::chess::constants::Piece;
use crate::chess::square::Square;
use crate::chess::board::{Board, Position};
use crate::chess::board::bitboard::{Bitboard, bit};
use crate::chess::board::notation::rank_str;

verus! {

/// The symbol of piece index `i`: white pawn, bishop, knight, rook, queen,
/// king, then the same for black.
pub open spec fn symbol_spec(i: nat) -> char {
    if i == 0 {
        '\u{265F}'
    } else if i == 1 {
        '\u{265D}'
    } else if i == 2 {
        '\u{265E}'
    } else if i == 3 {
        '\u{265C}'
    } else if i == 4 {
        '\u{265B}'
    } else if i == 5 {
        '\u{265A}'
    } else if i == 6 {
        '\u{2659}'
    } else if i == 7 {
        '\u{2657}'
    } else if i == 8 {
        '\u{2658}'
    } else if i == 9 {
        '\u{2656}'
    } else if i == 10 {
        '\u{2655}'
    } else if i == 11 {
        '\u{2654}'
    } else {
        ' '
    }
}

fn symbol_str(i: usize) -> (s: &'static str)
    requires
        i < 12,
    ensures
        s@ == seq![symbol_spec(i as nat)],
{
    if i == 0 {
        proof {
            reveal_strlit("\u{265F}");
        }
        "\u{265F}"
    } else if i == 1 {
        proof {
            reveal_strlit("\u{265D}");
        }
        "\u{265D}"
    } else if i == 2 {
        proof {
            reveal_strlit("\u{265E}");
        }
        "\u{265E}"
    } else if i == 3 {
        proof {
            reveal_strlit("\u{265C}");
        }
        "\u{265C}"
    } else if i == 4 {
        proof {
            reveal_strlit("\u{265B}");
        }
        "\u{265B}"
    } else if i == 5 {
        proof {
            reveal_strlit("\u{265A}");
        }
        "\u{265A}"
    } else if i == 6 {
        proof {
            reveal_strlit("\u{2659}");
        }
        "\u{2659}"
    } else if i == 7 {
        proof {
            reveal_strlit("\u{2657}");
        }
        "\u{2657}"
    } else if i == 8 {
        proof {
            reveal_strlit("\u{2658}");
        }
        "\u{2658}"
    } else if i == 9 {
        proof {
            reveal_strlit("\u{2656}");
        }
        "\u{2656}"
    } else if i == 10 {
        proof {
            reveal_strlit("\u{2655}");
        }
        "\u{2655}"
    } else if i == 11 {
        proof {
            reveal_strlit("\u{2654}");
        }
        "\u{2654}"
    } else {
        proof {
            reveal_strlit("\u{2654}");
        }
        "\u{2654}"
    }
}

/// The label line of a diagram.
pub open spec fn files_label() -> Seq<char> {
    "  A B C D E F G H\n"@
}

/// How square `sq` of `p` is drawn: a dot when empty, else the symbol of its
/// piece, of the colour that `get_color` gives the square.
pub open spec fn square_drawing(p: Position, sq: nat) -> Seq<char> {
    if p.piece[sq as int] == Piece::Empty {
        seq![' ', '.']
    } else {
        seq![' ', symbol_spec(p.piece[sq as int].idx() + if bit(p.piece_bb[0], sq as int) { 0nat } else { 6nat })]
    }
}

/// The first `f` squares of rank `r` of `p`, drawn.
pub open spec fn files_drawing(p: Position, r: nat, f: nat) -> Seq<char>
    decreases f,
{
    if f == 0 {
        Seq::empty()
    } else {
        files_drawing(p, r, (f - 1) as nat) + square_drawing(p, r * 8 + (f - 1) as nat)
    }
}

/// The top `k` ranks of `p`, drawn from rank 8 down.
pub open spec fn ranks_drawing(p: Position, k: nat) -> Seq<char>
    decreases k,
{
    if k == 0 {
        Seq::empty()
    } else {
        let r = (8 - k) as nat;
        ranks_drawing(p, (k - 1) as nat) + seq![((49 + r) as u8) as char] + files_drawing(p, r, 8) + seq!['\n']
    }
}

/// The diagram of a position: the file labels, the ranks from 8 down to 1,
/// and the file labels again.
pub open spec fn diagram_spec(p: Position) -> Seq<char> {
    files_label() + ranks_drawing(p, 8) + files_label()
}

/// The first `f` bits of rank `r` of `b`, each followed by a space.
pub open spec fn bits_drawing(b: u64, r: nat, f: nat) -> Seq<char>
    decreases f,
{
    if f == 0 {
        Seq::empty()
    } else {
        bits_drawing(b, r, (f - 1) as nat) + seq![if bit(b, (r * 8 + f - 1) as int) { '1' } else { '0' }, ' ']
    }
}

/// The top `k` ranks of the board `b`, drawn from rank 8 down.
pub open spec fn bit_ranks_drawing(b: u64, k: nat) -> Seq<char>
    decreases k,
{
    if k == 0 {
        Seq::empty()
    } else {
        let r = (8 - k) as nat;
        bit_ranks_drawing(b, (k - 1) as nat) + seq![((49 + r) as u8) as char, ' '] + bits_drawing(b, r, 8) + seq!['\n']
    }
}

/// The diagram of a bitboard: its bits as 0 and 1, rank 8 first.
pub open spec fn bit_diagram_spec(b: u64) -> Seq<char> {
    files_label() + bit_ranks_drawing(b, 8) + files_label()
}

impl Board {
    /// The diagram that `print` shows.
    pub fn diagram(&self) -> (s: String)
        ensures
            s@ == diagram_spec(self.pos()),
    {
        proof {
            reveal_strlit("  A B C D E F G H\n");
        }
        let mut s = String::from_str("  A B C D E F G H\n");
        let mut k: u8 = 0;
        while k < 8
            invariant
                k <= 8,
                s@ == files_label() + ranks_drawing(self.pos(), k as nat),
            decreases 8 - k,
        {
            let r: u8 = 7 - k;
            s.append(rank_str(r));
            let mut f: u8 = 0;
            let ghost line_start = s@;
            while f < 8
                invariant
                    f <= 8,
                    r < 8,
                    s@ == line_start + files_drawing(self.pos(), r as nat, f as nat),
                decreases 8 - f,
            {
                let sq = Square::from_u8(r * 8 + f);
                let piece = self.get_piece(sq);
                if piece == Piece::Empty {
                    proof {
                        reveal_strlit(" .");
                    }
                    s.append(" .");
                } else {
                    proof {
                        reveal_strlit(" ");
                    }
                    s.append(" ");
                    let white = Bitboard(self.piece_bb[0]).and(sq.to_bitboard()).0 != 0;
                    proof {
                        crate::chess::square::lemma_square_of((r * 8 + f) as nat);
                        lemma_single_bit(self.piece_bb[0], (r * 8 + f) as u64);
                    }
                    let idx: usize = piece.index() + if white { 0 } else { 6 };
                    s.append(symbol_str(idx));
                }
                assert(s@ =~= line_start + files_drawing(self.pos(), r as nat, (f + 1) as nat));
                f += 1;
            }
            proof {
                reveal_strlit("\n");
            }
            s.append("\n");
            assert(s@ =~= files_label() + ranks_drawing(self.pos(), (k + 1) as nat));
            k += 1;
        }
        s.append("  A B C D E F G H\n");
        s
    }
}

impl Bitboard {
    /// The diagram that `print` shows.
    pub fn diagram(self) -> (s: String)
        ensures
            s@ == bit_diagram_spec(self.0),
    {
        proof {
            reveal_strlit("  A B C D E F G H\n");
        }
        let mut s = String::from_str("  A B C D E F G H\n");
        let mut k: u8 = 0;
        while k < 8
            invariant
                k <= 8,
                s@ == files_label() + bit_ranks_drawing(self.0, k as nat),
            decreases 8 - k,
        {
            let r: u8 = 7 - k;
            s.append(rank_str(r));
            proof {
                reveal_strlit(" ");
            }
            s.append(" ");
            let mut f: u8 = 0;
            let ghost line_start = s@;
            while f < 8
                invariant
                    f <= 8,
                    r < 8,
                    s@ == line_start + bits_drawing(self.0, r as nat, f as nat),
                decreases 8 - f,
            {
                let n: u64 = (r * 8 + f) as u64;
                let on = (self.0 >> n) & 1 == 1;
                if on {
                    proof {
                        reveal_strlit("1 ");
                    }
                    s.append("1 ");
                } else {
                    proof {
                        reveal_strlit("0 ");
                    }
                    s.append("0 ");
                }
                assert(s@ =~= line_start + bits_drawing(self.0, r as nat, (f + 1) as nat));
                f += 1;
            }
            proof {
                reveal_strlit("\n");
            }
            s.append("\n");
            assert(s@ =~= files_label() + bit_ranks_drawing(self.0, (k + 1) as nat));
            k += 1;
        }
        s.append("  A B C D E F G H\n");
        s
    }
}

/// A board has square `k` exactly when its and with that square's board is not empty.
proof fn lemma_single_bit(b: u64, k: u64)
    requires
        k < 64,
    ensures
        ((b & (1u64 << k)) != 0) == bit(b, k as int),
{
    assert(k < 64 ==> (((b & (1u64 << k)) != 0) == ((b >> k) & 1u64 == 1u64))) by (bit_vector);
}

} // verus!
