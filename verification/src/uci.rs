use vstd::prelude::*;
use vstd::string::{StringExecFns, StringSliceAdditionalSpecFns};
use crate::chess::board::fen::{all_digits, digits_value, is_digit};
use crate::search::SearchLimits;
use crate::parameters::{engine_settings, parse_i64, range_message};
use crate::chess::board::{Board, Position, UndoInfo, GAME_POSITIONS_SIZE};
use crate::chess::board::hash::{Keys, canonical_keys};
use crate::chess::board::make_move::{apply_move, revert_move, undo_of, move_shape_ok, mover_safe};
use crate::chess::board::notation::{MoveError, qualify_spec};
use crate::chess::board::fen::{fen_spec, scored, start_position};
use crate::chess::chess_move::Move;
use crate::search::tree::{plays, node_moves};

verus! {

/// The words of the protocol that the engine reads.
#[derive(Copy, Clone, PartialEq, Eq, Debug, Structural)]
pub enum Word {
    Quit,
    Uci,
    SetOption,
    NewGame,
    IsReady,
    Position,
    Go,
    Fen,
    Moves,
    StartPos,
    Name,
    Value,
    Depth,
    Nodes,
    WTime,
    BTime,
    WInc,
    BInc,
    Hash,
    Other,
}

/// The bytes that spell a word (none for `Other`).
pub open spec fn word_bytes(w: Word) -> Seq<u8> {
    match w {
        Word::Quit => seq![113u8, 117, 105, 116],
        Word::Uci => seq![117u8, 99, 105],
        Word::SetOption => seq![115u8, 101, 116, 111, 112, 116, 105, 111, 110],
        Word::NewGame => seq![117u8, 99, 105, 110, 101, 119, 103, 97, 109, 101],
        Word::IsReady => seq![105u8, 115, 114, 101, 97, 100, 121],
        Word::Position => seq![112u8, 111, 115, 105, 116, 105, 111, 110],
        Word::Go => seq![103u8, 111],
        Word::Fen => seq![102u8, 101, 110],
        Word::Moves => seq![109u8, 111, 118, 101, 115],
        Word::StartPos => seq![115u8, 116, 97, 114, 116, 112, 111, 115],
        Word::Name => seq![110u8, 97, 109, 101],
        Word::Value => seq![118u8, 97, 108, 117, 101],
        Word::Depth => seq![100u8, 101, 112, 116, 104],
        Word::Nodes => seq![110u8, 111, 100, 101, 115],
        Word::WTime => seq![119u8, 116, 105, 109, 101],
        Word::BTime => seq![98u8, 116, 105, 109, 101],
        Word::WInc => seq![119u8, 105, 110, 99],
        Word::BInc => seq![98u8, 105, 110, 99],
        Word::Hash => seq![72u8, 97, 115, 104],
        Word::Other => Seq::empty(),
    }
}

/// The word that the bytes `b` spell, `Other` when they spell none.
pub open spec fn word_of(b: Seq<u8>) -> Word {
    if b == word_bytes(Word::Quit) {
        Word::Quit
    } else if b == word_bytes(Word::Uci) {
        Word::Uci
    } else if b == word_bytes(Word::SetOption) {
        Word::SetOption
    } else if b == word_bytes(Word::NewGame) {
        Word::NewGame
    } else if b == word_bytes(Word::IsReady) {
        Word::IsReady
    } else if b == word_bytes(Word::Position) {
        Word::Position
    } else if b == word_bytes(Word::Go) {
        Word::Go
    } else if b == word_bytes(Word::Fen) {
        Word::Fen
    } else if b == word_bytes(Word::Moves) {
        Word::Moves
    } else if b == word_bytes(Word::StartPos) {
        Word::StartPos
    } else if b == word_bytes(Word::Name) {
        Word::Name
    } else if b == word_bytes(Word::Value) {
        Word::Value
    } else if b == word_bytes(Word::Depth) {
        Word::Depth
    } else if b == word_bytes(Word::Nodes) {
        Word::Nodes
    } else if b == word_bytes(Word::WTime) {
        Word::WTime
    } else if b == word_bytes(Word::BTime) {
        Word::BTime
    } else if b == word_bytes(Word::WInc) {
        Word::WInc
    } else if b == word_bytes(Word::BInc) {
        Word::BInc
    } else if b == word_bytes(Word::Hash) {
        Word::Hash
    } else {
        Word::Other
    }
}

fn word_vec(w: Word) -> (v: Vec<u8>)
    ensures
        v@ == word_bytes(w),
{
    let v: Vec<u8> = match w {
        Word::Quit => vec![113u8, 117, 105, 116],
        Word::Uci => vec![117u8, 99, 105],
        Word::SetOption => vec![115u8, 101, 116, 111, 112, 116, 105, 111, 110],
        Word::NewGame => vec![117u8, 99, 105, 110, 101, 119, 103, 97, 109, 101],
        Word::IsReady => vec![105u8, 115, 114, 101, 97, 100, 121],
        Word::Position => vec![112u8, 111, 115, 105, 116, 105, 111, 110],
        Word::Go => vec![103u8, 111],
        Word::Fen => vec![102u8, 101, 110],
        Word::Moves => vec![109u8, 111, 118, 101, 115],
        Word::StartPos => vec![115u8, 116, 97, 114, 116, 112, 111, 115],
        Word::Name => vec![110u8, 97, 109, 101],
        Word::Value => vec![118u8, 97, 108, 117, 101],
        Word::Depth => vec![100u8, 101, 112, 116, 104],
        Word::Nodes => vec![110u8, 111, 100, 101, 115],
        Word::WTime => vec![119u8, 116, 105, 109, 101],
        Word::BTime => vec![98u8, 116, 105, 109, 101],
        Word::WInc => vec![119u8, 105, 110, 99],
        Word::BInc => vec![98u8, 105, 110, 99],
        Word::Hash => vec![72u8, 97, 115, 104],
        Word::Other => Vec::new(),
    };
    assert(v@ =~= word_bytes(w));
    v
}

fn same_bytes(a: &[u8], b: &[u8]) -> (r: bool)
    ensures
        r == (a@ == b@),
{
    if a.len() != b.len() {
        return false;
    }
    let mut i: usize = 0;
    while i < a.len()
        invariant
            a@.len() == b@.len(),
            i <= a@.len(),
            forall|k: int| 0 <= k < i ==> a@[k] == b@[k],
        decreases a.len() - i,
    {
        if a[i] != b[i] {
            return false;
        }
        i += 1;
    }
    assert(a@ =~= b@);
    true
}

/// The word that the token spells.
pub fn read_word(t: &str) -> (w: Word)
    ensures
        w == word_of(t.spec_bytes()),
{
    let b = t.as_bytes();
    if same_bytes(b, word_vec(Word::Quit).as_slice()) {
        return Word::Quit;
    }
    if same_bytes(b, word_vec(Word::Uci).as_slice()) {
        return Word::Uci;
    }
    if same_bytes(b, word_vec(Word::SetOption).as_slice()) {
        return Word::SetOption;
    }
    if same_bytes(b, word_vec(Word::NewGame).as_slice()) {
        return Word::NewGame;
    }
    if same_bytes(b, word_vec(Word::IsReady).as_slice()) {
        return Word::IsReady;
    }
    if same_bytes(b, word_vec(Word::Position).as_slice()) {
        return Word::Position;
    }
    if same_bytes(b, word_vec(Word::Go).as_slice()) {
        return Word::Go;
    }
    if same_bytes(b, word_vec(Word::Fen).as_slice()) {
        return Word::Fen;
    }
    if same_bytes(b, word_vec(Word::Moves).as_slice()) {
        return Word::Moves;
    }
    if same_bytes(b, word_vec(Word::StartPos).as_slice()) {
        return Word::StartPos;
    }
    if same_bytes(b, word_vec(Word::Name).as_slice()) {
        return Word::Name;
    }
    if same_bytes(b, word_vec(Word::Value).as_slice()) {
        return Word::Value;
    }
    if same_bytes(b, word_vec(Word::Depth).as_slice()) {
        return Word::Depth;
    }
    if same_bytes(b, word_vec(Word::Nodes).as_slice()) {
        return Word::Nodes;
    }
    if same_bytes(b, word_vec(Word::WTime).as_slice()) {
        return Word::WTime;
    }
    if same_bytes(b, word_vec(Word::BTime).as_slice()) {
        return Word::BTime;
    }
    if same_bytes(b, word_vec(Word::WInc).as_slice()) {
        return Word::WInc;
    }
    if same_bytes(b, word_vec(Word::BInc).as_slice()) {
        return Word::BInc;
    }
    if same_bytes(b, word_vec(Word::Hash).as_slice()) {
        return Word::Hash;
    }
    Word::Other
}

/// The unsigned number written in `b` as `str::parse` reads it for a type
/// whose largest value is `max`: an optional `+`, then at least one decimal
/// digit, the value at most `max` (none otherwise).
pub open spec fn parse_unsigned(b: Seq<u8>, max: nat) -> Option<nat> {
    let d = if b.len() > 0 && b[0] == 43 { b.drop_first() } else { b };
    if d.len() > 0 && all_digits(d) && digits_value(d) <= max {
        Some(digits_value(d))
    } else {
        None
    }
}

pub open spec fn sat65(v: nat) -> nat {
    if v > 0x1_0000_0000_0000_0000 { 0x1_0000_0000_0000_0000 } else { v }
}

/// Reads an unsigned number no greater than `max` as `str::parse` does.
pub fn parse_unsigned_bytes(b: &[u8], max: u64) -> (r: Option<u64>)
    ensures
        match parse_unsigned(b@, max as nat) {
            Some(v) => r == Some(v as u64),
            None => r is None,
        },
{
    let start: usize = if b.len() > 0 && b[0] == 43 { 1 } else { 0 };
    let ghost d = if b@.len() > 0 && b@[0] == 43 { b@.drop_first() } else { b@ };
    assert(d =~= b@.subrange(start as int, b@.len() as int));
    if start >= b.len() {
        return None;
    }
    let mut acc: u128 = 0;
    let mut k: usize = start;
    assert(b@.subrange(start as int, k as int) =~= Seq::<u8>::empty());
    while k < b.len()
        invariant
            start <= k <= b.len(),
            d == b@.subrange(start as int, b@.len() as int),
            d == (if b@.len() > 0 && b@[0] == 43 { b@.drop_first() } else { b@ }),
            acc == sat65(digits_value(b@.subrange(start as int, k as int))),
            all_digits(b@.subrange(start as int, k as int)),
        decreases b.len() - k,
    {
        let c = b[k];
        if c < 48 || c > 57 {
            assert(d[k - start] == c);
            assert(!is_digit(d[k - start]));
            assert(!all_digits(d));
            return None;
        }
        let ghost pre = b@.subrange(start as int, k as int);
        let ghost next = b@.subrange(start as int, k + 1);
        assert(next.drop_last() =~= pre);
        assert(next.last() == c);
        assert(forall|i: int| 0 <= i < next.len() ==> #[trigger] next[i] == if i < pre.len() { pre[i] } else { c });
        let v = acc * 10 + (c - 48) as u128;
        acc = if v > 0x1_0000_0000_0000_0000u128 { 0x1_0000_0000_0000_0000u128 } else { v };
        k += 1;
    }
    assert(b@.subrange(start as int, k as int) =~= d);
    if acc > max as u128 {
        None
    } else {
        Some(acc as u64)
    }
}

/// The limits a `go` command names.
#[derive(Copy, Clone, PartialEq, Eq, Debug, Structural)]
pub struct GoParams {
    pub depth: Option<u8>,
    pub nodes: Option<u64>,
    pub wtime: Option<u64>,
    pub btime: Option<u64>,
    pub winc: Option<u64>,
    pub binc: Option<u64>,
}

pub open spec fn no_params() -> GoParams {
    GoParams { depth: None, nodes: None, wtime: None, btime: None, winc: None, binc: None }
}

pub open spec fn opt_u8(o: Option<nat>) -> Option<u8> {
    match o {
        Some(v) => Some(v as u8),
        None => None,
    }
}

pub open spec fn opt_u64(o: Option<nat>) -> Option<u64> {
    match o {
        Some(v) => Some(v as u64),
        None => None,
    }
}

/// A word that names a limit of `go`.
pub open spec fn is_limit_word(w: Word) -> bool {
    w == Word::Depth || w == Word::Nodes || w == Word::WTime || w == Word::BTime || w == Word::WInc || w == Word::BInc
}

/// The limits named by the tokens `t` from `i` on, starting from `g`: a
/// limit's name takes the next token as its value (none when that does not
/// read as a number of the limit's type), a name with no token after it
/// changes nothing, any other token is skipped.
pub open spec fn go_scan(t: Seq<Seq<u8>>, i: nat, g: GoParams) -> GoParams
    decreases t.len() - i,
{
    if i >= t.len() {
        g
    } else {
        let w = word_of(t[i as int]);
        if !is_limit_word(w) {
            go_scan(t, i + 1, g)
        } else if i + 1 >= t.len() {
            g
        } else {
            let v = t[(i + 1) as int];
            let g2 = if w == Word::Depth {
                GoParams { depth: opt_u8(parse_unsigned(v, 255)), ..g }
            } else if w == Word::Nodes {
                GoParams { nodes: opt_u64(parse_unsigned(v, u64::MAX as nat)), ..g }
            } else if w == Word::WTime {
                GoParams { wtime: opt_u64(parse_unsigned(v, u64::MAX as nat)), ..g }
            } else if w == Word::BTime {
                GoParams { btime: opt_u64(parse_unsigned(v, u64::MAX as nat)), ..g }
            } else if w == Word::WInc {
                GoParams { winc: opt_u64(parse_unsigned(v, u64::MAX as nat)), ..g }
            } else {
                GoParams { binc: opt_u64(parse_unsigned(v, u64::MAX as nat)), ..g }
            };
            go_scan(t, i + 2, g2)
        }
    }
}

pub open spec fn or_default(o: Option<u64>) -> u64 {
    match o {
        Some(v) => v,
        None => 5000,
    }
}

/// The limits of a search asked for by `go` with the tokens `t`: a depth
/// if one is named, else a node count, else the clock and increment of the
/// side to move (5000 ms each where not given).
pub open spec fn go_limits_spec(t: Seq<Seq<u8>>, white: bool) -> SearchLimits {
    let g = go_scan(t, 0, no_params());
    match g.depth {
        Some(d) => SearchLimits { max_depth: Some(d), base_inc: None, max_nodes: None, infinite: false },
        None => match g.nodes {
            Some(n) => SearchLimits { max_depth: None, base_inc: None, max_nodes: Some(n), infinite: false },
            None => SearchLimits {
                max_depth: None,
                base_inc: Some(
                    if white {
                        (or_default(g.wtime), or_default(g.winc))
                    } else {
                        (or_default(g.btime), or_default(g.binc))
                    },
                ),
                max_nodes: None,
                infinite: false,
            },
        },
    }
}

/// The bytes of each token.
pub open spec fn token_bytes(ts: Seq<&str>) -> Seq<Seq<u8>> {
    Seq::new(ts.len(), |k: int| ts[k].spec_bytes())
}

/// Reads the limits of a `go` command from its tokens (after the word `go`).
pub fn go_limits(tokens: &[&str], white: bool) -> (l: SearchLimits)
    ensures
        l == go_limits_spec(token_bytes(tokens@), white),
{
    let ghost t = token_bytes(tokens@);
    let mut g = GoParams { depth: None, nodes: None, wtime: None, btime: None, winc: None, binc: None };
    let mut i: usize = 0;
    while i < tokens.len()
        invariant
            t == token_bytes(tokens@),
            i <= tokens@.len() + 1,
            go_scan(t, 0, no_params()) == go_scan(t, i as nat, g),
        decreases tokens.len() + 1 - i,
    {
        let w = read_word(tokens[i]);
        assert(t[i as int] == tokens@[i as int].spec_bytes());
        if !(w == Word::Depth || w == Word::Nodes || w == Word::WTime || w == Word::BTime || w == Word::WInc
            || w == Word::BInc) {
            i += 1;
        } else if i + 1 >= tokens.len() {
            i = tokens.len();
        } else {
            let vb = tokens[i + 1].as_bytes();
            assert(t[i + 1] == tokens@[i + 1].spec_bytes());
            if w == Word::Depth {
                g.depth = match parse_unsigned_bytes(vb, 255) {
                    Some(v) => Some(v as u8),
                    None => None,
                };
            } else {
                let v = parse_unsigned_bytes(vb, 0xFFFF_FFFF_FFFF_FFFFu64);
                if w == Word::Nodes {
                    g.nodes = v;
                } else if w == Word::WTime {
                    g.wtime = v;
                } else if w == Word::BTime {
                    g.btime = v;
                } else if w == Word::WInc {
                    g.winc = v;
                } else {
                    g.binc = v;
                }
            }
            i += 2;
        }
    }
    let base_inc = if white {
        (match g.wtime { Some(v) => v, None => 5000 }, match g.winc { Some(v) => v, None => 5000 })
    } else {
        (match g.btime { Some(v) => v, None => 5000 }, match g.binc { Some(v) => v, None => 5000 })
    };
    match g.depth {
        Some(d) => SearchLimits::depth(d),
        None => match g.nodes {
            Some(n) => SearchLimits::nodes(n),
            None => SearchLimits { max_depth: None, base_inc: Some(base_inc), max_nodes: None, infinite: false },
        },
    }
}

/// What the engine does with a `setoption` command.
#[derive(Copy, Clone, PartialEq, Eq, Debug, Structural)]
pub enum OptionAction {
    /// The command is not of the form `name <name> value <value>`.
    Ignore,
    /// The engine has no option of that name.
    Unknown,
    /// Resize the hash table to this many buckets.
    SetHash(u64),
    /// The hash size does not read as a number: the engine gives up.
    Abort,
}

/// What `setoption` with the tokens `t` (after the word) does: with the
/// form `name <name> value <value>` and the name `Hash`, the message of the
/// option's range check (if any) and the new size or, where the value is
/// no size, giving up; another name is unknown; another form is ignored.
pub open spec fn option_spec(t: Seq<Seq<u8>>) -> (Option<Seq<char>>, OptionAction) {
    if t.len() >= 4 && word_of(t[0]) == Word::Name && word_of(t[2]) == Word::Value {
        if word_of(t[1]) == Word::Hash {
            let msg = match parse_i64(t[3]) {
                Some(v) => if v < 5 || v > 1048576 { Some(range_message(5, 1048576, 100)) } else { None },
                None => None,
            };
            let act = match parse_unsigned(t[3], usize::MAX as nat) {
                Some(v) => OptionAction::SetHash(v as u64),
                None => OptionAction::Abort,
            };
            (msg, act)
        } else {
            (None, OptionAction::Unknown)
        }
    } else {
        (None, OptionAction::Ignore)
    }
}

/// Reads a `setoption` command from its tokens (after the word).
pub fn option_command(tokens: &[&str]) -> (r: (Option<String>, OptionAction))
    ensures
        (match r.0 {
            Some(s) => Some(s@),
            None => None,
        }, r.1) == option_spec(token_bytes(tokens@)),
{
    let ghost t = token_bytes(tokens@);
    if tokens.len() < 4 {
        return (None, OptionAction::Ignore);
    }
    assert(t[0] == tokens@[0].spec_bytes());
    assert(t[1] == tokens@[1].spec_bytes());
    assert(t[2] == tokens@[2].spec_bytes());
    assert(t[3] == tokens@[3].spec_bytes());
    if read_word(tokens[0]) != Word::Name || read_word(tokens[2]) != Word::Value {
        return (None, OptionAction::Ignore);
    }
    if read_word(tokens[1]) != Word::Hash {
        return (None, OptionAction::Unknown);
    }
    let settings = engine_settings();
    let option = &settings[0];
    let msg = match option.validate(tokens[3]) {
        Ok(()) => None,
        Err(e) => Some(e),
    };
    let act = match parse_unsigned_bytes(tokens[3].as_bytes(), usize::MAX as u64) {
        Some(v) => OptionAction::SetHash(v),
        None => OptionAction::Abort,
    };
    (msg, act)
}

/// What the protocol sees of a board: its position, the moves it can take
/// back, the hashes of the game so far, and its hash keys.
pub struct PlayState {
    pub pos: Position,
    pub undo: Seq<UndoInfo>,
    pub positions: Seq<u64>,
    pub z: Keys,
}

impl Board {
    pub open spec fn play_state(&self) -> PlayState {
        PlayState { pos: self.pos(), undo: self.undo_stack@, positions: self.positions@, z: self.zobrist@ }
    }
}

/// A new board holding `p`, with empty histories and the engine's keys.
pub open spec fn fresh(p: Position) -> PlayState {
    PlayState { pos: p, undo: Seq::empty(), positions: Seq::empty(), z: canonical_keys() }
}

/// The board can take another move: its bookkeeping is sound and its
/// histories have room.
pub open spec fn can_take(st: PlayState) -> bool {
    &&& st.pos.turn.is_side()
    &&& st.pos.castling < 16
    &&& st.pos.occupied == st.pos.color_bb[0] | st.pos.color_bb[1]
    &&& st.z == canonical_keys()
    &&& st.undo.len() < GAME_POSITIONS_SIZE
    &&& st.positions.len() < GAME_POSITIONS_SIZE
}

/// How a position command fails: a move it names is refused, or the engine
/// gives up (a move or record it cannot read, or a move its tables cannot take).
#[derive(Copy, Clone, PartialEq, Eq, Debug, Structural)]
pub enum PositionError {
    Move(MoveError),
    Abort,
}

/// The board after the engine plays `m` for the side to move: the new
/// position with the move recorded when the mover's king is safe, else the
/// position the engine takes the move back to.
pub open spec fn after_move(st: PlayState, m: Move) -> PlayState {
    let q = apply_move(st.pos, st.z, m, true);
    if mover_safe(q) {
        PlayState { pos: q, undo: st.undo.push(undo_of(st.pos, m)), positions: st.positions.push(q.hash), z: st.z }
    } else {
        PlayState { pos: revert_move(q, st.pos.turn.idx(), m, undo_of(st.pos, m)), ..st }
    }
}

/// The board and outcome after the moves `t` from `j` on are played.
pub open spec fn moves_spec(st: PlayState, t: Seq<Seq<u8>>, j: nat) -> (PlayState, Result<(), PositionError>)
    decreases t.len() - j,
{
    if j >= t.len() {
        (st, Ok(()))
    } else {
        match qualify_spec(st.pos, t[j as int]) {
            None => (st, Err(PositionError::Abort)),
            Some(Err(e)) => (st, Err(PositionError::Move(e))),
            Some(Ok(m)) => if can_take(st) && move_shape_ok(st.pos, m) {
                moves_spec(after_move(st, m), t, j + 1)
            } else {
                (st, Err(PositionError::Abort))
            },
        }
    }
}

/// The tokens joined by single spaces.
pub open spec fn join_tokens(ts: Seq<Seq<u8>>) -> Seq<u8>
    decreases ts.len(),
{
    if ts.len() == 0 {
        Seq::empty()
    } else if ts.len() == 1 {
        ts[0]
    } else {
        join_tokens(ts.drop_last()) + seq![32u8] + ts.last()
    }
}

/// The board and outcome of a `position` command with the tokens `t`,
/// read from `i` on: `fen` takes the next six tokens as a FEN record (a
/// record with an error leaves the board), `startpos` sets up the starting
/// position, `moves` plays the rest of the tokens, other tokens are skipped.
pub open spec fn position_spec(st: PlayState, t: Seq<Seq<u8>>, i: nat) -> (PlayState, Result<(), PositionError>)
    decreases t.len() - i,
{
    if i >= t.len() {
        (st, Ok(()))
    } else {
        let w = word_of(t[i as int]);
        if w == Word::Fen {
            let end: nat = if i + 7 < t.len() { i + 7 } else { t.len() };
            match fen_spec(join_tokens(t.subrange((i + 1) as int, end as int))) {
                None => (st, Err(PositionError::Abort)),
                Some(Err(_)) => position_spec(st, t, end),
                Some(Ok(raw)) => position_spec(fresh(scored(raw, canonical_keys())), t, end),
            }
        } else if w == Word::Moves {
            moves_spec(st, t, i + 1)
        } else if w == Word::StartPos {
            position_spec(fresh(scored(start_position(), canonical_keys())), t, i + 1)
        } else {
            position_spec(st, t, i + 1)
        }
    }
}

/// The tokens `from..to` joined by single spaces.
fn join_bytes(tokens: &[&str], from: usize, to: usize) -> (v: Vec<u8>)
    requires
        from <= to <= tokens@.len(),
    ensures
        v@ == join_tokens(token_bytes(tokens@).subrange(from as int, to as int)),
{
    let ghost tb = token_bytes(tokens@);
    let mut v: Vec<u8> = Vec::new();
    let mut k: usize = from;
    assert(tb.subrange(from as int, from as int) =~= Seq::<Seq<u8>>::empty());
    while k < to
        invariant
            from <= k <= to <= tokens@.len(),
            tb == token_bytes(tokens@),
            v@ == join_tokens(tb.subrange(from as int, k as int)),
        decreases to - k,
    {
        let ghost before = v@;
        if k > from {
            v.push(32u8);
        }
        let b = tokens[k].as_bytes();
        assert(b@ == tb[k as int]);
        let ghost mid = v@;
        let mut q: usize = 0;
        assert(b@.subrange(0, 0) =~= Seq::<u8>::empty());
        assert(mid + b@.subrange(0, 0) =~= mid);
        while q < b.len()
            invariant
                q <= b@.len(),
                v@ == mid + b@.subrange(0, q as int),
            decreases b.len() - q,
        {
            v.push(b[q]);
            assert(mid + b@.subrange(0, q + 1) =~= (mid + b@.subrange(0, q as int)).push(b@[q as int]));
            q += 1;
        }
        assert(b@.subrange(0, b@.len() as int) =~= b@);
        let ghost sub = tb.subrange(from as int, k + 1);
        assert(sub.drop_last() =~= tb.subrange(from as int, k as int));
        assert(sub.last() == tb[k as int]);
        if k > from {
            assert(mid == before + seq![32u8]);
            assert(v@ =~= join_tokens(sub.drop_last()) + seq![32u8] + sub.last());
        } else {
            assert(sub.len() == 1);
            assert(v@ =~= sub[0]);
        }
        k += 1;
    }
    v
}

/// Plays the moves `tokens[j..]` on the board as the protocol's `moves` does.
pub fn play_moves(board: &mut Board, tokens: &[&str], j: usize) -> (r: Result<(), PositionError>)
    requires
        j <= tokens@.len(),
    ensures
        (final(board).play_state(), r) == moves_spec(old(board).play_state(), token_bytes(tokens@), j as nat),
{
    let ghost t = token_bytes(tokens@);
    let mut k: usize = j;
    while k < tokens.len()
        invariant
            j <= k <= tokens@.len(),
            t == token_bytes(tokens@),
            moves_spec(old(board).play_state(), t, j as nat) == moves_spec(board.play_state(), t, k as nat),
        decreases tokens.len() - k,
    {
        assert(t[k as int] == tokens@[k as int].spec_bytes());
        let m = match board.read_move(tokens[k]) {
            None => {
                return Err(PositionError::Abort);
            },
            Some(Err(e)) => {
                return Err(PositionError::Move(e));
            },
            Some(Ok(m)) => m,
        };
        proof {
            board.zobrist.lemma_canonical_keys();
        }
        if !(board.zobrist.is_canonical() && board.bookkeeping_ok() && board.has_room() && board.can_play(m)) {
            return Err(PositionError::Abort);
        }
        let ghost st = board.play_state();
        board.make_pl_move::<true>(m);
        assert(board.play_state() == after_move(st, m));
        k += 1;
    }
    Ok(())
}

/// Carries out a `position` command with its tokens (after the word) on
/// the board.
pub fn set_position(board: &mut Board, tokens: &[&str]) -> (r: Result<(), PositionError>)
    ensures
        (final(board).play_state(), r) == position_spec(old(board).play_state(), token_bytes(tokens@), 0),
{
    let ghost t = token_bytes(tokens@);
    let mut i: usize = 0;
    while i < tokens.len()
        invariant
            i <= tokens@.len(),
            t == token_bytes(tokens@),
            position_spec(old(board).play_state(), t, 0) == position_spec(board.play_state(), t, i as nat),
        decreases tokens.len() - i,
    {
        assert(t[i as int] == tokens@[i as int].spec_bytes());
        let w = read_word(tokens[i]);
        if w == Word::Fen {
            let end: usize = if tokens.len() - i > 7 { i + 7 } else { tokens.len() };
            let fen = join_bytes(tokens, i + 1, end);
            match Board::parse_fen_bytes(fen.as_slice()) {
                None => {
                    return Err(PositionError::Abort);
                },
                Some(Err(_)) => {},
                Some(Ok(b)) => {
                    proof {
                        b.zobrist.lemma_canonical_keys();
                    }
                    assert(b.undo_stack@ =~= Seq::<UndoInfo>::empty());
                    assert(b.positions@ =~= Seq::<u64>::empty());
                    *board = b;
                },
            }
            i = end;
        } else if w == Word::Moves {
            return play_moves(board, tokens, i + 1);
        } else if w == Word::StartPos {
            let b = Board::default();
            proof {
                b.zobrist.lemma_canonical_keys();
            }
            assert(b.undo_stack@ =~= Seq::<UndoInfo>::empty());
            assert(b.positions@ =~= Seq::<u64>::empty());
            *board = b;
            i += 1;
        } else {
            i += 1;
        }
    }
    Ok(())
}

/// The first of the moves `s` that the engine plays in node `n`.
pub open spec fn first_played(n: crate::search::tree::Node, s: Seq<Move>) -> Option<Move>
    decreases s.len(),
{
    if s.len() == 0 {
        None
    } else if plays(n, s[0]) {
        Some(s[0])
    } else {
        first_played(n, s.drop_first())
    }
}

/// The move the engine names when its search finds none: the first
/// pseudo-legal move, in the generator's order, that it can play (none on
/// a board whose bookkeeping is not sound). The board is left as it was.
pub fn first_legal_move(board: &mut Board) -> (r: Option<Move>)
    ensures
        final(board).same_state(old(board)),
        r == (if old(board).wf() { first_played(old(board).node(), node_moves(old(board).node())) } else { None }),
{
    proof {
        board.zobrist.lemma_canonical_keys();
    }
    if !(board.zobrist.is_canonical() && board.bookkeeping_ok()) {
        return None;
    }
    let ghost n0 = board.node();
    let moves = board.generate_pseudolegals();
    proof {
        reveal(node_moves);
    }
    let ghost b0 = *board;
    let mut i: usize = 0;
    assert(moves@.skip(0) =~= moves@);
    while i < moves.size()
        invariant
            board.same_state(&b0),
            b0 == *old(board),
            b0.wf(),
            n0 == old(board).node(),
            i <= moves@.len(),
            moves@ == node_moves(n0),
            first_played(n0, node_moves(n0)) == first_played(n0, moves@.skip(i as int)),
        decreases moves@.len() - i,
    {
        let m = moves.get(i);
        assert(moves@.skip(i as int)[0] == m);
        assert(moves@.skip(i as int).drop_first() =~= moves@.skip(i + 1));
        proof {
            crate::search::simple_search::lemma_same_state_wf(*board, b0);
        }
        if board.has_room() {
            let ghost p0 = board.pos();
            if board.try_play(m) {
                proof {
                    reveal(plays);
                }
                board.take_back(m, Ghost(p0));
                assert(board.undo_stack@ =~= b0.undo_stack@);
                assert(board.positions@ =~= b0.positions@);
                return Some(m);
            } else {
                proof {
                    reveal(plays);
                }
            }
        } else {
            proof {
                reveal(plays);
            }
        }
        i += 1;
    }
    assert(moves@.skip(i as int) =~= Seq::<Move>::empty());
    None
}

} // verus!
