use vstd::prelude::*;
use crate::chess::chess_move::{Move, MoveList, MOVE_GEN_SIZE};
use crate::chess::constants::Color;
use crate::chess::board::Board;
use crate::chess::board::bitboard::bit;

verus! {

/// The largest magnitude a history score reaches.
pub const HISTORY_MAX: i32 = 8192;

/// Integer division rounding towards zero.
pub open spec fn tdiv(a: int, b: int) -> int {
    if a >= 0 { a / b } else { -((-a) / b) }
}

/// A history score after a bonus: the bonus, damped by how close the score
/// already is to the limit in the bonus's direction.
pub open spec fn gravity(prev: int, bonus: int) -> int {
    let b = if bonus >= 0 { bonus } else { -bonus };
    prev + (bonus - tdiv(prev * b, 8192))
}

/// A bonus for a search to depth `depth`: its square, at most the limit.
pub open spec fn depth_bonus(depth: u8) -> int {
    let d = depth as int;
    if d * d > 8192 { 8192 } else { d * d }
}

proof fn lemma_gravity_nonneg(prev: int, b: int, q: int)
    by (nonlinear_arith)
    requires
        0 <= prev <= 8192,
        0 <= b <= 8192,
        8192 * q <= prev * b < 8192 * q + 8192,
    ensures
        0 <= prev + b - q <= 8192,
        0 <= prev - b + q <= 8192 || -8192 <= prev - b + q <= 8192,
        -8192 <= prev - b + q,
        q <= prev,
        q <= b,
        q >= 0,
{
}

proof fn lemma_gravity_neg(a: int, b: int, q: int)
    by (nonlinear_arith)
    requires
        0 < a <= 8192,
        0 <= b <= 8192,
        8192 * q <= a * b < 8192 * q + 8192,
    ensures
        -8192 <= -a + b + q <= 8192,
        -8192 <= -a - b + q <= 0,
        0 <= q <= a,
        q <= b,
{
}

/// Damping keeps a history score within the limits.
pub proof fn lemma_gravity(prev: int, bonus: int)
    requires
        -8192 <= prev <= 8192,
        -8192 <= bonus <= 8192,
    ensures
        -8192 <= gravity(prev, bonus) <= 8192,
        -16384 <= bonus - tdiv(prev * (if bonus >= 0 { bonus } else { -bonus }), 8192) <= 16384,
{
    let b = if bonus >= 0 { bonus } else { -bonus };
    if prev >= 0 {
        let q = (prev * b) / 8192;
        assert(prev * b >= 0) by (nonlinear_arith)
            requires
                prev >= 0,
                b >= 0,
        ;
        assert(8192 * q <= prev * b < 8192 * q + 8192);
        lemma_gravity_nonneg(prev, b, q);
    } else {
        let a = -prev;
        let q = (a * b) / 8192;
        assert(a * b >= 0) by (nonlinear_arith)
            requires
                a >= 0,
                b >= 0,
        ;
        assert(prev * b == -(a * b)) by (nonlinear_arith)
            requires
                a == -prev,
        ;
        assert(8192 * q <= a * b < 8192 * q + 8192);
        lemma_gravity_neg(a, b, q);
    }
}

/// A bonus within the limits applied to a score within the limits stays
/// within every machine bound and damps as `gravity` says.
pub proof fn lemma_small_bonus(prev: int, bonus: int)
    requires
        -8192 <= prev <= 8192,
        -8192 <= bonus <= 8192,
    ensures
        ({
            let b = if bonus >= 0 { bonus } else { -bonus };
            &&& -0x8000_0000 <= prev * b <= 0x7fff_ffff
            &&& -0x8000_0000 <= bonus - tdiv(prev * b, 8192) <= 0x7fff_ffff
            &&& -16384 <= bonus - tdiv(prev * b, 8192) <= 16384
            &&& prev + (bonus - tdiv(prev * b, 8192)) == gravity(prev, bonus)
        }),
{
    let b = if bonus >= 0 { bonus } else { -bonus };
    lemma_gravity(prev, bonus);
    assert(-67108864 <= prev * b <= 67108864) by (nonlinear_arith)
        requires
            -8192 <= prev <= 8192,
            0 <= b <= 8192,
    ;
}

/// All scores are within the limits.
pub open spec fn bounded(s: Seq<i16>) -> bool {
    forall|i: int| 0 <= i < s.len() ==> -8192 <= #[trigger] s[i] <= 8192
}

pub const MAIN_LEN: usize = 8192;
pub const CONTINUATION_LEN: usize = 3538944;
pub const CAPTURE_LEN: usize = 4608;

/// The slot of the main history for side `turn` moving from `from` to `to`.
pub open spec fn main_idx(turn: nat, from: nat, to: nat) -> int {
    ((turn * 64 + from) * 64 + to) as int
}

/// The slot of the continuation history: `ply` moves back, the piece
/// `prev_piece` went to `prev_to`, and now `piece` goes to `to`.
pub open spec fn cont_idx(ply: nat, prev_piece: nat, prev_to: nat, piece: nat, to: nat) -> int {
    ((((ply * 12 + prev_piece) * 64 + prev_to) * 12 + piece) * 64 + to) as int
}

/// The slot of the capture history: piece `moved` takes a piece of kind
/// `captured` on `to`.
pub open spec fn cap_idx(moved: nat, to: nat, captured: nat) -> int {
    ((moved * 64 + to) * 6 + captured) as int
}

/// A search-stack entry: a move played and the piece (board index) that moved.
#[derive(Copy, Clone, Debug)]
pub struct StackItem {
    pub m: Move,
    pub moved_piece: usize,
}

impl StackItem {
    pub fn new(m: Move, moved_piece: usize) -> (s: Self)
        requires
            moved_piece < 12,
        ensures
            s.m == m,
            s.moved_piece == moved_piece,
    {
        StackItem { m, moved_piece }
    }
}

/// The moves on the path from the root of the search, oldest first; `N` is
/// how many it can hold.
pub struct SearchStack<const N: usize> {
    pub moves: Vec<StackItem>,
}

impl<const N: usize> SearchStack<N> {
    pub open spec fn view(&self) -> Seq<StackItem> {
        self.moves@
    }

    pub open spec fn wf(&self) -> bool {
        &&& self@.len() <= N
        &&& forall|i: int| 0 <= i < self@.len() ==> #[trigger] self@[i].moved_piece < 12
    }

    pub fn new() -> (s: Self)
        ensures
            s@ == Seq::<StackItem>::empty(),
            s.wf(),
    {
        SearchStack { moves: Vec::new() }
    }

    pub fn push(&mut self, item: StackItem)
        requires
            old(self).wf(),
            old(self)@.len() < N,
            item.moved_piece < 12,
        ensures
            final(self).wf(),
            final(self)@ == old(self)@.push(item),
    {
        self.moves.push(item);
    }

    pub fn pop(&mut self)
        requires
            old(self).wf(),
            old(self)@.len() > 0,
        ensures
            final(self).wf(),
            final(self)@ == old(self)@.drop_last(),
    {
        self.moves.pop();
    }

    pub fn len(&self) -> (r: usize)
        ensures
            r == self@.len(),
    {
        self.moves.len()
    }

    /// The last `MAX_PLY` entries (all of them if there are fewer).
    pub fn as_slice<const MAX_PLY: usize>(&self) -> (s: &[StackItem])
        ensures
            s@ == self@.subrange(if MAX_PLY >= self@.len() { 0 } else { self@.len() - MAX_PLY }, self@.len() as int),
    {
        let count = self.moves.len();
        let start: usize = if MAX_PLY >= count { 0 } else { count - MAX_PLY };
        &self.moves.as_slice()[start..count]
    }
}

/// The history tables that order quiet moves and captures: by side and
/// squares, by the moves a few plies back, and by attacker and victim.
pub struct HistroyT {
    pub main_history: Vec<i16>,
    pub continuation_history: Vec<i16>,
    pub capture_history: Vec<i16>,
}

/// A zeroed table of `n` scores.
fn zeros(n: usize) -> (v: Vec<i16>)
    ensures
        v@.len() == n,
        forall|i: int| 0 <= i < n ==> #[trigger] v@[i] == 0,
{
    let mut v: Vec<i16> = Vec::new();
    let mut i: usize = 0;
    while i < n
        invariant
            i <= n,
            v@.len() == i,
            forall|j: int| 0 <= j < i ==> #[trigger] v@[j] == 0,
        decreases n - i,
    {
        v.push(0);
        i += 1;
    }
    v
}

/// Applies the damped bonus `bonus` to slot `i` of `v`.
fn apply_bonus(v: &mut Vec<i16>, i: usize, bonus: i32)
    requires
        i < old(v)@.len(),
        bounded(old(v)@),
        -8192 <= bonus <= 8192,
    ensures
        final(v)@ == old(v)@.update(i as int, gravity(old(v)@[i as int] as int, bonus as int) as i16),
        bounded(final(v)@),
{
    let prev = v[i] as i32;
    let b = if bonus >= 0 { bonus } else { -bonus };
    proof {
        lemma_gravity(prev as int, bonus as int);
        assert(-67108864 <= prev * b <= 67108864) by (nonlinear_arith)
            requires
                -8192 <= prev <= 8192,
                0 <= b <= 8192,
        ;
    }
    let d = bonus - prev * b / HISTORY_MAX;
    let nv = v[i] + d as i16;
    v.set(i, nv);
}

/// The bonus of a search to depth `depth`, capped at the limit.
pub fn depth_bonus_exec(depth: u8) -> (r: i32)
    ensures
        r == depth_bonus(depth),
        0 <= r <= 8192,
{
    let d = depth as i32;
    assert(0 <= d * d <= 65025) by (nonlinear_arith)
        requires
            0 <= d <= 255,
    ;
    let sq = d * d;
    if sq > HISTORY_MAX { HISTORY_MAX } else { sq }
}

impl HistroyT {
    pub const NUM_PLY_CONTINUATION: usize = 6;

    pub open spec fn wf(&self) -> bool {
        &&& self.main_history@.len() == MAIN_LEN
        &&& self.continuation_history@.len() == CONTINUATION_LEN
        &&& self.capture_history@.len() == CAPTURE_LEN
        &&& bounded(self.main_history@)
        &&& bounded(self.continuation_history@)
        &&& bounded(self.capture_history@)
    }

    /// Every score of the tables is zero.
    pub open spec fn all_zero(&self) -> bool {
        &&& forall|i: int| 0 <= i < MAIN_LEN ==> #[trigger] self.main_history@[i] == 0
        &&& forall|i: int| 0 <= i < CONTINUATION_LEN ==> #[trigger] self.continuation_history@[i] == 0
        &&& forall|i: int| 0 <= i < CAPTURE_LEN ==> #[trigger] self.capture_history@[i] == 0
    }

    /// Tables with every score zero.
    pub fn new() -> (h: Self)
        ensures
            h.wf(),
            h.all_zero(),
    {
        HistroyT {
            main_history: zeros(MAIN_LEN),
            continuation_history: zeros(CONTINUATION_LEN),
            capture_history: zeros(CAPTURE_LEN),
        }
    }

    /// Adds the damped bonus `bonus` to the main score of side `turn_idx` for
    /// `m`: the bonus less the score times the bonus's size over the limit,
    /// cut to 16 bits. The scores stay within the limits when the bonus does.
    pub fn main_history_update(&mut self, m: Move, bonus: i32, turn_idx: usize)
        requires
            old(self).wf(),
            turn_idx < 2,
            bonus > i32::MIN,
            ({
                let i = main_idx(turn_idx as nat, m.from_num(), m.to_num());
                let prev = old(self).main_history@[i] as int;
                let b = if bonus >= 0 { bonus as int } else { -bonus };
                &&& -0x8000_0000 <= prev * b <= 0x7fff_ffff
                &&& -0x8000_0000 <= bonus - tdiv(prev * b, 8192) <= 0x7fff_ffff
                &&& -0x8000 <= prev + ((bonus - tdiv(prev * b, 8192)) as i16) <= 0x7fff
            }),
        ensures
            -8192 <= bonus <= 8192 ==> final(self).wf(),
            ({
                let i = main_idx(turn_idx as nat, m.from_num(), m.to_num());
                let prev = old(self).main_history@[i] as int;
                let b = if bonus >= 0 { bonus as int } else { -bonus };
                final(self).main_history@ == old(self).main_history@.update(
                    i,
                    (prev + ((bonus - tdiv(prev * b, 8192)) as i16)) as i16,
                )
            }),
            -8192 <= bonus <= 8192 ==> ({
                let i = main_idx(turn_idx as nat, m.from_num(), m.to_num());
                final(self).main_history@ == old(self).main_history@.update(
                    i,
                    gravity(old(self).main_history@[i] as int, bonus as int) as i16,
                )
            }),
            final(self).continuation_history == old(self).continuation_history,
            final(self).capture_history == old(self).capture_history,
    {
        let i = (turn_idx * 64 + m.from().index()) * 64 + m.to().index();
        if -8192 <= bonus && bonus <= 8192 {
            proof {
                let prev = self.main_history@[i as int] as int;
                lemma_gravity(prev, bonus as int);
            }
            apply_bonus(&mut self.main_history, i, bonus);
        } else {
            let prev = self.main_history[i] as i32;
            let b = if bonus >= 0 { bonus } else { -bonus };
            let d = bonus - prev * b / HISTORY_MAX;
            let nv = self.main_history[i] + d as i16;
            self.main_history.set(i, nv);
        }
    }

    /// Adds the damped bonus to the continuation score of `cur_m` (moving
    /// `cur_moved_piece`) after `prev_m` (moving `prev_moved_piece`) `ply`
    /// moves back.
    pub fn continuation_history_update(
        &mut self,
        prev_m: Move,
        prev_moved_piece: usize,
        cur_m: Move,
        cur_moved_piece: usize,
        ply: usize,
        bonus: i32,
    )
        requires
            old(self).wf(),
            prev_moved_piece < 12,
            cur_moved_piece < 12,
            ply < 6,
            -8192 <= bonus <= 8192,
        ensures
            final(self).wf(),
            ({
                let i = cont_idx(ply as nat, prev_moved_piece as nat, prev_m.to_num(), cur_moved_piece as nat, cur_m.to_num());
                final(self).continuation_history@ == old(self).continuation_history@.update(
                    i,
                    gravity(old(self).continuation_history@[i] as int, bonus as int) as i16,
                )
            }),
            final(self).main_history == old(self).main_history,
            final(self).capture_history == old(self).capture_history,
    {
        let i = (((ply * 12 + prev_moved_piece) * 64 + prev_m.to().index()) * 12 + cur_moved_piece) * 64
            + cur_m.to().index();
        apply_bonus(&mut self.continuation_history, i, bonus);
    }

    /// Adds the damped bonus to the capture score of `moved_piece` taking a
    /// piece of kind `captured_piece` on the target of `m`.
    pub fn capture_history_update(&mut self, moved_piece: usize, captured_piece: usize, m: Move, bonus: i32)
        requires
            old(self).wf(),
            moved_piece < 12,
            captured_piece < 6,
            -8192 <= bonus <= 8192,
        ensures
            final(self).wf(),
            ({
                let i = cap_idx(moved_piece as nat, m.to_num(), captured_piece as nat);
                final(self).capture_history@ == old(self).capture_history@.update(
                    i,
                    gravity(old(self).capture_history@[i] as int, bonus as int) as i16,
                )
            }),
            final(self).main_history == old(self).main_history,
            final(self).continuation_history == old(self).continuation_history,
    {
        let i = (moved_piece * 64 + m.to().index()) * 6 + captured_piece;
        apply_bonus(&mut self.capture_history, i, bonus);
    }

    /// The main score of side `turn` for `m`.
    pub fn main_val(&self, turn: Color, m: Move) -> (r: i32)
        requires
            self.wf(),
            turn.is_side(),
        ensures
            r == self.main_history@[main_idx(turn.idx(), m.from_num(), m.to_num())],
    {
        self.main_history[(turn.index() * 64 + m.from().index()) * 64 + m.to().index()] as i32
    }

    /// The capture score of `moved_piece` taking a piece of kind `captured_piece` with `m`.
    pub fn capture_val(&self, moved_piece: usize, m: Move, captured_piece: usize) -> (r: i32)
        requires
            self.wf(),
            moved_piece < 12,
            captured_piece < 6,
        ensures
            r == self.capture_history@[cap_idx(moved_piece as nat, m.to_num(), captured_piece as nat)],
    {
        self.capture_history[(moved_piece * 64 + m.to().index()) * 6 + captured_piece] as i32
    }
}

/// `v` after the damped bonus `bonus` went to each present slot of `idxs`
/// in turn (absent ones are skipped).
pub open spec fn apply_opts(v: Seq<i16>, idxs: Seq<Option<int>>, bonus: int) -> Seq<i16>
    decreases idxs.len(),
{
    if idxs.len() == 0 {
        v
    } else {
        let w = apply_opts(v, idxs.drop_last(), bonus);
        match idxs.last() {
            Some(i) => w.update(i, gravity(w[i] as int, bonus) as i16),
            None => w,
        }
    }
}

/// `v` after `apply_opts` with each row of `rows` in turn.
pub open spec fn apply_rows(v: Seq<i16>, rows: Seq<Seq<Option<int>>>, bonus: int) -> Seq<i16>
    decreases rows.len(),
{
    if rows.len() == 0 {
        v
    } else {
        apply_opts(apply_rows(v, rows.drop_last(), bonus), rows.last(), bonus)
    }
}

/// The piece on `sq` as a board index (see `Board::get_piece_w_color`).
pub open spec fn piece_w_color(b: Board, sq: nat) -> nat {
    b.piece@[sq as int].idx() + if bit(b.color_bb@[1], sq as int) { 6nat } else { 0nat }
}

/// The capture-history slot of capture `m` on `b`, when its pieces are known.
pub open spec fn capture_slot(b: Board, m: Move) -> Option<int> {
    let moved = piece_w_color(b, m.from_num());
    let captured = if m.flag_bits() == 5 { 0 } else { b.piece@[m.to_num() as int].idx() };
    if moved < 12 && captured < 6 { Some(cap_idx(moved, m.to_num(), captured)) } else { None }
}

/// The stack entry `ply` moves back among the last ones `s`.
pub open spec fn back(s: Seq<StackItem>, ply: int) -> StackItem {
    s[s.len() - 1 - ply]
}

/// The continuation slot of `m` (moving `piece`) after the entry `ply` moves back.
pub open spec fn cont_slot(s: Seq<StackItem>, ply: int, piece: nat, m: Move) -> Option<int> {
    if piece < 12 { Some(cont_idx(ply as nat, back(s, ply).moved_piece as nat, back(s, ply).m.to_num(), piece, m.to_num())) } else { None }
}

/// The last entries of a stack that the continuation history looks at.
pub open spec fn recent(s: Seq<StackItem>) -> Seq<StackItem> {
    s.subrange(if 6 >= s.len() { 0 } else { s.len() - 6 }, s.len() as int)
}

/// The sum of the continuation scores of `m` (moving `piece`) after each of the entries `s`.
pub open spec fn cont_sum(h: Seq<i16>, s: Seq<StackItem>, piece: nat, m: Move, k: int) -> int
    decreases k,
{
    if k <= 0 {
        0
    } else {
        cont_sum(h, s, piece, m, k - 1) + h[cont_idx((k - 1) as nat, back(s, k - 1).moved_piece as nat, back(s, k - 1).m.to_num(), piece, m.to_num())]
    }
}

impl HistroyT {
    /// Rewards the capture `m` of a search to depth `depth`.
    pub fn reward_capture(&mut self, board: &Board, m: Move, depth: u8)
        requires
            old(self).wf(),
        ensures
            final(self).wf(),
            final(self).capture_history@ == apply_opts(old(self).capture_history@, seq![capture_slot(*board, m)], depth_bonus(depth)),
            final(self).main_history == old(self).main_history,
            final(self).continuation_history == old(self).continuation_history,
    {
        let bonus = depth_bonus_exec(depth);
        let moved = board.get_piece_w_color(m.from());
        let captured = board.get_captured(m);
        let ghost v = self.capture_history@;
        assert(seq![capture_slot(*board, m)].drop_last() =~= Seq::<Option<int>>::empty());
        assert(apply_opts(v, Seq::<Option<int>>::empty(), bonus as int) == v);
        assert(seq![capture_slot(*board, m)].last() == capture_slot(*board, m));
        if moved < 12 && captured < 6 {
            self.capture_history_update(moved, captured, m, bonus);
        }
    }

    /// Punishes each capture of `captures` (searched before a better move)
    /// for a search to depth `depth`.
    pub fn punish_captures(&mut self, captures: &MoveList<MOVE_GEN_SIZE>, board: &Board, depth: u8)
        requires
            old(self).wf(),
        ensures
            final(self).wf(),
            final(self).capture_history@ == apply_opts(
                old(self).capture_history@,
                captures@.map_values(|m: Move| capture_slot(*board, m)),
                -depth_bonus(depth),
            ),
            final(self).main_history == old(self).main_history,
            final(self).continuation_history == old(self).continuation_history,
    {
        let malus = -depth_bonus_exec(depth);
        let ghost slots = captures@.map_values(|m: Move| capture_slot(*board, m));
        let mut k: usize = 0;
        assert(slots.take(0) =~= Seq::<Option<int>>::empty());
        while k < captures.size()
            invariant
                self.wf(),
                k <= captures@.len(),
                slots == captures@.map_values(|m: Move| capture_slot(*board, m)),
                -8192 <= malus <= 0,
                malus == -depth_bonus(depth),
                self.capture_history@ == apply_opts(old(self).capture_history@, slots.take(k as int), malus as int),
                self.main_history == old(self).main_history,
                self.continuation_history == old(self).continuation_history,
            decreases captures@.len() - k,
        {
            let m = captures.get(k);
            assert(slots.take(k + 1).drop_last() =~= slots.take(k as int));
            assert(slots.take(k + 1).last() == capture_slot(*board, m));
            let moved = board.get_piece_w_color(m.from());
            let captured = board.get_captured(m);
            if moved < 12 && captured < 6 {
                self.capture_history_update(moved, captured, m, malus);
            }
            k += 1;
        }
        assert(slots.take(k as int) =~= slots);
    }

    /// Punishes each quiet move of `quiets` in the main history of `turn`.
    pub fn punish_main(&mut self, quiets: &MoveList<MOVE_GEN_SIZE>, depth: u8, turn: Color)
        requires
            old(self).wf(),
            turn.is_side(),
        ensures
            final(self).wf(),
            final(self).main_history@ == apply_opts(
                old(self).main_history@,
                quiets@.map_values(|m: Move| Some(main_idx(turn.idx(), m.from_num(), m.to_num()))),
                -depth_bonus(depth),
            ),
            final(self).capture_history == old(self).capture_history,
            final(self).continuation_history == old(self).continuation_history,
    {
        let malus = -depth_bonus_exec(depth);
        let ghost slots = quiets@.map_values(|m: Move| Some(main_idx(turn.idx(), m.from_num(), m.to_num())));
        let mut k: usize = 0;
        assert(slots.take(0) =~= Seq::<Option<int>>::empty());
        while k < quiets.size()
            invariant
                self.wf(),
                turn.is_side(),
                k <= quiets@.len(),
                slots == quiets@.map_values(|m: Move| Some(main_idx(turn.idx(), m.from_num(), m.to_num()))),
                -8192 <= malus <= 0,
                malus == -depth_bonus(depth),
                self.main_history@ == apply_opts(old(self).main_history@, slots.take(k as int), malus as int),
                self.capture_history == old(self).capture_history,
                self.continuation_history == old(self).continuation_history,
            decreases quiets@.len() - k,
        {
            let m = quiets.get(k);
            assert(slots.take(k + 1).drop_last() =~= slots.take(k as int));
            proof {
                let i = main_idx(turn.idx(), m.from_num(), m.to_num());
                m.lemma_parts();
                lemma_small_bonus(self.main_history@[i] as int, malus as int);
            }
            self.main_history_update(m, malus, turn.index());
            k += 1;
        }
        assert(slots.take(k as int) =~= slots);
    }

    /// Rewards `m` (moving `piece`) after each of the last moves on the stack.
    pub fn reward_continuation<const N: usize>(&mut self, search_stack: &SearchStack<N>, depth: u8, m: Move, piece: usize)
        requires
            old(self).wf(),
            search_stack.wf(),
        ensures
            final(self).wf(),
            final(self).continuation_history@ == apply_opts(
                old(self).continuation_history@,
                Seq::new(recent(search_stack@).len(), |p: int| cont_slot(recent(search_stack@), p, piece as nat, m)),
                depth_bonus(depth),
            ),
            final(self).capture_history == old(self).capture_history,
            final(self).main_history == old(self).main_history,
    {
        let bonus = depth_bonus_exec(depth);
        let items = search_stack.as_slice::<6>();
        let ghost s = recent(search_stack@);
        assert(items@ == s);
        let ghost slots = Seq::new(s.len(), |p: int| cont_slot(s, p, piece as nat, m));
        let n = items.len();
        let mut ply: usize = 0;
        assert(slots.take(0) =~= Seq::<Option<int>>::empty());
        while ply < n
            invariant
                self.wf(),
                search_stack.wf(),
                n == s.len(),
                n <= 6,
                items@ == s,
                s == recent(search_stack@),
                forall|i: int| 0 <= i < s.len() ==> #[trigger] s[i].moved_piece < 12,
                ply <= n,
                slots == Seq::new(s.len(), |p: int| cont_slot(s, p, piece as nat, m)),
                0 <= bonus <= 8192,
                bonus == depth_bonus(depth),
                self.continuation_history@ == apply_opts(old(self).continuation_history@, slots.take(ply as int), bonus as int),
                self.capture_history == old(self).capture_history,
                self.main_history == old(self).main_history,
            decreases n - ply,
        {
            assert(slots.take(ply + 1).drop_last() =~= slots.take(ply as int));
            let item = items[n - 1 - ply];
            assert(item == back(s, ply as int));
            if piece < 12 {
                self.continuation_history_update(item.m, item.moved_piece, m, piece, ply, bonus);
            }
            ply += 1;
        }
        assert(slots.take(ply as int) =~= slots);
    }

    /// Punishes each quiet move of `quiets` after each of the last moves on the stack.
    pub fn punish_continuation<const N: usize>(
        &mut self,
        quiets: &MoveList<MOVE_GEN_SIZE>,
        search_stack: &SearchStack<N>,
        depth: u8,
        board: &Board,
    )
        requires
            old(self).wf(),
            search_stack.wf(),
            forall|i: int| 0 <= i < quiets@.len() ==> #[trigger] quiets@[i].from_num() < 64,
        ensures
            final(self).wf(),
            final(self).continuation_history@ == apply_rows(
                old(self).continuation_history@,
                Seq::new(
                    recent(search_stack@).len(),
                    |p: int|
                        quiets@.map_values(
                            |q: Move| cont_slot(recent(search_stack@), p, piece_w_color(*board, q.from_num()), q),
                        ),
                ),
                -depth_bonus(depth),
            ),
            final(self).capture_history == old(self).capture_history,
            final(self).main_history == old(self).main_history,
    {
        let malus = -depth_bonus_exec(depth);
        let items = search_stack.as_slice::<6>();
        let ghost s = recent(search_stack@);
        let ghost rows = Seq::new(
            s.len(),
            |p: int| quiets@.map_values(|q: Move| cont_slot(s, p, piece_w_color(*board, q.from_num()), q)),
        );
        let n = items.len();
        let mut ply: usize = 0;
        assert(rows.take(0) =~= Seq::<Seq<Option<int>>>::empty());
        while ply < n
            invariant
                self.wf(),
                n == s.len(),
                n <= 6,
                items@ == s,
                forall|i: int| 0 <= i < s.len() ==> #[trigger] s[i].moved_piece < 12,
                forall|i: int| 0 <= i < quiets@.len() ==> #[trigger] quiets@[i].from_num() < 64,
                ply <= n,
                rows == Seq::new(
                    s.len(),
                    |p: int| quiets@.map_values(|q: Move| cont_slot(s, p, piece_w_color(*board, q.from_num()), q)),
                ),
                -8192 <= malus <= 0,
                self.continuation_history@ == apply_rows(old(self).continuation_history@, rows.take(ply as int), malus as int),
                self.capture_history == old(self).capture_history,
                self.main_history == old(self).main_history,
            decreases n - ply,
        {
            assert(rows.take(ply + 1).drop_last() =~= rows.take(ply as int));
            let item = items[n - 1 - ply];
            assert(item == back(s, ply as int));
            let ghost row = rows[ply as int];
            let ghost start = self.continuation_history@;
            let mut k: usize = 0;
            assert(row.take(0) =~= Seq::<Option<int>>::empty());
            while k < quiets.size()
                invariant
                    self.wf(),
                    ply < n,
                    n <= 6,
                    n == s.len(),
                    item == back(s, ply as int),
                    item.moved_piece < 12,
                    k <= quiets@.len(),
                    row == quiets@.map_values(|q: Move| cont_slot(s, ply as int, piece_w_color(*board, q.from_num()), q)),
                    forall|i: int| 0 <= i < quiets@.len() ==> #[trigger] quiets@[i].from_num() < 64,
                    -8192 <= malus <= 0,
                    self.continuation_history@ == apply_opts(start, row.take(k as int), malus as int),
                    self.capture_history == old(self).capture_history,
                    self.main_history == old(self).main_history,
                decreases quiets@.len() - k,
            {
                let q = quiets.get(k);
                assert(row.take(k + 1).drop_last() =~= row.take(k as int));
                let piece = board.get_piece_w_color(q.from());
                if piece < 12 {
                    self.continuation_history_update(item.m, item.moved_piece, q, piece, ply, malus);
                }
                k += 1;
            }
            assert(row.take(k as int) =~= row);
            ply += 1;
        }
        assert(rows.take(ply as int) =~= rows);
    }

    /// The sum of the continuation scores of `m` (moving `moved_piece`) after
    /// each of the last moves on the stack.
    pub fn continuation_val<const N: usize>(&self, search_stack: &SearchStack<N>, moved_piece: usize, m: Move) -> (r: i32)
        requires
            self.wf(),
            search_stack.wf(),
            moved_piece < 12,
        ensures
            r == cont_sum(self.continuation_history@, recent(search_stack@), moved_piece as nat, m, recent(search_stack@).len() as int),
            -6 * 8192 <= r <= 6 * 8192,
    {
        let items = search_stack.as_slice::<6>();
        let ghost s = recent(search_stack@);
        let n = items.len();
        let mut sum: i32 = 0;
        let mut ply: usize = 0;
        while ply < n
            invariant
                self.wf(),
                n == s.len(),
                n <= 6,
                items@ == s,
                forall|i: int| 0 <= i < s.len() ==> #[trigger] s[i].moved_piece < 12,
                ply <= n,
                moved_piece < 12,
                sum == cont_sum(self.continuation_history@, s, moved_piece as nat, m, ply as int),
                -(ply as int) * 8192 <= sum <= ply * 8192,
            decreases n - ply,
        {
            let item = items[n - 1 - ply];
            assert(item == back(s, ply as int));
            let i = (((ply * 12 + item.moved_piece) * 64 + item.m.to().index()) * 12 + moved_piece) * 64 + m.to().index();
            sum = sum + self.continuation_history[i] as i32;
            ply += 1;
        }
        sum
    }
}

} // verus!
