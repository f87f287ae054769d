use vstd::prelude::*;
use crate::chess::chess_move::{Move, MoveList, MOVE_GEN_SIZE};
use crate::chess::constants::Color;
use crate::chess::board::{Board, GAME_POSITIONS_SIZE};
use crate::chess::board::evaluation::{CHECK_MATE, CHECK_MATE_THRESHOLD, NEG_INFINITY, POSITIVE_INFINITY, eval_fits};
use crate::chess::board::play::{played, will_draw_spec};
use crate::search::{MAX_SEARCH_DEPTH, Ntype, SearchResult, TTable, TTableEntry, slot_of, is_pow2};
use crate::chess::board::attacks::attacked;
use crate::chess::board::bitboard::lsb_num;
use crate::search::ids::{Restrictions, now, later};
use crate::search::history::{lemma_small_bonus, HistroyT, SearchStack, StackItem, depth_bonus_exec, depth_bonus, gravity, main_idx, apply_opts, apply_rows, capture_slot, cont_slot, recent, piece_w_color};
use crate::move_sorting::advanced_sorting::{AdvancedSorting, MoveGenStage, NumericSorting, sorter_measure, sorted_desc, listed, listed_captures, capture_score, min_len};
use crate::chess::board::move_gen::gen_spec;
use crate::chess::board::Position;
use crate::move_sorting::{first_best, handed_out};
use crate::search::tree::{Node, plays, child, node_moves, leaf_value, in_check_at, tree_value, best_reply, tame, all_tame, window_answer, lemma_best_reply_char, lemma_best_reply_same, lemma_same_moves, lemma_tame_child, lemma_tame_member, lemma_tame_bounds, lemma_inner_value};
use crate::chess::board::draw_spec;
use crate::parameters::{RFP_BIAS, RFP_LINEAR, RFP_QUADRATIC, FUTILITY_BIAS, FUTILITY_LINEAR, FUTILITY_QUADRATIC, FUTILITY_DEPTH, PROB_MIN_DEPTH, PROB_DEPTH_REDUCTION, PROB_BIAS, PROB_LINEAR, PROB_QUADRATIC, RAZORING_MAX_DEPTH, RAZORING_BIAS, RAZORING_LINEAR, RAZORING_QUADRATIC, LMR_MIN_DEPTH, LMR_NUM_MOVES_PLAYED, CHECK_EXTENSION_MAX_PLY, FIRST_WINDOW, SECOND_WINDOW, HISTORY_EXTENSION_SCORE};

verus! {

/// The entry the table `t` holds for the position with hash `hash`, if any.
pub open spec fn table_entry(t: TTable, hash: u64) -> Option<TTableEntry> {
    match slot_of(t.table@[t.index_of(hash)]@, hash) {
        Some(i) => Some(t.table@[t.index_of(hash)]@[i as int]),
        None => None,
    }
}

/// The move the table `t` holds for the position with hash `hash` (no move if none).
pub open spec fn table_move(t: TTable, hash: u64) -> Move {
    match table_entry(t, hash) {
        Some(e) => e.best_move,
        None => Move(0),
    }
}

/// The stored score of `e` that settles a search to `depth` in the window
/// (`alpha`, `beta`): an exact score, a lower bound at or above `beta`, an
/// upper bound at or below `alpha`; none inside a principal variation or
/// from a shallower search.
pub open spec fn settled_by(e: TTableEntry, alpha: i16, beta: i16, depth: u8, is_pv: bool) -> Option<i16> {
    if !is_pv && e.depth >= depth {
        match e.ntype {
            Ntype::Exact => Some(e.score),
            Ntype::Lower => if beta <= e.score { Some(e.score) } else { None },
            Ntype::Upper => if alpha >= e.score { Some(e.score) } else { None },
        }
    } else {
        None
    }
}

/// Negation as the search does it: the lowest value stays as it is.
pub open spec fn neg_spec(x: i16) -> i16 {
    if x == i16::MIN { i16::MIN } else { (-x) as i16 }
}

/// A board holding position `p` (the scores read the position alone).
pub open spec fn board_at(p: Position) -> Board {
    choose|b: Board| b.pos() == p
}

/// The captures the quiescence search sorts in node `n`: the listed
/// captures, the table's move `tt` scored above all, the others by
/// `capture_score` with histories `h`.
pub open spec fn capture_list(n: Node, h: HistroyT, tt: Move) -> Seq<(Move, i32)> {
    let g = gen_spec(n.pos, n.pos.turn.idx(), false, true);
    Seq::new(
        min_len(g.len()),
        |i: int| (g[i], if g[i] == tt { 1048576i32 } else { capture_score(board_at(n.pos), h, g[i]) as i32 }),
    )
}

/// The first of the greatest values among the items from `lo` up to `hi`.
pub open spec fn first_max(s: Seq<(Move, i32)>, lo: int, hi: int) -> int
    decreases hi - lo,
{
    if hi <= lo + 1 {
        lo
    } else {
        let b = first_max(s, lo, hi - 1);
        if s[hi - 1].1 > s[b].1 { hi - 1 } else { b }
    }
}

/// The first best item lies in its range, is worth at least every item
/// there and more than every item before it.
pub proof fn lemma_first_max(s: Seq<(Move, i32)>, lo: int, hi: int)
    requires
        0 <= lo < hi <= s.len(),
    ensures
        lo <= first_max(s, lo, hi) < hi,
        forall|k: int| lo <= k < hi ==> #[trigger] s[k].1 <= s[first_max(s, lo, hi)].1,
        forall|k: int| lo <= k < first_max(s, lo, hi) ==> #[trigger] s[k].1 < s[first_max(s, lo, hi)].1,
    decreases hi - lo,
{
    if hi > lo + 1 {
        lemma_first_max(s, lo, hi - 1);
    }
}

/// The first best item is the one a selection sort picks.
pub proof fn lemma_first_best_is_first_max(s: Seq<(Move, i32)>, lo: int, j: int)
    requires
        0 <= lo,
        first_best(s, lo, j),
    ensures
        j == first_max(s, lo, s.len() as int),
{
    lemma_first_max(s, lo, s.len() as int);
    let f = first_max(s, lo, s.len() as int);
    if f < j {
        assert(s[f].1 < s[j].1);
    } else if j < f {
        assert(s[j].1 < s[f].1);
    }
}

/// The order in which a selection sort hands out the items of `s` from
/// `lo` on: the first best, then the rest after swapping it forward.
pub open spec fn handout_order(s: Seq<(Move, i32)>, lo: int) -> Seq<Move>
    decreases s.len() - lo,
{
    if lo < 0 || lo >= s.len() {
        Seq::empty()
    } else {
        let j = first_max(s, lo, s.len() as int);
        proof {
            lemma_first_max(s, lo, s.len() as int);
        }
        seq![s[j].0] + handout_order(s.update(j, s[lo]).update(lo, s[j]), lo + 1)
    }
}

/// The stand-pat value of position `p`: its evaluation where the blend
/// fits the engine's arithmetic, else 0.
pub open spec fn stand_value(p: Position) -> i16 {
    if eval_fits(p.phase, p.mg, p.eg) {
        crate::chess::board::evaluation::eval_spec(p.phase, p.mg, p.eg, p.turn)
    } else {
        0
    }
}

/// The quiescence search's value of node `n` with table `t`, histories `h`
/// and abort flag `abort` in the window (`alpha`, `beta`), fail-hard: 0 for
/// a draw; a stored score that settles it; `beta` when standing pat reaches
/// it; otherwise the better of `alpha` and standing pat, raised by the
/// table's capture and then by the captures in their sorted order, each
/// answered by the negated value of the position it leads to, stopping at
/// `beta` (and at 0 after a capture when the search is aborted).
pub open spec fn qs_value(n: Node, t: TTable, h: HistroyT, abort: bool, alpha: i16, beta: i16) -> i16
    decreases (GAME_POSITIONS_SIZE - n.positions.len()) as nat, 1nat, 0nat,
{
    if will_draw_spec(n.pos.halfmoves, n.pos.hash, n.positions) {
        0
    } else {
        match table_entry(t, n.pos.hash) {
            Some(e) if settled_by(e, alpha, beta, 0, false) is Some => settled_by(e, alpha, beta, 0, false)->Some_0,
            _ => {
                let sp = stand_value(n.pos);
                if sp >= beta {
                    beta
                } else {
                    let a0 = if alpha < sp { sp } else { alpha };
                    let tt = table_move(t, n.pos.hash);
                    let order = handout_order(capture_list(n, h, tt), 0);
                    if tt != Move(0) && tt.flag_bits() & 4 != 0 && n.positions.len() < GAME_POSITIONS_SIZE && plays(n, tt) {
                        proof {
                            reveal(child);
                        }
                        let score = neg_spec(qs_value(child(n, tt), t, h, abort, neg_spec(beta), neg_spec(a0)));
                        if score >= beta {
                            beta
                        } else {
                            qs_fold(n, t, h, abort, if score > a0 { score } else { a0 }, beta, order)
                        }
                    } else {
                        qs_fold(n, t, h, abort, a0, beta, order)
                    }
                }
            },
        }
    }
}

/// The captures `ms` of node `n` tried one after another from lower bound
/// `alpha` (see `qs_value`).
pub open spec fn qs_fold(n: Node, t: TTable, h: HistroyT, abort: bool, alpha: i16, beta: i16, ms: Seq<Move>) -> i16
    decreases (GAME_POSITIONS_SIZE - n.positions.len()) as nat, 0nat, ms.len(),
{
    if ms.len() == 0 {
        alpha
    } else {
        let m = ms[0];
        if n.positions.len() < GAME_POSITIONS_SIZE && plays(n, m) {
            proof {
                reveal(child);
            }
            let score = neg_spec(qs_value(child(n, m), t, h, abort, neg_spec(beta), neg_spec(alpha)));
            if score >= beta {
                beta
            } else if abort {
                0
            } else {
                qs_fold(n, t, h, abort, if score > alpha { score } else { alpha }, beta, ms.drop_first())
            }
        } else {
            qs_fold(n, t, h, abort, alpha, beta, ms.drop_first())
        }
    }
}

/// No listed move of node `n`, nor the move the table `t` holds for its
/// position, can be played there.
pub open spec fn no_move_plays(n: Node, t: TTable) -> bool {
    forall|m: Move|
        #![trigger plays(n, m)]
        (listed(n.pos, m) || m == table_move(t, n.pos.hash)) ==> !plays(n, m)
}

/// `a + b` clamped to the 16-bit range.
pub open spec fn sat16(v: int) -> i16 {
    if v > i16::MAX { i16::MAX } else if v < i16::MIN { i16::MIN } else { v as i16 }
}

pub fn sat_add(a: i16, b: i16) -> (r: i16)
    ensures
        r == sat16(a + b),
{
    let v = a as i32 + b as i32;
    if v > 32767 {
        32767
    } else if v < -32768 {
        -32768
    } else {
        v as i16
    }
}

pub fn sat_mul(a: i16, b: i16) -> (r: i16)
    ensures
        r == sat16(a * b),
{
    let x = a as i32;
    let y = b as i32;
    assert(-1073741824 <= x * y <= 1073741824) by (nonlinear_arith)
        requires
            -32768 <= x <= 32767,
            -32768 <= y <= 32767,
    ;
    let v = x * y;
    if v > 32767 {
        32767
    } else if v < -32768 {
        -32768
    } else {
        v as i16
    }
}

/// `-x` with two's complement wrap-around.
pub fn neg(x: i16) -> (r: i16)
    ensures
        r == (if x == i16::MIN { i16::MIN } else { (-x) as i16 }),
{
    if x == -32768 {
        -32768
    } else {
        -x
    }
}

/// The bookkeeping of a running search: the moves on the current path, the
/// history tables, the limits, the age of new table entries, the node
/// counts, and whether the search was stopped.
pub struct SearchInfo {
    pub search_stack: SearchStack<MAX_SEARCH_DEPTH>,
    pub history_tables: HistroyT,
    pub restricitons: Restrictions,
    pub age: u8,
    pub nodes_searched: u64,
    pub timed_nodes: u64,
    pub abort: bool,
}

impl SearchInfo {
    pub open spec fn wf(&self) -> bool {
        self.search_stack.wf() && self.history_tables.wf()
    }

    pub fn new() -> (s: Self)
        ensures
            s.wf(),
            s.history_tables.all_zero(),
            s.search_stack@.len() == 0,
            s.age == 0,
            s.nodes_searched == 0,
            s.timed_nodes == 0,
            !s.abort,
    {
        SearchInfo {
            age: 0,
            nodes_searched: 0,
            timed_nodes: 0,
            abort: false,
            search_stack: SearchStack::new(),
            history_tables: HistroyT::new(),
            restricitons: Restrictions::new(),
        }
    }

    /// Forgets the history tables.
    pub fn clear_tables(&mut self)
        requires
            old(self).wf(),
        ensures
            final(self).wf(),
            final(self).history_tables.all_zero(),
            *final(self) == (SearchInfo { history_tables: final(self).history_tables, ..*old(self) }),
    {
        self.history_tables = HistroyT::new();
    }

    /// Starts a new search under `restricitons`.
    pub fn reset(&mut self, restricitons: Restrictions)
        requires
            old(self).wf(),
        ensures
            final(self).wf(),
            final(self).nodes_searched == 0,
            final(self).timed_nodes == 0,
            !final(self).abort,
            final(self).restricitons == restricitons,
            final(self).search_stack@.len() == 0,
            final(self).age == old(self).age,
    {
        self.nodes_searched = 0;
        self.timed_nodes = 0;
        self.abort = false;
        self.restricitons = restricitons;
        self.search_stack = SearchStack::new();
    }

    pub fn push(&mut self, item: StackItem)
        requires
            old(self).wf(),
            old(self).search_stack@.len() < MAX_SEARCH_DEPTH,
            item.moved_piece < 12,
        ensures
            final(self).wf(),
            final(self).search_stack@ == old(self).search_stack@.push(item),
            final(self).history_tables == old(self).history_tables,
            final(self).abort == old(self).abort,
    {
        self.search_stack.push(item);
    }

    /// Whether the path holds as many moves as the stack can take.
    pub fn search_stack_full(&self) -> (r: bool)
        ensures
            r == (self.search_stack@.len() > MAX_SEARCH_DEPTH - 1),
    {
        self.search_stack.len() > MAX_SEARCH_DEPTH - 1
    }

    pub fn pop(&mut self)
        requires
            old(self).wf(),
            old(self).search_stack@.len() > 0,
        ensures
            final(self).wf(),
            final(self).search_stack@ == old(self).search_stack@.drop_last(),
            final(self).history_tables == old(self).history_tables,
            final(self).abort == old(self).abort,
    {
        self.search_stack.pop();
    }

    /// Counts a node (the counters wrap around).
    pub fn increment_nodes(&mut self)
        ensures
            final(self).timed_nodes == old(self).timed_nodes.wrapping_add(1),
            final(self).nodes_searched == old(self).nodes_searched.wrapping_add(1),
            final(self).search_stack == old(self).search_stack,
            final(self).history_tables == old(self).history_tables,
            final(self).abort == old(self).abort,
    {
        self.timed_nodes = self.timed_nodes.wrapping_add(1);
        self.nodes_searched = self.nodes_searched.wrapping_add(1);
    }

    /// Ages the table entries written from now on (wrapping around).
    pub fn increase_age(&mut self)
        ensures
            final(self).age == old(self).age.wrapping_add(1),
            final(self).search_stack == old(self).search_stack,
            final(self).history_tables == old(self).history_tables,
    {
        self.age = self.age.wrapping_add(1);
    }

    pub fn abort(&mut self)
        ensures
            final(self).abort,
            final(self).search_stack == old(self).search_stack,
            final(self).history_tables == old(self).history_tables,
    {
        self.abort = true;
    }

    pub fn reset_timed_nodes(&mut self)
        ensures
            final(self).timed_nodes == 0,
            final(self).search_stack == old(self).search_stack,
            final(self).history_tables == old(self).history_tables,
            final(self).abort == old(self).abort,
    {
        self.timed_nodes = 0;
    }

    pub fn punish_main(&mut self, quiets: &MoveList<MOVE_GEN_SIZE>, depth: u8, turn: Color)
        requires
            old(self).wf(),
            turn.is_side(),
        ensures
            final(self).wf(),
            *final(self) == (SearchInfo { history_tables: final(self).history_tables, ..*old(self) }),
            final(self).history_tables.main_history@ == apply_opts(
                old(self).history_tables.main_history@,
                quiets@.map_values(|m: Move| Some(main_idx(turn.idx(), m.from_num(), m.to_num()))),
                -depth_bonus(depth),
            ),
            final(self).history_tables.capture_history == old(self).history_tables.capture_history,
            final(self).history_tables.continuation_history == old(self).history_tables.continuation_history,
    {
        self.history_tables.punish_main(quiets, depth, turn);
    }

    /// Rewards the quiet move `m` of `turn` that cut off a search to depth `depth`.
    pub fn reward_main(&mut self, m: Move, depth: u8, turn: Color)
        requires
            old(self).wf(),
            turn.is_side(),
        ensures
            final(self).wf(),
            *final(self) == (SearchInfo { history_tables: final(self).history_tables, ..*old(self) }),
            ({
                let i = main_idx(turn.idx(), m.from_num(), m.to_num());
                final(self).history_tables.main_history@ == old(self).history_tables.main_history@.update(
                    i,
                    gravity(old(self).history_tables.main_history@[i] as int, depth_bonus(depth)) as i16,
                )
            }),
            final(self).history_tables.capture_history == old(self).history_tables.capture_history,
            final(self).history_tables.continuation_history == old(self).history_tables.continuation_history,
    {
        let bonus = depth_bonus_exec(depth);
        proof {
            let i = main_idx(turn.idx(), m.from_num(), m.to_num());
            m.lemma_parts();
            lemma_small_bonus(self.history_tables.main_history@[i] as int, bonus as int);
        }
        self.history_tables.main_history_update(m, bonus, turn.index());
    }

    pub fn reward_capture(&mut self, m: Move, board: &Board, depth: u8)
        requires
            old(self).wf(),
        ensures
            final(self).wf(),
            *final(self) == (SearchInfo { history_tables: final(self).history_tables, ..*old(self) }),
            final(self).history_tables.capture_history@ == apply_opts(old(self).history_tables.capture_history@, seq![capture_slot(*board, m)], depth_bonus(depth)),
            final(self).history_tables.main_history == old(self).history_tables.main_history,
            final(self).history_tables.continuation_history == old(self).history_tables.continuation_history,
    {
        self.history_tables.reward_capture(board, m, depth);
    }

    pub fn punish_captures(&mut self, captures: &MoveList<MOVE_GEN_SIZE>, board: &Board, depth: u8)
        requires
            old(self).wf(),
        ensures
            final(self).wf(),
            *final(self) == (SearchInfo { history_tables: final(self).history_tables, ..*old(self) }),
            final(self).history_tables.capture_history@ == apply_opts(
                old(self).history_tables.capture_history@,
                captures@.map_values(|m: Move| capture_slot(*board, m)),
                -depth_bonus(depth),
            ),
            final(self).history_tables.main_history == old(self).history_tables.main_history,
            final(self).history_tables.continuation_history == old(self).history_tables.continuation_history,
    {
        self.history_tables.punish_captures(captures, board, depth);
    }

    pub fn punish_continuation(&mut self, quiets: &MoveList<MOVE_GEN_SIZE>, board: &Board, depth: u8)
        requires
            old(self).wf(),
            forall|i: int| 0 <= i < quiets@.len() ==> #[trigger] quiets@[i].from_num() < 64,
        ensures
            final(self).wf(),
            *final(self) == (SearchInfo { history_tables: final(self).history_tables, ..*old(self) }),
            final(self).history_tables.continuation_history@ == apply_rows(
                old(self).history_tables.continuation_history@,
                Seq::new(
                    recent(old(self).search_stack@).len(),
                    |p: int|
                        quiets@.map_values(
                            |q: Move| cont_slot(recent(old(self).search_stack@), p, piece_w_color(*board, q.from_num()), q),
                        ),
                ),
                -depth_bonus(depth),
            ),
            final(self).history_tables.capture_history == old(self).history_tables.capture_history,
            final(self).history_tables.main_history == old(self).history_tables.main_history,
    {
        self.history_tables.punish_continuation(quiets, &self.search_stack, depth, board);
    }

    pub fn reward_continuation(&mut self, m: Move, depth: u8, piece: usize)
        requires
            old(self).wf(),
        ensures
            final(self).wf(),
            *final(self) == (SearchInfo { history_tables: final(self).history_tables, ..*old(self) }),
            final(self).history_tables.continuation_history@ == apply_opts(
                old(self).history_tables.continuation_history@,
                Seq::new(recent(old(self).search_stack@).len(), |p: int| cont_slot(recent(old(self).search_stack@), p, piece as nat, m)),
                depth_bonus(depth),
            ),
            final(self).history_tables.capture_history == old(self).history_tables.capture_history,
            final(self).history_tables.main_history == old(self).history_tables.main_history,
    {
        self.history_tables.reward_continuation(&self.search_stack, depth, m, piece);
    }
}

/// A board that keeps the position, histories and keys of another keeps its
/// soundness too.
pub proof fn lemma_same_state_wf(b: Board, o: Board)
    requires
        b.same_state(&o),
        o.wf(),
    ensures
        b.wf(),
{
}

impl Board {
    /// The evaluation, or 0 where it would not fit the engine's arithmetic.
    pub fn safe_eval(&self) -> (r: i16)
        ensures
            r == (if eval_fits(self.game_phase, self.eval_mg, self.eval_eg) {
                crate::chess::board::evaluation::eval_spec(self.game_phase, self.eval_mg, self.eval_eg, self.turn)
            } else {
                0
            }),
    {
        let phase = self.game_phase as i64;
        let mg = self.eval_mg as i64;
        let eg = self.eval_eg as i64;
        assert(-1073741824 <= phase * mg <= 1073741824) by (nonlinear_arith)
            requires
                -32768 <= phase <= 32767,
                -32768 <= mg <= 32767,
        ;
        assert(-1074528256 <= (24 - phase) * eg <= 1074528256) by (nonlinear_arith)
            requires
                -32768 <= phase <= 32767,
                -32768 <= eg <= 32767,
        ;
        let blend = phase * mg + (24 - phase) * eg;
        if -2147483648 <= blend && blend <= 2147483647 {
            self.eval()
        } else {
            0
        }
    }

    /// Whether the side to move is in check (no when it has no king).
    pub fn checked(&self) -> (r: bool)
        requires
            self.turn.is_side(),
        ensures
            r == (self.bb(self.turn.idx() * 6 + 5) != 0 && attacked(
                self.pos(),
                self.turn.other().idx(),
                lsb_num(self.bb(self.turn.idx() * 6 + 5)),
            )),
    {
        if self.piece_bb[self.turn.offset() + 5] == 0 {
            false
        } else {
            self.in_check()
        }
    }

    /// The histories have room for one more move.
    pub fn has_room(&self) -> (r: bool)
        ensures
            r == (self.undo_stack@.len() < GAME_POSITIONS_SIZE && self.positions@.len() < GAME_POSITIONS_SIZE),
    {
        self.undo_stack.len() < GAME_POSITIONS_SIZE && self.positions.len() < GAME_POSITIONS_SIZE
    }
}

/// The search with a transposition table: principal variation search with
/// aspiration windows, null-move pruning, probcut, razoring, futility
/// pruning, late move reductions and a quiescence search.
pub struct NegamaxTT {
    pub ttable: TTable,
    pub info: SearchInfo,
    pub lmr: Vec<u8>,
}

impl NegamaxTT {
    pub const CHECK_TIME_NODES: u64 = 25000;

    pub open spec fn wf(&self) -> bool {
        &&& self.ttable.wf()
        &&& self.info.wf()
        &&& self.lmr@.len() == MAX_SEARCH_DEPTH * MOVE_GEN_SIZE
    }

    /// A search with a table of at least `ttsize` buckets and the late move
    /// reductions `reductions` (by depth, then by move number).
    pub fn new(ttsize: usize, reductions: Vec<u8>) -> (s: Self)
        requires
            ttsize <= 0x4000_0000,
            reductions@.len() == MAX_SEARCH_DEPTH * MOVE_GEN_SIZE,
        ensures
            s.wf(),
            s.lmr@ == reductions@,
            is_pow2(s.ttable.size as nat),
            s.ttable.size >= ttsize,
            s.ttable.size == 1 || s.ttable.size / 2 < ttsize,
            forall|i: int| 0 <= i < s.ttable.size ==> #[trigger] s.ttable.table@[i]@ == Seq::new(4, |k: int| TTableEntry::empty_spec()),
            s.info.search_stack@.len() == 0,
            s.info.history_tables.all_zero(),
            s.info.age == 0,
            s.info.nodes_searched == 0,
            !s.info.abort,
    {
        NegamaxTT { ttable: TTable::new(ttsize), info: SearchInfo::new(), lmr: reductions }
    }

    /// Forgets the table and the history tables.
    pub fn clear(&mut self)
        requires
            old(self).wf(),
        ensures
            final(self).wf(),
            final(self).ttable.size == old(self).ttable.size,
            forall|i: int| 0 <= i < final(self).ttable.size ==> #[trigger] final(self).ttable.table@[i]@ == Seq::new(4, |k: int| TTableEntry::empty_spec()),
            final(self).info.history_tables.all_zero(),
            final(self).info == (SearchInfo { history_tables: final(self).info.history_tables, ..old(self).info }),
            final(self).lmr == old(self).lmr,
    {
        self.ttable.clear();
        self.info.clear_tables();
    }

    pub fn change_hash_size(&mut self, size: usize)
        requires
            old(self).wf(),
            size <= 0x4000_0000,
        ensures
            final(self).wf(),
            is_pow2(final(self).ttable.size as nat),
            final(self).ttable.size >= size,
            final(self).ttable.size == 1 || final(self).ttable.size / 2 < size,
            forall|i: int| 0 <= i < final(self).ttable.size ==> #[trigger] final(self).ttable.table@[i]@ == Seq::new(4, |k: int| TTableEntry::empty_spec()),
            final(self).info == old(self).info,
            final(self).lmr == old(self).lmr,
    {
        self.ttable = TTable::new(size);
    }

    pub fn new_search_turn(&mut self)
        requires
            old(self).wf(),
        ensures
            final(self).wf(),
            final(self).info.age == old(self).info.age.wrapping_add(1),
    {
        self.info.increase_age();
    }

    /// The next aspiration window after `window` failed.
    pub fn get_new_window(window: i16) -> (r: i16)
        ensures
            r == (if window == 33 { 104 } else { POSITIVE_INFINITY }),
    {
        if window == FIRST_WINDOW() {
            SECOND_WINDOW()
        } else {
            POSITIVE_INFINITY
        }
    }

    /// The late move reduction at `depth` for the `move_count`-th move.
    #[allow(non_snake_case)]
    pub fn get_LMR_reduction(&self, depth: u8, move_count: usize) -> (r: u8)
        requires
            self.wf(),
            depth < MAX_SEARCH_DEPTH,
            move_count < MOVE_GEN_SIZE,
        ensures
            r == self.lmr@[depth * MOVE_GEN_SIZE + move_count],
    {
        self.lmr[depth as usize * MOVE_GEN_SIZE + move_count]
    }

    /// The move stored for the position of `board` (no move if none).
    pub fn get_hash_move(&self, board: &Board) -> (r: Move)
        requires
            self.wf(),
        ensures
            r == (match slot_of(self.ttable.table@[self.ttable.index_of(board.hash)]@, board.hash) {
                Some(i) => self.ttable.table@[self.ttable.index_of(board.hash)]@[i as int].best_move,
                None => Move(0),
            }),
    {
        match self.ttable.get(board.hash) {
            Some(entry) => entry.best_move,
            None => Move(0),
        }
    }

    /// The stored score that settles the search of a node, if any: at least
    /// as deep, and outside a principal variation; an exact score always, a
    /// lower bound at or above `beta`, an upper bound at or below `alpha`.
    pub fn table_value(entry: &TTableEntry, alpha: i16, beta: i16, depth: u8, is_pv: bool) -> (r: Option<i16>)
        ensures
            r == settled_by(*entry, alpha, beta, depth, is_pv),
    {
        if !is_pv && entry.depth >= depth {
            return match entry.ntype {
                Ntype::Exact => Some(entry.score),
                Ntype::Lower => if beta <= entry.score { Some(entry.score) } else { None },
                Ntype::Upper => if alpha >= entry.score { Some(entry.score) } else { None },
            };
        }
        None
    }

    /// Whether null-move pruning is tried at `depth`.
    pub fn nullmove_depth_possible(depth: u8) -> (r: bool)
        ensures
            r == (depth > depth / 3 + 3),
    {
        if depth <= depth / 3 + 3 {
            return false;
        }
        true
    }

    /// The reverse futility margin at `depth`.
    pub fn rfp_margin(depth: u8) -> (r: i16)
        ensures
            r == sat16(sat16(1 + depth * 31) + depth * 15),
    {
        let d = depth as i16;
        sat_add(sat_add(RFP_BIAS(), sat_mul(d, RFP_LINEAR())), sat_mul(d, RFP_QUADRATIC()))
    }

    /// The probcut margin at `depth`.
    pub fn prob_margin(depth: u8) -> (r: i16)
        ensures
            r == sat16(sat16(55 + depth * 10) + sat16(4 * (depth * depth))),
    {
        let d = depth as i16;
        let d32 = depth as i32;
        assert(0 <= d32 * d32 <= 65025) by (nonlinear_arith)
            requires
                0 <= d32 <= 255,
        ;
        let sq32 = d32 * d32;
        let sq: i16 = if sq32 > 32767 { 32767 } else { sq32 as i16 };
        proof {
            if d * d > 32767 {
                assert(sat16(4 * (depth * depth)) == 32767);
                assert(sat16(4 * 32767int) == 32767);
            }
        }
        sat_add(sat_add(PROB_BIAS(), sat_mul(PROB_LINEAR(), d)), sat_mul(PROB_QUADRATIC(), sq))
    }

    /// The razoring margin at `depth`.
    pub fn razoring_margin(depth: u8) -> (r: i16)
        requires
            depth <= 181,
        ensures
            r == sat16(sat16(414 + 167 * depth) + sat16(49 * (depth * depth))),
    {
        let d = depth as i16;
        assert(0 <= d * d <= 32761) by (nonlinear_arith)
            requires
                0 <= d <= 181,
        ;
        sat_add(sat_add(RAZORING_BIAS(), sat_mul(RAZORING_LINEAR(), d)), sat_mul(RAZORING_QUADRATIC(), d * d))
    }

    /// The futility margin at `depth`.
    pub fn futility_margin(depth: u8) -> (r: i16)
        requires
            depth <= 181,
        ensures
            r == sat16(sat16(3 + 22 * depth) + sat16(3 * (depth * depth))),
    {
        let d = depth as i16;
        assert(0 <= d * d <= 32761) by (nonlinear_arith)
            requires
                0 <= d <= 181,
        ;
        sat_add(sat_add(FUTILITY_BIAS(), sat_mul(FUTILITY_LINEAR(), d)), sat_mul(FUTILITY_QUADRATIC(), d * d))
    }

    /// Whether the limits stop the search here (and records that it was
    /// stopped); counts the node otherwise.
    fn out_of_budget<const LIMITS: u8>(&mut self) -> (r: bool)
        requires
            old(self).wf(),
        ensures
            final(self).wf(),
            final(self).ttable == old(self).ttable,
            final(self).lmr == old(self).lmr,
            final(self).info.search_stack == old(self).info.search_stack,
            final(self).info.history_tables == old(self).info.history_tables,
            r ==> final(self).info.abort,
            LIMITS == Restrictions::DEPTH ==> final(self).info.abort == old(self).info.abort && !r,
    {
        if LIMITS == Restrictions::TIME && self.info.timed_nodes > Self::CHECK_TIME_NODES {
            if later(now(), self.info.restricitons.end) {
                self.info.abort();
                return true;
            }
            self.info.reset_timed_nodes();
        }
        if LIMITS == Restrictions::NODES && self.info.nodes_searched >= self.info.restricitons.max_nodes {
            self.info.abort();
            return true;
        }
        self.info.increment_nodes();
        false
    }

    /// The quiescence search: the best of standing pat and the captures,
    /// searched until no capture is left. The board is left as it was.
    #[verifier::spinoff_prover]
    #[verifier::rlimit(100)]
    pub fn quiesence_search<const LIMITS: u8>(&mut self, board: &mut Board, alpha: i16, beta: i16) -> (r: i16)
        requires
            old(self).wf(),
            old(board).wf(),
        ensures
            final(self).wf(),
            final(board).same_state(old(board)),
            final(self).info.search_stack@ == old(self).info.search_stack@,
            final(self).ttable == old(self).ttable,
            final(self).info.history_tables == old(self).info.history_tables,
            LIMITS == Restrictions::DEPTH ==> final(self).info.abort == old(self).info.abort,
            will_draw_spec(old(board).halfmoves, old(board).hash, old(board).positions@) ==> r == 0,
            LIMITS == Restrictions::DEPTH ==> r == qs_value(
                old(board).node(),
                old(self).ttable,
                old(self).info.history_tables,
                old(self).info.abort,
                alpha,
                beta,
            ),
        decreases GAME_POSITIONS_SIZE - old(board).positions@.len(),
    {
        let ghost n0 = board.node();
        let ghost t0 = self.ttable;
        let ghost h0 = self.info.history_tables;
        let ghost ab = self.info.abort;
        let ghost target = qs_value(n0, t0, h0, ab, alpha, beta);
        if self.out_of_budget::<LIMITS>() {
            return 0;
        }
        if board.position_will_draw() {
            return 0;
        }
        let mut low = alpha;
        let mut tt_move = Move(0);
        match self.ttable.get(board.hash) {
            Some(entry) => {
                let e = *entry;
                if let Some(val) = Self::table_value(&e, low, beta, 0, false) {
                    return val;
                }
                tt_move = e.best_move;
            },
            None => {},
        }
        let stand_part = board.safe_eval();
        if stand_part >= beta {
            return beta;
        }
        if low < stand_part {
            low = stand_part;
        }
        let ghost b0 = *board;
        let ghost order = handout_order(capture_list(n0, h0, tt_move), 0);
        proof {
            assert(tt_move == table_move(t0, n0.pos.hash));
            assert(stand_part == stand_value(n0.pos));
            assert(LIMITS == Restrictions::DEPTH ==> target == if tt_move != Move(0) && tt_move.flag_bits() & 4 != 0
                && n0.positions.len() < GAME_POSITIONS_SIZE && plays(n0, tt_move) {
                let score = neg_spec(qs_value(child(n0, tt_move), t0, h0, ab, neg_spec(beta), neg_spec(low)));
                if score >= beta {
                    beta
                } else {
                    qs_fold(n0, t0, h0, ab, if score > low { score } else { low }, beta, order)
                }
            } else {
                qs_fold(n0, t0, h0, ab, low, beta, order)
            });
        }
        if tt_move != Move(0) && tt_move.is_capture() && board.has_room() {
            let ghost p0 = board.pos();
            if board.try_play(tt_move) {
                proof {
                    reveal(plays);
                    reveal(child);
                    assert(plays(n0, tt_move));
                    assert(board.positions@ =~= n0.positions.push(board.hash));
                    assert(board.node() == child(n0, tt_move));
                }
                let score = neg(self.quiesence_search::<LIMITS>(board, neg(beta), neg(low)));
                board.take_back(tt_move, Ghost(p0));
                assert(board.undo_stack@ =~= b0.undo_stack@);
                assert(board.positions@ =~= b0.positions@);
                proof {
                    lemma_same_state_wf(*board, b0);
                }
                if score >= beta {
                    return beta;
                }
                if score > low {
                    low = score;
                }
            } else {
                proof {
                    reveal(plays);
                }
            }
        } else {
            proof {
                reveal(plays);
            }
        }
        let mut captures = AdvancedSorting::sort_only_captures(board, tt_move, &self.info.history_tables);
        proof {
            assert(board.pos() == n0.pos);
            let bq = board_at(n0.pos);
            assert(bq.pos() == n0.pos);
            assert forall|k: int| 0 <= k < captures@.len() implies #[trigger] captures@[k] == capture_list(n0, h0, tt_move)[k] by {
                lemma_capture_score_reads_position(*board, bq, h0, captures@[k].0);
            }
            assert(captures@ =~= capture_list(n0, h0, tt_move));
        }
        loop
            invariant
                self.wf(),
                board.same_state(&b0),
                b0 == *old(board),
                n0 == old(board).node(),
                board.wf(),
                self.info.search_stack@ == old(self).info.search_stack@,
                self.ttable == t0,
                self.info.history_tables == h0,
                t0 == old(self).ttable,
                h0 == old(self).info.history_tables,
                ab == old(self).info.abort,
                LIMITS == Restrictions::DEPTH ==> self.info.abort == ab,
                captures.wf(),
                target == qs_value(n0, t0, h0, ab, alpha, beta),
                !will_draw_spec(b0.halfmoves, b0.hash, b0.positions@),
                LIMITS == Restrictions::DEPTH ==> qs_fold(n0, t0, h0, ab, low, beta, handout_order(captures@, captures.search_index as int))
                    == target,
            ensures
                captures.search_index == captures@.len(),
            decreases captures@.len() - captures.search_index,
        {
            let ghost l0 = captures@;
            let ghost lo = captures.search_index as int;
            let item = match captures.selection_sort_next() {
                Some(item) => item,
                None => {
                    break;
                },
            };
            let m = item.0;
            proof {
                let j = choose|j: int| #![trigger l0[j]] first_best(l0, lo, j) && Some(item) == Some(l0[j])
                    && captures@ == handed_out(l0, lo, j);
                lemma_first_best_is_first_max(l0, lo, j);
                assert(handout_order(l0, lo) == seq![m] + handout_order(captures@, lo + 1));
                assert((seq![m] + handout_order(captures@, lo + 1))[0] == m);
                assert((seq![m] + handout_order(captures@, lo + 1)).drop_first() =~= handout_order(captures@, lo + 1));
            }
            if board.has_room() {
                let ghost p0 = board.pos();
                let ghost bb = *board;
                if board.try_play(m) {
                    proof {
                        reveal(plays);
                        reveal(child);
                        assert(plays(n0, m));
                        assert(board.positions@ =~= n0.positions.push(board.hash));
                        assert(board.node() == child(n0, m));
                    }
                    let score = neg(self.quiesence_search::<LIMITS>(board, neg(beta), neg(low)));
                    board.take_back(m, Ghost(p0));
                    assert(board.undo_stack@ =~= bb.undo_stack@);
                    assert(board.positions@ =~= bb.positions@);
                    proof {
                        lemma_same_state_wf(*board, b0);
                    }
                    if score >= beta {
                        return beta;
                    }
                    if self.info.abort {
                        return 0;
                    }
                    if score > low {
                        low = score;
                    }
                } else {
                    proof {
                        reveal(plays);
                    }
                }
            } else {
                proof {
                    reveal(plays);
                }
            }
        }
        proof {
            assert(handout_order(captures@, captures.search_index as int) == Seq::<Move>::empty());
        }
        low
    }
}

/// A capture's ordering score reads the board's position alone.
pub proof fn lemma_capture_score_reads_position(b1: Board, b2: Board, h: HistroyT, m: Move)
    requires
        b1.pos() == b2.pos(),
    ensures
        capture_score(b1, h, m) == capture_score(b2, h, m),
{
    assert(b1.piece@ == b2.piece@);
    assert(b1.piece_bb@ == b2.piece_bb@);
    assert(b1.color_bb@ == b2.color_bb@);
}

/// `a - b` clamped to the 16-bit range.
pub fn sat_sub(a: i16, b: i16) -> (r: i16)
    ensures
        r == sat16(a - b),
{
    let v = a as i32 - b as i32;
    if v > 32767 {
        32767
    } else if v < -32768 {
        -32768
    } else {
        v as i16
    }
}

impl NegamaxTT {
    /// Searches the position of `board` to `depth` within the window
    /// (`alpha`, `beta`), `ply` moves from the root. The board is left as it
    /// was, and so is the path of moves.
    #[verifier::spinoff_prover]
    #[verifier::rlimit(100)]
    pub fn negamax_p<const LIMITS: u8>(
        &mut self,
        board: &mut Board,
        depth: u8,
        alpha: i16,
        beta: i16,
        ply: usize,
        made_nullmove: bool,
        in_check: bool,
    ) -> (r: i16)
        requires
            old(self).wf(),
            old(board).wf(),
        ensures
            final(self).wf(),
            final(board).same_state(old(board)),
            final(self).info.search_stack@ == old(self).info.search_stack@,
            LIMITS == Restrictions::DEPTH ==> final(self).info.abort == old(self).info.abort,
            will_draw_spec(old(board).halfmoves, old(board).hash, old(board).positions@) ==> r == 0,
            LIMITS == Restrictions::DEPTH && !old(self).info.abort && !will_draw_spec(
                old(board).halfmoves,
                old(board).hash,
                old(board).positions@,
            ) ==> match table_entry(old(self).ttable, old(board).hash) {
                Some(e) if settled_by(e, alpha, beta, depth, sat16(beta - alpha) > 1) is Some => r == settled_by(
                    e,
                    alpha,
                    beta,
                    depth,
                    sat16(beta - alpha) > 1,
                )->Some_0,
                _ => {
                    &&& depth == 0 ==> r == qs_value(
                        old(board).node(),
                        old(self).ttable,
                        old(self).info.history_tables,
                        old(self).info.abort,
                        alpha,
                        beta,
                    )
                    &&& depth >= 1 && in_check && old(self).info.search_stack@.len() < MAX_SEARCH_DEPTH && no_move_plays(
                        old(board).node(),
                        old(self).ttable,
                    ) ==> r == CHECK_MATE
                },
            },
        decreases GAME_POSITIONS_SIZE - old(board).positions@.len(), depth,
    {
        let ghost n0 = board.node();
        let ghost mated = LIMITS == Restrictions::DEPTH && !self.info.abort && depth >= 1 && in_check
            && no_move_plays(n0, self.ttable);
        if self.out_of_budget::<LIMITS>() {
            return 0;
        }
        if board.position_will_draw() {
            return 0;
        }
        let mut low = alpha;
        let is_pv = sat_sub(beta, low) > 1;
        let mut tt_move = Move(0);
        match self.ttable.get(board.hash) {
            Some(entry) => {
                let e = *entry;
                if let Some(val) = Self::table_value(&e, low, beta, depth, is_pv) {
                    return val;
                }
                tt_move = e.best_move;
            },
            None => {},
        }
        if depth == 0 || self.info.search_stack_full() {
            self.info.nodes_searched = self.info.nodes_searched.wrapping_sub(1);
            return self.quiesence_search::<LIMITS>(board, low, beta);
        }
        let has_heavy_material = !board.only_king_and_pawns();
        let static_eval = board.safe_eval();
        let ghost b0 = *board;
        if has_heavy_material && !in_check {
            if depth < 7 {
                let margin = Self::rfp_margin(depth);
                if beta < CHECK_MATE_THRESHOLD && static_eval >= beta.wrapping_add(margin) {
                    return static_eval;
                }
            }
            if !is_pv && !made_nullmove && Self::nullmove_depth_possible(depth) && board.has_room() {
                let reduction = 3 + depth / 3;
                let ghost p0 = board.pos();
                board.make_nullmove();
                let val = neg(
                    self.negamax_p::<LIMITS>(
                        board,
                        depth - reduction,
                        neg(beta),
                        neg(beta).wrapping_add(1),
                        ply.wrapping_add(1),
                        true,
                        false,
                    ),
                );
                board.unmake_nullmove();
                assert(board.undo_stack@ =~= b0.undo_stack@);
                assert(board.positions@ =~= b0.positions@);
                proof {
                    lemma_same_state_wf(*board, b0);
                }
                if self.info.abort {
                    return 0;
                }
                if val >= beta {
                    return val;
                }
            }
        }
        if !in_check && !is_pv {
            if depth >= PROB_MIN_DEPTH() {
                let margin = Self::prob_margin(depth);
                let prob_cut_beta = sat_add(beta, margin);
                let prob_cut_alpha = prob_cut_beta.wrapping_sub(1);
                let shallow_eval = self.negamax_p::<LIMITS>(
                    board,
                    depth.saturating_sub(PROB_DEPTH_REDUCTION()),
                    prob_cut_alpha,
                    prob_cut_beta,
                    ply,
                    made_nullmove,
                    false,
                );
                proof {
                    lemma_same_state_wf(*board, b0);
                }
                if shallow_eval >= prob_cut_beta {
                    return beta;
                }
            }
            if depth <= RAZORING_MAX_DEPTH() {
                let razor_margin = Self::razoring_margin(depth);
                if sat_add(static_eval, razor_margin) < low {
                    let q_eval = self.quiesence_search::<LIMITS>(board, low.wrapping_sub(1), low);
                    proof {
                        lemma_same_state_wf(*board, b0);
                    }
                    if q_eval < low {
                        return q_eval;
                    }
                }
            }
        }
        let mut ntype = Ntype::Upper;
        let mut best_move = Move(0);
        let mut sorter = AdvancedSorting::new(tt_move);
        proof {
            if mated {
                reveal(plays);
                assert forall|x: Move| #[trigger] sorter.pending(n0.pos, x) implies !plays(n0, x) by {
                    assert(listed(n0.pos, x) || x == table_move(old(self).ttable, old(board).hash));
                }
            }
        }
        let current_turn = board.turn;
        let mut num_moves_played: usize = 0;
        let mut first_move = true;
        let mut quiets_played: MoveList<MOVE_GEN_SIZE> = MoveList::new();
        let mut captures_played: MoveList<MOVE_GEN_SIZE> = MoveList::new();
        let depth_lmr = depth >= LMR_MIN_DEPTH();
        loop
            invariant
                self.wf(),
                board.same_state(&b0),
                LIMITS == Restrictions::DEPTH ==> self.info.abort == old(self).info.abort,
                b0 == *old(board),
                !will_draw_spec(b0.halfmoves, b0.hash, b0.positions@),
                board.wf(),
                current_turn == board.turn,
                self.info.search_stack@ == old(self).info.search_stack@,
                self.info.search_stack@.len() < MAX_SEARCH_DEPTH,
                sorter.wf(),
                depth >= 1,
                forall|i: int| 0 <= i < quiets_played@.len() ==> #[trigger] quiets_played@[i].from_num() < 64,
                table_entry(old(self).ttable, old(board).hash) matches Some(e) ==> settled_by(
                    e,
                    alpha,
                    beta,
                    depth,
                    sat16(beta - alpha) > 1,
                ) is None,
                n0 == old(board).node(),
                mated == (LIMITS == Restrictions::DEPTH && !old(self).info.abort && depth >= 1 && in_check && no_move_plays(
                    n0,
                    old(self).ttable,
                )),
                mated ==> num_moves_played == 0,
                mated ==> forall|x: Move| #[trigger] sorter.pending(n0.pos, x) ==> !plays(n0, x),
            decreases sorter_measure(sorter),
        {
            let ghost s0 = sorter;
            let next = sorter.next(board, &self.info.history_tables, &self.info.search_stack);
            let m = match next {
                Some(m) => m,
                None => {
                    break;
                },
            };
            proof {
                if mated {
                    assert(!plays(n0, m));
                    assert forall|x: Move| #[trigger] sorter.pending(n0.pos, x) implies !plays(n0, x) by {
                        assert(s0.pending(n0.pos, x));
                    }
                }
            }
            proof {
                m.lemma_parts();
            }
            let moved_piece = board.get_piece_w_color(m.from());
            if moved_piece < 12 && board.has_room() {
                let ghost p0 = board.pos();
                let ghost bb = *board;
                if board.try_play(m) {
                    proof {
                        reveal(plays);
                        assert(plays(n0, m));
                    }
                    let is_quiet = m.is_quiet();
                    let gives_check = board.checked();
                    let is_capture = m.is_capture();
                    self.info.push(StackItem::new(m, moved_piece));
                    if is_quiet {
                        quiets_played.push(m);
                    }
                    if is_capture {
                        captures_played.push(m);
                    }
                    num_moves_played = num_moves_played.wrapping_add(1);
                    let mut pruned = false;
                    if !in_check && !gives_check && !is_pv && is_quiet && depth < FUTILITY_DEPTH() && low
                        < CHECK_MATE_THRESHOLD {
                        let margin = Self::futility_margin(depth);
                        if static_eval.wrapping_add(margin) < low {
                            pruned = true;
                        }
                    }
                    if pruned {
                        board.take_back(m, Ghost(p0));
                        self.info.pop();
                        quiets_played.pop();
                        assert(board.undo_stack@ =~= bb.undo_stack@);
                        assert(board.positions@ =~= bb.positions@);
                        assert(self.info.search_stack@ =~= old(self).info.search_stack@);
                        proof {
                            lemma_same_state_wf(*board, b0);
                        }
                    } else {
                        let extension: u8 = if gives_check && ply < CHECK_EXTENSION_MAX_PLY() { 1 } else { 0 };
                        let new_depth = depth - 1 + extension;
                        let mut needs_full_search = true;
                        let mut value: i16 = 0;
                        if !is_pv && num_moves_played > LMR_NUM_MOVES_PLAYED() && is_quiet && depth_lmr && !in_check
                            && !gives_check {
                            let mut reduction: u8 = if (depth as usize) < MAX_SEARCH_DEPTH && num_moves_played
                                < MOVE_GEN_SIZE {
                                self.get_LMR_reduction(depth, num_moves_played)
                            } else {
                                0
                            };
                            let history_score = self.info.history_tables.main_val(current_turn, m);
                            if history_score > HISTORY_EXTENSION_SCORE() {
                                reduction = reduction.saturating_sub(1);
                            } else {
                                reduction = reduction.wrapping_add(1);
                            }
                            let reduced_depth = depth.saturating_sub(1u8.wrapping_add(reduction));
                            value = neg(
                                self.negamax_p::<LIMITS>(
                                    board,
                                    reduced_depth,
                                    neg(low).wrapping_sub(1),
                                    neg(low),
                                    ply.wrapping_add(1),
                                    false,
                                    false,
                                ),
                            );
                            if value <= low {
                                needs_full_search = false;
                            }
                        }
                        if needs_full_search {
                            if first_move {
                                value = neg(
                                    self.negamax_p::<LIMITS>(
                                        board,
                                        new_depth,
                                        neg(beta),
                                        neg(low),
                                        ply.wrapping_add(1),
                                        false,
                                        gives_check,
                                    ),
                                );
                                first_move = false;
                            } else {
                                value = neg(
                                    self.negamax_p::<LIMITS>(
                                        board,
                                        new_depth,
                                        neg(low).wrapping_sub(1),
                                        neg(low),
                                        ply.wrapping_add(1),
                                        false,
                                        gives_check,
                                    ),
                                );
                                if value > low && value < beta {
                                    value = neg(
                                        self.negamax_p::<LIMITS>(
                                            board,
                                            new_depth,
                                            neg(beta),
                                            neg(value),
                                            ply.wrapping_add(1),
                                            false,
                                            gives_check,
                                        ),
                                    );
                                }
                            }
                        }
                        board.take_back(m, Ghost(p0));
                        self.info.pop();
                        assert(board.undo_stack@ =~= bb.undo_stack@);
                        assert(board.positions@ =~= bb.positions@);
                        assert(self.info.search_stack@ =~= old(self).info.search_stack@);
                        proof {
                            lemma_same_state_wf(*board, b0);
                        }
                        if self.info.abort {
                            return 0;
                        }
                        if value >= beta {
                            self.ttable.insert(
                                TTableEntry {
                                    hash: board.hash,
                                    best_move: m,
                                    score: beta,
                                    depth: depth,
                                    ntype: Ntype::Lower,
                                    age: self.info.age,
                                },
                            );
                            if m.is_quiet() {
                                quiets_played.pop();
                                self.info.punish_main(&quiets_played, depth, current_turn);
                                self.info.reward_main(m, depth, current_turn);
                                self.info.punish_continuation(&quiets_played, board, depth);
                                self.info.reward_continuation(m, depth, moved_piece);
                            }
                            if m.is_capture() {
                                captures_played.pop();
                                self.info.punish_captures(&captures_played, board, depth);
                                self.info.reward_capture(m, board, depth);
                            }
                            return beta;
                        }
                        if value > low {
                            low = value;
                            best_move = m;
                            ntype = Ntype::Exact;
                        }
                    }
                }
            }
        }
        if num_moves_played == 0 {
            let res = board.result(in_check);
            self.ttable.insert(
                TTableEntry {
                    hash: board.hash,
                    best_move: if best_move != Move(0) { best_move } else { tt_move },
                    depth: depth,
                    score: res,
                    ntype: Ntype::Exact,
                    age: self.info.age,
                },
            );
            return res;
        }
        self.ttable.insert(
            TTableEntry {
                hash: board.hash,
                best_move: if best_move != Move(0) { best_move } else { tt_move },
                depth: depth,
                score: low,
                ntype: ntype,
                age: self.info.age,
            },
        );
        low
    }
}

/// How many more aspiration windows can follow `w`.
pub open spec fn windows_left(w: i16) -> nat {
    if w >= POSITIVE_INFINITY { 0 } else if w == 33 { 2 } else { 1 }
}

impl NegamaxTT {
    /// Searches the root position of `board` to `depth` in the aspiration
    /// window around `last_val` (`alpha_dec` below, `beta_inc` above),
    /// widening the window and searching again when the score falls outside.
    /// The board is left as it was. `None` when there is no legal move.
    #[verifier::spinoff_prover]
    #[verifier::rlimit(80)]
    pub fn negamax<const LIMITS: u8>(
        &mut self,
        board: &mut Board,
        depth: u8,
        restrcitions: Restrictions,
        alpha_dec: i16,
        beta_inc: i16,
        last_val: i16,
    ) -> (r: Option<SearchResult>)
        requires
            old(self).wf(),
            old(board).wf(),
            depth >= 1,
        ensures
            final(self).wf(),
            final(board).same_state(old(board)),
            r is Some ==> r->Some_0.depth == depth || r->Some_0.best_move == Move(0),
            r matches Some(res) ==> (res.depth == depth ==> plays(old(board).node(), res.best_move)),
            r is None ==> forall|m: Move| #[trigger] listed(old(board).pos(), m) ==> !plays(old(board).node(), m),
            LIMITS == Restrictions::DEPTH ==> (r matches Some(res) ==> res.best_move != Move(0)),
            r matches Some(res) && res.best_move == Move(0) ==> final(self).info.abort,
        decreases windows_left(alpha_dec) + windows_left(beta_inc),
    {
        let ghost n0 = board.node();
        self.info.reset(restrcitions);
        let a0 = sat_sub(last_val, alpha_dec);
        let window_alpha = if a0 > NEG_INFINITY { a0 } else { NEG_INFINITY };
        let b0v = sat_add(last_val, beta_inc);
        let window_beta = if b0v < POSITIVE_INFINITY { b0v } else { POSITIVE_INFINITY };
        let mut alpha = window_alpha;
        let beta = window_beta;
        let tt_move = self.get_hash_move(board);
        let mut sorter = AdvancedSorting::new(tt_move);
        let mut ntype = Ntype::Upper;
        let mut best_move = Move(0);
        let mut any_move = Move(0);
        let mut first_move = true;
        let mut quiets_played: MoveList<MOVE_GEN_SIZE> = MoveList::new();
        let mut captures_played: MoveList<MOVE_GEN_SIZE> = MoveList::new();
        let current_turn = board.turn;
        let ghost b0 = *board;
        proof {
            assert forall|x: Move| #[trigger] listed(n0.pos, x) && x != Move(0) && plays(n0, x) implies sorter.pending(
                n0.pos,
                x,
            ) by {}
        }
        loop
            invariant
                self.wf(),
                board.same_state(&b0),
                b0 == *old(board),
                board.wf(),
                current_turn == board.turn,
                self.info.search_stack@.len() == 0,
                sorter.wf(),
                depth >= 1,
                forall|i: int| 0 <= i < quiets_played@.len() ==> #[trigger] quiets_played@[i].from_num() < 64,
                n0 == old(board).node(),
                best_move != Move(0) ==> plays(n0, best_move),
                any_move != Move(0) ==> plays(n0, any_move),
                sorter.tt_move == tt_move,
                LIMITS == Restrictions::DEPTH ==> !self.info.abort,
                any_move == Move(0) ==> forall|x: Move| #[trigger] listed(n0.pos, x) && x != Move(0) && plays(n0, x)
                    ==> sorter.pending(n0.pos, x),
            ensures
                any_move == Move(0) ==> sorter.stage == MoveGenStage::Done,
            decreases sorter_measure(sorter),
        {
            let ghost s0 = sorter;
            let next = sorter.next(board, &self.info.history_tables, &self.info.search_stack);
            let m = match next {
                Some(m) => m,
                None => {
                    break;
                },
            };
            proof {
                m.lemma_parts();
            }
            let moved_piece = board.get_piece_w_color(m.from());
            if moved_piece < 12 && board.has_room() {
                let ghost p0 = board.pos();
                let ghost bb = *board;
                if board.try_play(m) {
                    proof {
                        reveal(plays);
                        assert(plays(n0, m));
                        Move::lemma_no_move();
                        assert(m != Move(0));
                    }
                    self.info.push(StackItem::new(m, moved_piece));
                    if m.is_quiet() {
                        quiets_played.push(m);
                    } else if m.is_capture() {
                        captures_played.push(m);
                    }
                    let gives_check = board.checked();
                    let mut value: i16;
                    if first_move {
                        value = neg(
                            self.negamax_p::<LIMITS>(board, depth - 1, neg(beta), neg(alpha), 1, false, gives_check),
                        );
                        first_move = false;
                    } else {
                        value = neg(
                            self.negamax_p::<LIMITS>(
                                board,
                                depth - 1,
                                neg(alpha).wrapping_sub(1),
                                neg(alpha),
                                1,
                                false,
                                gives_check,
                            ),
                        );
                        if value > alpha && value < beta {
                            value = neg(
                                self.negamax_p::<LIMITS>(board, depth - 1, neg(beta), neg(value), 1, false, gives_check),
                            );
                        }
                    }
                    board.take_back(m, Ghost(p0));
                    self.info.pop();
                    assert(board.undo_stack@ =~= bb.undo_stack@);
                    assert(board.positions@ =~= bb.positions@);
                    proof {
                        lemma_same_state_wf(*board, b0);
                    }
                    if self.info.abort {
                        return Some(
                            SearchResult { nodes_searched: self.info.nodes_searched, best_move: Move(0), evaluation: 0, depth: 0 },
                        );
                    }
                    if value > alpha {
                        best_move = m;
                        alpha = value;
                        ntype = Ntype::Exact;
                    }
                    any_move = m;
                    if alpha >= beta {
                        if m.is_quiet() {
                            quiets_played.pop();
                            self.info.punish_main(&quiets_played, depth, current_turn);
                            self.info.reward_main(m, depth, current_turn);
                            self.info.punish_continuation(&quiets_played, board, depth);
                            self.info.reward_continuation(m, depth, moved_piece);
                        } else if m.is_capture() {
                            captures_played.pop();
                            self.info.reward_capture(m, board, depth);
                            self.info.punish_captures(&captures_played, board, depth);
                        }
                        break;
                    }
                }
            }
            proof {
                if any_move == Move(0) {
                    reveal(plays);
                    assert forall|x: Move| #[trigger] listed(n0.pos, x) && x != Move(0) && plays(n0, x) implies sorter.pending(
                        n0.pos,
                        x,
                    ) by {
                        assert(s0.pending(n0.pos, x));
                        if x == m {
                            assert(n0.pos.piece[m.from_num() as int].idx() < 6);
                        }
                    }
                }
            }
        }
        if alpha <= window_alpha && alpha_dec < POSITIVE_INFINITY {
            let outer_nodes = self.info.nodes_searched;
            self.info.restricitons.max_nodes = self.info.restricitons.max_nodes.saturating_sub(self.info.nodes_searched);
            let res = self.negamax::<LIMITS>(
                board,
                depth,
                self.info.restricitons,
                Self::get_new_window(alpha_dec),
                beta_inc,
                last_val,
            );
            return match res {
                Some(r) => Some(SearchResult { nodes_searched: r.nodes_searched.wrapping_add(outer_nodes), ..r }),
                None => None,
            };
        }
        if alpha >= window_beta && beta_inc < POSITIVE_INFINITY {
            let outer_nodes = self.info.nodes_searched;
            self.info.restricitons.max_nodes = self.info.restricitons.max_nodes.saturating_sub(self.info.nodes_searched);
            let res = self.negamax::<LIMITS>(
                board,
                depth,
                self.info.restricitons,
                alpha_dec,
                Self::get_new_window(beta_inc),
                last_val,
            );
            return match res {
                Some(r) => Some(SearchResult { nodes_searched: r.nodes_searched.wrapping_add(outer_nodes), ..r }),
                None => None,
            };
        }
        if any_move == Move(0) {
            proof {
                reveal(plays);
                Move::lemma_no_move();
                assert forall|x: Move| #[trigger] listed(old(board).pos(), x) implies !plays(old(board).node(), x) by {
                    if x != Move(0) && plays(n0, x) {
                        assert(sorter.pending(n0.pos, x));
                    }
                }
            }
            let res = board.result(board.checked());
            self.ttable.insert(
                TTableEntry {
                    hash: board.hash,
                    best_move: if best_move != Move(0) { best_move } else { tt_move },
                    depth: depth,
                    score: res,
                    ntype: Ntype::Exact,
                    age: self.info.age,
                },
            );
            return None;
        }
        self.ttable.insert(
            TTableEntry {
                hash: board.hash,
                best_move: if best_move != Move(0) { best_move } else { tt_move },
                depth: depth,
                score: alpha,
                ntype: ntype,
                age: self.info.age,
            },
        );
        if best_move != Move(0) {
            return Some(SearchResult { best_move: best_move, evaluation: alpha, nodes_searched: self.info.nodes_searched, depth: depth });
        }
        Some(SearchResult { best_move: any_move, evaluation: alpha, nodes_searched: self.info.nodes_searched, depth: depth })
    }
}

/// A plain alpha-beta search without a table.
pub struct Negamax {
    pub nodes_searched: u64,
}

impl Negamax {
    pub fn new() -> (n: Self)
        ensures
            n.nodes_searched == 0,
    {
        Negamax { nodes_searched: 0 }
    }

    /// Searches the root of `board` to `depth` (at least 1); the board is
    /// left as it was. Where every static value met lies strictly between
    /// the infinities, the answer is exact: `None` when no move is played,
    /// else the best reply's value, a move reaching it, and of the moves
    /// reaching it the one with the greatest encoding.
    #[verifier::spinoff_prover]
    #[verifier::rlimit(40)]
    pub fn negamax(&mut self, board: &mut Board, depth: u8) -> (r: Option<SearchResult>)
        requires
            old(board).wf(),
            depth >= 1,
        ensures
            final(board).same_state(old(board)),
            r is Some ==> r->Some_0.depth == depth,
            all_tame(old(board).node(), node_moves(old(board).node()), (depth - 1) as nat) ==> match r {
                None => best_reply(old(board).node(), node_moves(old(board).node()), (depth - 1) as nat) is None,
                Some(res) => {
                    &&& best_reply(old(board).node(), node_moves(old(board).node()), (depth - 1) as nat) == Some(
                        res.evaluation as int,
                    )
                    &&& node_moves(old(board).node()).contains(res.best_move)
                    &&& plays(old(board).node(), res.best_move)
                    &&& -tree_value(child(old(board).node(), res.best_move), (depth - 1) as nat) == res.evaluation
                    &&& forall|m: Move|
                        #![trigger plays(old(board).node(), m)]
                        node_moves(old(board).node()).contains(m) && plays(old(board).node(), m) && -tree_value(
                            child(old(board).node(), m),
                            (depth - 1) as nat,
                        ) == res.evaluation ==> m.0 <= res.best_move.0
                },
            },
    {
        let ghost n0 = board.node();
        let ghost d = (depth - 1) as nat;
        let ghost good = all_tame(n0, node_moves(n0), d);
        self.nodes_searched = 0;
        let mut best_val = NEG_INFINITY;
        let mut alpha = NEG_INFINITY;
        let mut best_move: Option<Move> = None;
        let mut moves = board.generate_pseudolegals();
        let ghost gen = moves@;
        let sorted = NumericSorting::move_iter(&mut moves);
        proof {
            reveal(node_moves);
            lemma_same_moves(sorted@, gen);
            lemma_best_reply_same(n0, sorted@, gen, d);
            assert(sorted@.subrange(0, 0) =~= Seq::<Move>::empty());
        }
        let ghost b0 = *board;
        let ghost mut bestv: Option<int> = None;
        let ghost mut bj: int = 0;
        let mut i: usize = 0;
        while i < sorted.len()
            invariant
                board.same_state(&b0),
                b0 == *old(board),
                board.wf(),
                n0 == old(board).node(),
                i <= sorted@.len(),
                depth >= 1,
                d == depth - 1,
                good == all_tame(n0, node_moves(n0), d),
                sorted_desc(sorted@),
                forall|m: Move| sorted@.contains(m) <==> node_moves(n0).contains(m),
                best_reply(n0, sorted@, d) == best_reply(n0, node_moves(n0), d),
                bestv == best_reply(n0, sorted@.subrange(0, i as int), d),
                bestv is None ==> forall|k: int| 0 <= k < i ==> !#[trigger] plays(n0, sorted@[k]),
                bestv matches Some(v) ==> forall|k: int|
                    0 <= k < i && #[trigger] plays(n0, sorted@[k]) ==> -tree_value(child(n0, sorted@[k]), d) <= v,
                good ==> (best_move is None) == (bestv is None),
                good ==> (bestv is None ==> best_val == NEG_INFINITY && alpha == NEG_INFINITY),
                good ==> (bestv matches Some(v) ==> {
                    &&& best_val == v
                    &&& alpha == best_val
                    &&& NEG_INFINITY < v < POSITIVE_INFINITY
                    &&& 0 <= bj < i
                    &&& best_move == Some(sorted@[bj])
                    &&& plays(n0, sorted@[bj])
                    &&& -tree_value(child(n0, sorted@[bj]), d) == v
                    &&& forall|k: int|
                        0 <= k < i && #[trigger] plays(n0, sorted@[k]) && -tree_value(child(n0, sorted@[k]), d) == v
                            ==> sorted@[k].0 <= sorted@[bj].0
                }),
            decreases sorted@.len() - i,
        {
            let m = sorted[i];
            proof {
                assert(sorted@.subrange(0, i + 1).drop_last() =~= sorted@.subrange(0, i as int));
                assert(sorted@.contains(m));
            }
            let ghost played = false;
            let ghost vc: int = 0;
            if board.has_room() {
                let ghost p0 = board.pos();
                let ghost bb = *board;
                if board.try_play(m) {
                    proof {
                        reveal(plays);
                        reveal(child);
                        played = true;
                        assert(board.positions@ =~= n0.positions.push(board.hash));
                        assert(board.node() == child(n0, m));
                        vc = tree_value(child(n0, m), d);
                        if good {
                            lemma_tame_member(n0, node_moves(n0), d, m);
                            lemma_tame_bounds(child(n0, m), d);
                        }
                    }
                    let value = neg(self.negamax_p(board, depth - 1, NEG_INFINITY, neg(alpha)));
                    board.take_back(m, Ghost(p0));
                    assert(board.undo_stack@ =~= bb.undo_stack@);
                    assert(board.positions@ =~= bb.positions@);
                    proof {
                        lemma_same_state_wf(*board, b0);
                    }
                    if value > best_val {
                        best_move = Some(m);
                        best_val = value;
                        alpha = best_val;
                        proof {
                            bj = i as int;
                        }
                    }
                } else {
                    proof {
                        reveal(plays);
                    }
                }
            } else {
                proof {
                    reveal(plays);
                }
            }
            proof {
                assert(played == plays(n0, m));
                assert(sorted@.subrange(0, i + 1).last() == m);
                assert(m == sorted@[i as int]);
                let old_bestv = bestv;
                bestv = best_reply(n0, sorted@.subrange(0, i + 1), d);
                if played {
                    assert(vc == tree_value(child(n0, sorted@[i as int]), d));
                }
                if good && played {
                    let nv = bestv->Some_0;
                    if old_bestv is None {
                        assert(bj == i);
                    } else if -vc > old_bestv->Some_0 {
                        assert(bj == i);
                    } else {
                        assert(bj < i);
                        assert(sorted@[bj].0 >= sorted@[i as int].0);
                    }
                    assert forall|k: int|
                        0 <= k < i + 1 && #[trigger] plays(n0, sorted@[k]) && -tree_value(child(n0, sorted@[k]), d)
                            == nv implies sorted@[k].0 <= sorted@[bj].0 by {
                        if k < i {
                            assert(old_bestv is Some);
                        }
                    }
                }
            }
            i += 1;
        }
        proof {
            assert(sorted@.subrange(0, sorted@.len() as int) =~= sorted@);
            if good && bestv is Some {
                assert(sorted@.contains(sorted@[bj]));
                assert forall|m: Move|
                    #![trigger plays(n0, m)]
                    node_moves(n0).contains(m) && plays(n0, m) && -tree_value(child(n0, m), d) == best_val implies m.0
                        <= sorted@[bj].0 by {
                    assert(sorted@.contains(m));
                    let k = choose|k: int| 0 <= k < sorted@.len() && sorted@[k] == m;
                    assert(plays(n0, sorted@[k]));
                }
            }
        }
        match best_move {
            Some(m) => Some(SearchResult { best_move: m, evaluation: best_val, nodes_searched: self.nodes_searched, depth: depth }),
            None => None,
        }
    }

    #[verifier::spinoff_prover]
    #[verifier::rlimit(40)]
    fn negamax_p(&mut self, board: &mut Board, depth: u8, alpha: i16, beta: i16) -> (r: i16)
        requires
            old(board).wf(),
        ensures
            final(board).same_state(old(board)),
            tame(old(board).node(), depth as nat) && -32767 <= alpha < beta <= 32767 ==> {
                &&& window_answer(r as int, tree_value(old(board).node(), depth as nat), alpha as int, beta as int)
                &&& -32767 <= r <= 32767
            },
        decreases depth,
    {
        let ghost n0 = board.node();
        let ghost good = tame(n0, depth as nat) && -32767 <= alpha < beta <= 32767;
        self.nodes_searched = self.nodes_searched.wrapping_add(1);
        if depth == 0 {
            proof {
                reveal(leaf_value);
            }
            return board.safe_eval();
        }
        if board.can_claim_draw() {
            return 0;
        }
        let ghost d = (depth - 1) as nat;
        let alpha0 = alpha;
        let mut a = alpha;
        let mut num_moves_found: usize = 0;
        let mut moves = board.generate_pseudolegals();
        let ghost gen = moves@;
        let sorted = NumericSorting::move_iter(&mut moves);
        proof {
            reveal(node_moves);
            lemma_same_moves(sorted@, gen);
            lemma_best_reply_same(n0, sorted@, gen, d);
            assert(sorted@.subrange(0, 0) =~= Seq::<Move>::empty());
        }
        let ghost b0 = *board;
        let ghost mut bestv: Option<int> = None;
        let mut i: usize = 0;
        while i < sorted.len()
            invariant
                board.same_state(&b0),
                b0 == *old(board),
                board.wf(),
                n0 == old(board).node(),
                i <= sorted@.len(),
                depth >= 1,
                d == depth - 1,
                !draw_spec(n0.pos.halfmoves, n0.pos.hash, n0.positions),
                alpha0 == alpha,
                good == (tame(n0, depth as nat) && -32767 <= alpha0 < beta <= 32767),
                forall|m: Move| sorted@.contains(m) <==> node_moves(n0).contains(m),
                best_reply(n0, sorted@, d) == best_reply(n0, node_moves(n0), d),
                bestv == best_reply(n0, sorted@.subrange(0, i as int), d),
                num_moves_found <= i,
                (num_moves_found == 0) == (bestv is None),
                good ==> alpha0 <= a < beta,
                good ==> (bestv matches Some(v) ==> v < beta && a == (if v > alpha0 { v } else { alpha0 as int })),
                good ==> (bestv is None ==> a == alpha0),
            decreases sorted@.len() - i,
        {
            let m = sorted[i];
            proof {
                assert(sorted@.subrange(0, i + 1).drop_last() =~= sorted@.subrange(0, i as int));
                assert(sorted@.contains(m));
            }
            let ghost played = false;
            let ghost vc: int = 0;
            if board.has_room() {
                let ghost p0 = board.pos();
                let ghost bb = *board;
                if board.try_play(m) {
                    proof {
                        reveal(plays);
                        reveal(child);
                        played = true;
                        assert(board.positions@ =~= n0.positions.push(board.hash));
                        assert(board.node() == child(n0, m));
                        vc = tree_value(child(n0, m), d);
                        if good {
                            lemma_tame_child(n0, depth as nat, m);
                            lemma_tame_bounds(child(n0, m), d);
                        }
                    }
                    num_moves_found = num_moves_found + 1;
                    let rc = self.negamax_p(board, depth - 1, neg(beta), neg(a));
                    let new_eval = neg(rc);
                    board.take_back(m, Ghost(p0));
                    assert(board.undo_stack@ =~= bb.undo_stack@);
                    assert(board.positions@ =~= bb.positions@);
                    proof {
                        lemma_same_state_wf(*board, b0);
                    }
                    if new_eval >= beta {
                        proof {
                            if good {
                                assert(window_answer(rc as int, vc, -beta, -a));
                                assert(rc <= -beta);
                                assert(-vc >= beta);
                                assert(m == sorted@[i as int]);
                                lemma_inner_value(n0, depth as nat, sorted@, i as int);
                            }
                        }
                        return beta;
                    }
                    if new_eval > a {
                        a = new_eval;
                    }
                } else {
                    proof {
                        reveal(plays);
                    }
                }
            } else {
                proof {
                    reveal(plays);
                }
            }
            proof {
                assert(played == plays(n0, m));
                assert(sorted@.subrange(0, i + 1).last() == m);
                bestv = best_reply(n0, sorted@.subrange(0, i + 1), d);
            }
            i += 1;
        }
        proof {
            assert(sorted@.subrange(0, sorted@.len() as int) =~= sorted@);
        }
        if num_moves_found == 0 {
            proof {
                reveal(in_check_at);
            }
            return board.result(board.checked());
        }
        a
    }
}

} // verus!
