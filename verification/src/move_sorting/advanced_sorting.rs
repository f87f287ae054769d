use vstd::prelude::*;
use crate::chess::square::Square;
use crate::chess::constants::{Piece, Color};
use crate::chess::chess_move::{Move, MoveList, MOVE_GEN_SIZE};
use crate::chess::board::{Board, Position};
use crate::chess::board::exchange::{attackers_spec, see_gains, see_fold, see_value, see_value_exec};
use crate::move_sorting::{EvaluatedMoveList, handed_out, first_best, count_good, lemma_count_good_same, lemma_count_good_zero, lemma_count_good_handout, lemma_handout_is_best};
use crate::chess::board::move_gen::gen_spec;
use crate::search::history::{HistroyT, SearchStack, piece_w_color, capture_slot, cont_sum, recent, main_idx};

verus! {

/// The gains as integers.
pub open spec fn ints(s: Seq<i32>) -> Seq<int> {
    s.map_values(|x: i32| x as int)
}

/// The first gain of an exchange on square `to`: the value of what stands there.
pub open spec fn see_start(b: Board, to: nat) -> int {
    see_value(b.piece@[to as int].idx())
}

/// All gains of the exchange on `to` that starts with the side to move.
pub open spec fn see_all(b: Board, to: nat) -> Seq<int> {
    seq![see_start(b, to)] + see_gains(
        b.piece_bb@,
        b.piece@,
        to,
        attackers_spec(b.piece_bb@, to, b.occupied),
        b.turn.idx(),
        b.occupied,
        0,
        see_start(b, to),
        1,
    )
}

/// At most the number of moves a list holds.
pub open spec fn min_len(n: nat) -> nat {
    if n < 256 { n } else { 256 }
}

/// The largest gain size an exchange of `n` steps can reach.
pub open spec fn see_bound(n: int) -> int {
    n * 786432
}

/// The captures of the side to move in `p` that a sorter lists: the
/// generated ones, as many as a move list holds.
pub open spec fn listed_captures(p: Position) -> Seq<Move> {
    let g = gen_spec(p, p.turn.idx(), false, true);
    g.take(min_len(g.len()) as int)
}

/// The quiet moves of the side to move in `p` that a sorter lists.
pub open spec fn listed_quiets(p: Position) -> Seq<Move> {
    let g = gen_spec(p, p.turn.idx(), true, false);
    g.take(min_len(g.len()) as int)
}

/// `m` is a move a sorter lists in `p`.
pub open spec fn listed(p: Position, m: Move) -> bool {
    listed_captures(p).contains(m) || listed_quiets(p).contains(m)
}

/// `m` is in `l` and not handed out yet.
pub open spec fn unhanded<const N: usize>(l: EvaluatedMoveList<N>, m: Move) -> bool {
    exists|k: int| l.search_index <= k < l@.len() && #[trigger] l@[k].0 == m
}

/// Handing out the best item keeps every other item not handed out yet.
pub proof fn lemma_handout_keeps(s: Seq<(Move, i32)>, lo: int, j: int, x: Move)
    requires
        0 <= lo <= j < s.len(),
        exists|k: int| lo <= k < s.len() && #[trigger] s[k].0 == x,
    ensures
        x == s[j].0 || exists|k: int| lo + 1 <= k < s.len() && #[trigger] handed_out(s, lo, j)[k].0 == x,
{
    let k = choose|k: int| lo <= k < s.len() && #[trigger] s[k].0 == x;
    let t = handed_out(s, lo, j);
    if k != j {
        if k == lo {
            assert(t[j].0 == x);
        } else {
            assert(t[k].0 == x);
        }
    }
}

/// Each value in `l` is `f` of its move (as the list keeps it).
pub open spec fn values_are<const N: usize>(l: EvaluatedMoveList<N>, f: spec_fn(Move) -> i32) -> bool {
    forall|k: int| 0 <= k < l@.len() ==> #[trigger] l@[k].1 == f(l@[k].0)
}

/// An item still to come after a hand-out was still to come before it.
pub proof fn lemma_handout_shrinks(s: Seq<(Move, i32)>, lo: int, j: int, x: Move)
    requires
        0 <= lo <= j < s.len(),
        exists|k: int| lo + 1 <= k < s.len() && #[trigger] handed_out(s, lo, j)[k].0 == x,
    ensures
        exists|k: int| lo <= k < s.len() && #[trigger] s[k].0 == x,
{
    let t = handed_out(s, lo, j);
    let k = choose|k: int| lo + 1 <= k < s.len() && #[trigger] t[k].0 == x;
    if k == j {
        assert(s[lo].0 == x);
    } else {
        assert(s[k].0 == x);
    }
}

/// Handing out item `j` of the captures keeps what is pending apart from
/// that item, adds nothing, and the item itself was pending unless it is the
/// table's move.
pub proof fn lemma_pending_caps_handout(a: AdvancedSorting, b: AdvancedSorting, p: Position, j: int)
    requires
        a.stage == b.stage,
        a.stage == MoveGenStage::YieldGoodCaptures || a.stage == MoveGenStage::YieldBadCaptures,
        a.tt_move == b.tt_move,
        0 <= a.captures.search_index <= j < a.captures@.len(),
        b.captures@ == handed_out(a.captures@, a.captures.search_index as int, j),
        b.captures.search_index == a.captures.search_index + 1,
        b.quiets == a.quiets,
    ensures
        forall|x: Move| #[trigger] a.pending(p, x) ==> x == a.captures@[j].0 || b.pending(p, x),
        forall|x: Move| #[trigger] b.pending(p, x) ==> a.pending(p, x),
        a.captures@[j].0 != a.tt_move ==> a.pending(p, a.captures@[j].0),
{
    let l0 = a.captures@;
    let lo = a.captures.search_index as int;
    assert forall|x: Move| #[trigger] a.pending(p, x) implies x == l0[j].0 || b.pending(p, x) by {
        if unhanded(a.captures, x) {
            lemma_handout_keeps(l0, lo, j, x);
        }
    }
    assert forall|x: Move| #[trigger] b.pending(p, x) implies a.pending(p, x) by {
        if unhanded(b.captures, x) {
            lemma_handout_shrinks(l0, lo, j, x);
        }
    }
    assert(unhanded(a.captures, l0[j].0));
}

/// The same for the quiet moves.
pub proof fn lemma_pending_quiets_handout(a: AdvancedSorting, b: AdvancedSorting, p: Position, j: int)
    requires
        a.stage == b.stage,
        a.stage == MoveGenStage::YieldQuiets,
        a.tt_move == b.tt_move,
        0 <= a.quiets.search_index <= j < a.quiets@.len(),
        b.quiets@ == handed_out(a.quiets@, a.quiets.search_index as int, j),
        b.quiets.search_index == a.quiets.search_index + 1,
        b.captures == a.captures,
    ensures
        forall|x: Move| #[trigger] a.pending(p, x) ==> x == a.quiets@[j].0 || b.pending(p, x),
        forall|x: Move| #[trigger] b.pending(p, x) ==> a.pending(p, x),
        a.quiets@[j].0 != a.tt_move ==> a.pending(p, a.quiets@[j].0),
{
    let l0 = a.quiets@;
    let lo = a.quiets.search_index as int;
    assert forall|x: Move| #[trigger] a.pending(p, x) implies x == l0[j].0 || b.pending(p, x) by {
        if unhanded(a.quiets, x) {
            lemma_handout_keeps(l0, lo, j, x);
        }
    }
    assert forall|x: Move| #[trigger] b.pending(p, x) implies a.pending(p, x) by {
        if unhanded(b.quiets, x) {
            lemma_handout_shrinks(l0, lo, j, x);
        }
    }
    assert(unhanded(a.quiets, l0[j].0));
}

/// Move ordering in stages: the move from the transposition table, the
/// winning captures, the quiet moves, then the losing captures.
pub struct NumericSorting;

/// The stages of handing out moves.
#[derive(Copy, Clone, PartialEq, Eq, Debug, Structural)]
pub enum MoveGenStage {
    HashMove,
    GenerateCaptures,
    YieldGoodCaptures,
    GenerateQuiets,
    YieldQuiets,
    YieldBadCaptures,
    Done,
}

/// The order of a stage.
pub open spec fn stage_rank(s: MoveGenStage) -> nat {
    match s {
        MoveGenStage::HashMove => 0,
        MoveGenStage::GenerateCaptures => 1,
        MoveGenStage::YieldGoodCaptures => 2,
        MoveGenStage::GenerateQuiets => 3,
        MoveGenStage::YieldQuiets => 4,
        MoveGenStage::YieldBadCaptures => 5,
        MoveGenStage::Done => 6,
    }
}

/// How much a sorter still has to do: its stage, then the captures and the
/// quiet moves not handed out yet.
pub open spec fn sorter_measure(s: AdvancedSorting) -> nat {
    ((6 - stage_rank(s.stage)) * 1048576 + (s.captures@.len() - s.captures.search_index) * 1024 + (s.quiets@.len()
        - s.quiets.search_index)) as nat
}

/// The value of taking a piece of kind `k` (pawn 1 to king 6 units, nothing else).
pub open spec fn victim_value(k: nat) -> int {
    if k < 6 { ((k + 1) * 16384) as int } else { 0 }
}

/// The kind of the piece capture `m` takes on `b`.
pub open spec fn captured_kind(b: Board, m: Move) -> nat {
    if m.flag_bits() == 5 { 0 } else { b.piece@[m.to_num() as int].idx() }
}

/// The ordering score of capture `m`: the value of its victim, the capture
/// history of the attacker and victim, and its exchange value.
pub open spec fn capture_score(b: Board, h: HistroyT, m: Move) -> int {
    victim_value(captured_kind(b, m)) + match capture_slot(b, m) {
        Some(i) => h.capture_history@[i] as int,
        None => 0int,
    } + see_fold(see_all(b, m.to_num()), 0)
}

/// The ordering score of quiet move `m`: its continuation history after the
/// last moves of the stack and its main history.
pub open spec fn quiet_score<const N: usize>(b: Board, h: HistroyT, st: SearchStack<N>, m: Move) -> int {
    let piece = piece_w_color(b, m.from_num());
    (if piece < 12 { cont_sum(h.continuation_history@, recent(st@), piece, m, recent(st@).len() as int) } else { 0 })
        + h.main_history@[main_idx(b.turn.idx(), m.from_num(), m.to_num())]
}

/// `s` is ordered by decreasing encoding.
pub open spec fn sorted_desc(s: Seq<Move>) -> bool {
    forall|i: int, j: int| 0 <= i < j < s.len() ==> s[i].0 >= s[j].0
}

impl NumericSorting {
    /// Sorts the moves by decreasing encoding (so promotions and captures,
    /// whose flags are high, come first) and hands them out in that order.
    pub fn move_iter(move_list: &mut MoveList<MOVE_GEN_SIZE>) -> (r: &[Move])
        ensures
            r@ == final(move_list)@,
            sorted_desc(final(move_list)@),
            final(move_list)@.to_multiset() == old(move_list)@.to_multiset(),
    {
        let n = move_list.moves.len();
        let mut i: usize = 0;
        while i < n
            invariant
                n == move_list@.len(),
                i <= n,
                move_list@.to_multiset() == old(move_list)@.to_multiset(),
                forall|a: int, b: int| 0 <= a < b < i ==> move_list@[a].0 >= move_list@[b].0,
                forall|a: int, b: int| 0 <= a < i <= b < n ==> move_list@[a].0 >= move_list@[b].0,
            decreases n - i,
        {
            let mut best = i;
            let mut j = i + 1;
            while j < n
                invariant
                    n == move_list@.len(),
                    i < n,
                    i <= best < j <= n,
                    forall|b: int| i <= b < j ==> move_list@[best as int].0 >= move_list@[b].0,
                decreases n - j,
            {
                if move_list.moves[j].0 > move_list.moves[best].0 {
                    best = j;
                }
                j += 1;
            }
            let a = move_list.moves[i];
            let b = move_list.moves[best];
            let ghost s0 = move_list@;
            move_list.moves.set(i, b);
            move_list.moves.set(best, a);
            proof {
                broadcast use vstd::multiset::group_multiset_axioms;
                let s1 = s0.update(i as int, b);
                vstd::seq_lib::to_multiset_update(s0, i as int, b);
                if best != i {
                    assert(s1[best as int] == b);
                    assert(move_list@ =~= s1.update(best as int, a));
                    vstd::seq_lib::to_multiset_update(s1, best as int, a);
                    vstd::seq_lib::to_multiset_contains(s0, a);
                    vstd::seq_lib::to_multiset_contains(s0, b);
                    assert(s0.contains(a) && s0.contains(b)) by {
                        assert(s0[i as int] == a);
                        assert(s0[best as int] == b);
                    }
                    assert(s0.to_multiset().insert(b).remove(a).insert(a).remove(b) =~= s0.to_multiset());
                } else {
                    assert(move_list@ =~= s0);
                }
            }
            i += 1;
        }
        move_list.as_slice()
    }
}

/// Orders moves: the table's move first, then the winning captures, the quiet
/// moves and the losing captures, each best first by score.
pub struct AdvancedSorting {
    pub tt_move: Move,
    pub stage: MoveGenStage,
    pub captures: EvaluatedMoveList<MOVE_GEN_SIZE>,
    pub quiets: EvaluatedMoveList<MOVE_GEN_SIZE>,
    pub current_capture: usize,
    pub num_good_captures: usize,
    pub num_captures: usize,
}

impl AdvancedSorting {
    pub const HASH_M_VAL: i32 = 1048576;
    pub const VICTIM_UNITS: i32 = 16384;
    pub const SSE_UNIT: i32 = 131072;

    pub open spec fn wf(&self) -> bool {
        &&& self.captures.wf()
        &&& self.quiets.wf()
        &&& self.captures.search_index == self.current_capture
        &&& self.num_good_captures <= self.num_captures
        &&& self.num_captures == self.captures@.len()
        &&& stage_rank(self.stage) <= 1 ==> self.captures@.len() == 0 && self.num_captures == 0
        &&& stage_rank(self.stage) <= 3 ==> self.quiets.search_index == 0
        &&& stage_rank(self.stage) == 2 ==> self.current_capture <= self.num_good_captures
        &&& stage_rank(self.stage) >= 3 ==> self.current_capture >= self.num_good_captures
        &&& stage_rank(self.stage) >= 2 ==> count_good(self.captures@, self.current_capture as int, self.captures@.len() as int)
            == (if self.current_capture <= self.num_good_captures {
            self.num_good_captures - self.current_capture
        } else {
            0
        })
    }

    /// `m` may still be handed out in `p`: the table's move (unless it is no
    /// move) before anything else, then the listed captures and quiet moves
    /// not handed out yet, never the table's move again.
    pub open spec fn pending(&self, p: Position, m: Move) -> bool {
        match self.stage {
            MoveGenStage::HashMove => (m == self.tt_move && m != Move(0)) || (listed(p, m) && m != self.tt_move),
            MoveGenStage::GenerateCaptures => listed(p, m) && m != self.tt_move,
            MoveGenStage::YieldGoodCaptures | MoveGenStage::GenerateQuiets => (unhanded(self.captures, m)
                || listed_quiets(p).contains(m)) && m != self.tt_move,
            MoveGenStage::YieldQuiets => (unhanded(self.captures, m) || unhanded(self.quiets, m)) && m != self.tt_move,
            MoveGenStage::YieldBadCaptures => unhanded(self.captures, m) && m != self.tt_move,
            MoveGenStage::Done => false,
        }
    }

    /// The captures carry their `capture_score` and the quiet moves their
    /// `quiet_score` on board `b` with histories `h` and path `st`, once each
    /// list is generated.
    pub open spec fn scored_with<const N: usize>(&self, b: Board, h: HistroyT, st: SearchStack<N>) -> bool {
        &&& stage_rank(self.stage) >= 2 ==> values_are(self.captures, |m: Move| capture_score(b, h, m) as i32)
        &&& stage_rank(self.stage) >= 4 ==> values_are(self.quiets, |m: Move| quiet_score(b, h, st, m) as i32)
    }

    /// A sorter that hands out `hash_move` first (unless it is no move).
    pub fn new(hash_move: Move) -> (s: Self)
        ensures
            s.wf(),
            s.tt_move == hash_move,
            s.stage == MoveGenStage::HashMove,
    {
        AdvancedSorting {
            tt_move: hash_move,
            captures: EvaluatedMoveList::new(),
            quiets: EvaluatedMoveList::new(),
            current_capture: 0,
            num_good_captures: 0,
            num_captures: 0,
            stage: MoveGenStage::HashMove,
        }
    }

    /// The next move to try: the table's move, then the winning captures,
    /// the quiet moves and the losing captures (each best first, the table's
    /// move not again); `None` when all are handed out.
    #[verifier::spinoff_prover]
    #[verifier::rlimit(100)]
    pub fn next<const N: usize>(&mut self, board: &Board, history_table: &HistroyT, search_stack: &SearchStack<N>) -> (r: Option<Move>)
        requires
            old(self).wf(),
            board.turn.is_side(),
            history_table.wf(),
            search_stack.wf(),
        ensures
            final(self).wf(),
            final(self).tt_move == old(self).tt_move,
            stage_rank(final(self).stage) >= stage_rank(old(self).stage),
            r is Some ==> sorter_measure(*final(self)) < sorter_measure(*old(self)),
            r is None ==> final(self).stage == MoveGenStage::Done,
            forall|m: Move| #[trigger] old(self).pending(board.pos(), m) ==> r == Some(m) || final(self).pending(board.pos(), m),
            old(self).scored_with(*board, *history_table, *search_stack) ==> final(self).scored_with(
                *board,
                *history_table,
                *search_stack,
            ),
            forall|m: Move| #[trigger] final(self).pending(board.pos(), m) ==> old(self).pending(board.pos(), m),
            r matches Some(m) ==> old(self).pending(board.pos(), m),
            r is Some && (final(self).stage == MoveGenStage::YieldGoodCaptures || final(self).stage
                == MoveGenStage::YieldBadCaptures) ==> forall|k: int|
                final(self).captures.search_index <= k < final(self).captures@.len() ==> #[trigger] final(self).captures@[k].1
                    <= final(self).captures@[final(self).captures.search_index - 1].1,
            r is Some && final(self).stage == MoveGenStage::YieldGoodCaptures ==> final(self).captures@[final(self).captures.search_index
                - 1].1 > 0,
            r is Some && final(self).stage == MoveGenStage::YieldBadCaptures ==> final(self).captures@[final(self).captures.search_index
                - 1].1 <= 0,
            r is Some && final(self).stage == MoveGenStage::YieldQuiets ==> forall|k: int|
                final(self).quiets.search_index <= k < final(self).quiets@.len() ==> #[trigger] final(self).quiets@[k].1
                    <= final(self).quiets@[final(self).quiets.search_index - 1].1,
            r is Some ==> {
                ||| old(self).stage == MoveGenStage::HashMove && final(self).stage == MoveGenStage::GenerateCaptures
                    && r->Some_0 == old(self).tt_move && r->Some_0 != Move(0)
                ||| (final(self).stage == MoveGenStage::YieldGoodCaptures || final(self).stage == MoveGenStage::YieldBadCaptures)
                    && r->Some_0 != old(self).tt_move && final(self).captures.search_index > 0
                    && r->Some_0 == final(self).captures@[final(self).captures.search_index - 1].0
                ||| final(self).stage == MoveGenStage::YieldQuiets && r->Some_0 != old(self).tt_move
                    && final(self).quiets.search_index > 0
                    && r->Some_0 == final(self).quiets@[final(self).quiets.search_index - 1].0
            },
    {
        let ghost p = board.pos();
        loop
            invariant
                self.wf(),
                self.tt_move == old(self).tt_move,
                stage_rank(self.stage) >= stage_rank(old(self).stage),
                sorter_measure(*self) <= sorter_measure(*old(self)),
                forall|m: Move| #[trigger] old(self).pending(p, m) ==> self.pending(p, m),
                forall|m: Move| #[trigger] self.pending(p, m) ==> old(self).pending(p, m),
                old(self).scored_with(*board, *history_table, *search_stack) ==> self.scored_with(
                    *board,
                    *history_table,
                    *search_stack,
                ),
                p == board.pos(),
                board.turn.is_side(),
                history_table.wf(),
                search_stack.wf(),
            decreases sorter_measure(*self),
        {
            let ghost before = *self;
            match self.stage {
                MoveGenStage::HashMove => {
                    self.stage = MoveGenStage::GenerateCaptures;
                    if self.tt_move != Move(0) {
                        return Some(self.tt_move);
                    }
                    assert forall|m: Move| #[trigger] before.pending(p, m) implies self.pending(p, m) by {}
                    assert forall|m: Move| #[trigger] self.pending(p, m) implies before.pending(p, m) by {}
                },
                MoveGenStage::GenerateCaptures => {
                    self.score_captures(board, history_table);
                    self.current_capture = 0;
                    self.stage = MoveGenStage::YieldGoodCaptures;
                    assert forall|m: Move| #[trigger] before.pending(p, m) implies self.pending(p, m) by {
                        if listed_captures(p).contains(m) {
                            let k = choose|k: int| 0 <= k < listed_captures(p).len() && listed_captures(p)[k] == m;
                            assert(self.captures@[k].0 == m);
                        }
                    }
                    assert forall|m: Move| #[trigger] self.pending(p, m) implies before.pending(p, m) by {
                        if unhanded(self.captures, m) {
                            let k = choose|k: int| self.captures.search_index <= k < self.captures@.len() && #[trigger] self.captures@[k].0 == m;
                            assert(listed_captures(p)[k] == m);
                        }
                    }
                },
                MoveGenStage::YieldGoodCaptures => {
                    if self.current_capture < self.num_good_captures {
                        let ghost l0 = self.captures@;
                        let picked = self.captures.selection_sort_next();
                        let m = match picked {
                            Some(item) => item.0,
                            None => Move(0),
                        };
                        self.current_capture += 1;
                        proof {
                            let j = choose|j: int| #![trigger l0[j]] first_best(l0, before.current_capture as int, j)
                                && picked == Some(l0[j])
                                && self.captures@ == handed_out(l0, before.current_capture as int, j);
                            lemma_pending_caps_handout(before, *self, p, j);
                            let lo = before.current_capture as int;
                            lemma_handout_is_best(l0, lo, j);
                            lemma_count_good_handout(l0, lo, j);
                            lemma_count_good_zero(l0, lo, l0.len() as int);
                            if count_good(l0, lo, l0.len() as int) > 0 {
                                let w = choose|w: int| lo <= w < l0.len() && !(#[trigger] l0[w].1 <= 0);
                                assert(l0[w].1 <= l0[j].1);
                            }
                        }
                        if m != self.tt_move {
                            return Some(m);
                        }
                    } else {
                        self.stage = MoveGenStage::GenerateQuiets;
                        assert forall|x: Move| #[trigger] self.pending(p, x) implies before.pending(p, x) by {}
                        assert forall|x: Move| #[trigger] before.pending(p, x) implies self.pending(p, x) by {}
                    }
                },
                MoveGenStage::GenerateQuiets => {
                    self.score_quiets(board, history_table, search_stack);
                    self.stage = MoveGenStage::YieldQuiets;
                    assert forall|m: Move| #[trigger] before.pending(p, m) implies self.pending(p, m) by {
                        if listed_quiets(p).contains(m) {
                            let k = choose|k: int| 0 <= k < listed_quiets(p).len() && listed_quiets(p)[k] == m;
                            assert(self.quiets@[k].0 == m);
                        }
                    }
                    assert forall|m: Move| #[trigger] self.pending(p, m) implies before.pending(p, m) by {
                        if unhanded(self.quiets, m) {
                            let k = choose|k: int| self.quiets.search_index <= k < self.quiets@.len() && #[trigger] self.quiets@[k].0 == m;
                            assert(listed_quiets(p)[k] == m);
                        }
                    }
                },
                MoveGenStage::YieldQuiets => {
                    let ghost l0 = self.quiets@;
                    match self.quiets.selection_sort_next() {
                        Some(item) => {
                            proof {
                                let j = choose|j: int| #![trigger l0[j]] first_best(l0, before.quiets.search_index as int, j)
                                    && self.quiets@ == handed_out(l0, before.quiets.search_index as int, j)
                                    && Some(item) == Some(l0[j]);
                                lemma_pending_quiets_handout(before, *self, p, j);
                                lemma_handout_is_best(l0, before.quiets.search_index as int, j);
                            }
                            if item.0 != self.tt_move {
                                return Some(item.0);
                            }
                        },
                        None => {
                            self.stage = MoveGenStage::YieldBadCaptures;
                            assert forall|x: Move| #[trigger] self.pending(p, x) implies before.pending(p, x) by {}
                        },
                    }
                },
                MoveGenStage::YieldBadCaptures => {
                    if self.current_capture < self.num_captures {
                        let ghost l0 = self.captures@;
                        let picked = self.captures.selection_sort_next();
                        let m = match picked {
                            Some(item) => item.0,
                            None => Move(0),
                        };
                        self.current_capture += 1;
                        proof {
                            let j = choose|j: int| #![trigger l0[j]] first_best(l0, before.current_capture as int, j)
                                && picked == Some(l0[j])
                                && self.captures@ == handed_out(l0, before.current_capture as int, j);
                            lemma_pending_caps_handout(before, *self, p, j);
                            let lo = before.current_capture as int;
                            lemma_handout_is_best(l0, lo, j);
                            lemma_count_good_handout(l0, lo, j);
                            lemma_count_good_zero(l0, lo, l0.len() as int);
                            if count_good(l0, lo, l0.len() as int) > 0 {
                                let w = choose|w: int| lo <= w < l0.len() && !(#[trigger] l0[w].1 <= 0);
                                assert(l0[w].1 <= l0[j].1);
                            }
                        }
                        if m != self.tt_move {
                            return Some(m);
                        }
                    } else {
                        self.stage = MoveGenStage::Done;
                        assert forall|x: Move| #[trigger] self.pending(p, x) implies before.pending(p, x) by {}
                    }
                },
                MoveGenStage::Done => {
                    return None;
                },
            }
        }
    }

    /// The ordering score of capture `m` (see `capture_score`).
    pub fn eval_capture(board: &Board, m: Move, history_table: &HistroyT) -> (r: i32)
        requires
            board.turn.is_side(),
            history_table.wf(),
        ensures
            r == capture_score(*board, *history_table, m),
    {
        let captured = board.get_captured(m);
        let moved = board.get_piece_w_color(m.from());
        let see = Self::static_e_e(board, m);
        let victim: i32 = if captured < 6 { (captured as i32 + 1) * 16384 } else { 0 };
        let bonus: i32 = if moved < 12 && captured < 6 { history_table.capture_val(moved, m, captured) } else { 0 };
        victim + bonus + see
    }

    /// Scores the captures of `board` (see `capture_score`) and counts those
    /// with a positive score.
    pub fn score_captures(&mut self, board: &Board, history_table: &HistroyT)
        requires
            board.turn.is_side(),
            history_table.wf(),
        ensures
            final(self).captures.wf(),
            final(self).captures.search_index == 0,
            final(self).num_captures == final(self).captures@.len(),
            final(self).num_good_captures <= final(self).num_captures,
            final(self).num_good_captures == count_good(final(self).captures@, 0, final(self).captures@.len() as int),
            final(self).captures@.len() == min_len(gen_spec(board.pos(), board.turn.idx(), false, true).len()),
            forall|i: int|
                0 <= i < final(self).captures@.len() ==> #[trigger] final(self).captures@[i] == (
                gen_spec(board.pos(), board.turn.idx(), false, true)[i],
                capture_score(*board, *history_table, gen_spec(board.pos(), board.turn.idx(), false, true)[i]) as i32,
            ),
            final(self).quiets == old(self).quiets,
            final(self).stage == old(self).stage,
            final(self).tt_move == old(self).tt_move,
    {
        let mut moves_evaluated: EvaluatedMoveList<MOVE_GEN_SIZE> = EvaluatedMoveList::new();
        let mut num_good_moves: usize = 0;
        let moves = board.generate_captures();
        let ghost g = gen_spec(board.pos(), board.turn.idx(), false, true);
        let mut k: usize = 0;
        while k < moves.size() && k < MOVE_GEN_SIZE
            invariant
                board.turn.is_side(),
                history_table.wf(),
                moves@ == g,
                k <= moves@.len(),
                k <= MOVE_GEN_SIZE,
                moves_evaluated.wf(),
                moves_evaluated.search_index == 0,
                moves_evaluated@.len() == k,
                num_good_moves <= k,
                num_good_moves == count_good(moves_evaluated@, 0, k as int),
                forall|i: int| 0 <= i < k ==> #[trigger] moves_evaluated@[i] == (g[i], capture_score(*board, *history_table, g[i]) as i32),
            decreases moves@.len() - k,
        {
            let m = moves.get(k);
            let eval = Self::eval_capture(board, m, history_table);
            if eval > 0 {
                num_good_moves += 1;
            }
            let ghost before = moves_evaluated@;
            moves_evaluated.push(m, eval);
            proof {
                lemma_count_good_same(before, moves_evaluated@, 0, k as int);
            }
            k += 1;
        }
        self.num_captures = moves_evaluated.size();
        self.num_good_captures = num_good_moves;
        self.captures = moves_evaluated;
    }

    /// Scores the quiet moves of `board` (see `quiet_score`).
    pub fn score_quiets<const N: usize>(&mut self, board: &Board, history_table: &HistroyT, search_stack: &SearchStack<N>)
        requires
            board.turn.is_side(),
            history_table.wf(),
            search_stack.wf(),
        ensures
            final(self).quiets.wf(),
            final(self).quiets.search_index == 0,
            final(self).quiets@.len() == min_len(gen_spec(board.pos(), board.turn.idx(), true, false).len()),
            forall|i: int|
                0 <= i < final(self).quiets@.len() ==> #[trigger] final(self).quiets@[i] == (
                gen_spec(board.pos(), board.turn.idx(), true, false)[i],
                quiet_score(*board, *history_table, *search_stack, gen_spec(board.pos(), board.turn.idx(), true, false)[i]) as i32,
            ),
            final(self).captures == old(self).captures,
            final(self).current_capture == old(self).current_capture,
            final(self).num_captures == old(self).num_captures,
            final(self).num_good_captures == old(self).num_good_captures,
            final(self).stage == old(self).stage,
            final(self).tt_move == old(self).tt_move,
    {
        let mut moves_evaluated: EvaluatedMoveList<MOVE_GEN_SIZE> = EvaluatedMoveList::new();
        let turn = board.turn;
        let moves = board.generate_quiets();
        let ghost g = gen_spec(board.pos(), board.turn.idx(), true, false);
        let mut k: usize = 0;
        while k < moves.size() && k < MOVE_GEN_SIZE
            invariant
                board.turn.is_side(),
                turn == board.turn,
                history_table.wf(),
                search_stack.wf(),
                moves@ == g,
                k <= moves@.len(),
                k <= MOVE_GEN_SIZE,
                moves_evaluated.wf(),
                moves_evaluated.search_index == 0,
                moves_evaluated@.len() == k,
                forall|i: int| 0 <= i < k ==> #[trigger] moves_evaluated@[i] == (g[i], quiet_score(*board, *history_table, *search_stack, g[i]) as i32),
            decreases moves@.len() - k,
        {
            let m = moves.get(k);
            let piece = board.get_piece_w_color(m.from());
            let cont: i32 = if piece < 12 { history_table.continuation_val(search_stack, piece, m) } else { 0 };
            let value = cont + history_table.main_val(turn, m);
            moves_evaluated.push(m, value);
            k += 1;
        }
        self.quiets = moves_evaluated;
    }

    /// The captures of `board` scored for the quiescence search: the table's
    /// move `hash_move` above everything, the others by `capture_score`.
    pub fn sort_only_captures(board: &Board, hash_move: Move, history_table: &HistroyT) -> (r: EvaluatedMoveList<MOVE_GEN_SIZE>)
        requires
            board.turn.is_side(),
            history_table.wf(),
        ensures
            r.wf(),
            r.search_index == 0,
            r@.len() == min_len(gen_spec(board.pos(), board.turn.idx(), false, true).len()),
            forall|i: int|
                0 <= i < r@.len() ==> #[trigger] r@[i] == ({
                    let m = gen_spec(board.pos(), board.turn.idx(), false, true)[i];
                    (m, if m == hash_move { 1048576i32 } else { capture_score(*board, *history_table, m) as i32 })
                }),
    {
        let mut moves_evaluated: EvaluatedMoveList<MOVE_GEN_SIZE> = EvaluatedMoveList::new();
        let moves = board.generate_captures();
        let ghost g = gen_spec(board.pos(), board.turn.idx(), false, true);
        let mut k: usize = 0;
        while k < moves.size() && k < MOVE_GEN_SIZE
            invariant
                board.turn.is_side(),
                history_table.wf(),
                moves@ == g,
                k <= moves@.len(),
                k <= MOVE_GEN_SIZE,
                moves_evaluated.wf(),
                moves_evaluated.search_index == 0,
                moves_evaluated@.len() == k,
                forall|i: int| 0 <= i < k ==> #[trigger] moves_evaluated@[i] == ({
                    let m = g[i];
                    (m, if m == hash_move { 1048576i32 } else { capture_score(*board, *history_table, m) as i32 })
                }),
            decreases moves@.len() - k,
        {
            let m = moves.get(k);
            let eval = if m == hash_move { Self::HASH_M_VAL } else { Self::eval_capture(board, m, history_table) };
            moves_evaluated.push(m, eval);
            k += 1;
        }
        moves_evaluated
    }

    /// The static exchange evaluation of the capture `m`: the value won on its
    /// target square when both sides keep recapturing with their least
    /// valuable attacker while it pays (see `see_all` and `see_fold`).
    pub fn static_e_e(board: &Board, m: Move) -> (r: i32)
        requires
            board.turn.is_side(),
        ensures
            r == see_fold(see_all(*board, m.to_num()), 0),
            -see_bound(32) <= r <= see_bound(32),
    {
        let to = m.to();
        let ghost tn = m.to_num();
        let ghost full = see_all(*board, tn);
        let mut attack_mask = board.attack_mask(to);
        let mut turn = board.turn;
        let mut occupied = board.occupied;
        let mut already: u64 = 0;
        let mut gains: Vec<i32> = Vec::new();
        gains.push(see_value_exec(board.piece[to.index()].index()));
        let mut index: usize = 1;
        let ghost mut stopped = false;
        assert(ints(gains@) =~= seq![see_start(*board, tn)]);
        while attack_mask != 0 && index < 32
            invariant
                1 <= index <= 32,
                gains@.len() == index,
                turn.is_side(),
                to.num() == tn,
                tn < 64,
                full == see_all(*board, tn),
                ints(gains@) + see_gains(
                    board.piece_bb@,
                    board.piece@,
                    tn,
                    attack_mask,
                    turn.idx(),
                    occupied,
                    already,
                    gains@[index - 1] as int,
                    index as nat,
                ) == full,
                forall|j: int| 0 <= j < gains@.len() ==> -see_bound(j + 1) <= #[trigger] gains@[j] <= see_bound(j + 1),
                stopped ==> see_gains(
                    board.piece_bb@,
                    board.piece@,
                    tn,
                    attack_mask,
                    turn.idx(),
                    occupied,
                    already,
                    gains@[index - 1] as int,
                    index as nat,
                ) == Seq::<int>::empty(),
            ensures
                1 <= index <= 32,
                gains@.len() == index,
                ints(gains@) + see_gains(
                    board.piece_bb@,
                    board.piece@,
                    tn,
                    attack_mask,
                    turn.idx(),
                    occupied,
                    already,
                    gains@[index - 1] as int,
                    index as nat,
                ) == full,
                forall|j: int| 0 <= j < gains@.len() ==> -see_bound(j + 1) <= #[trigger] gains@[j] <= see_bound(j + 1),
                stopped ==> see_gains(
                    board.piece_bb@,
                    board.piece@,
                    tn,
                    attack_mask,
                    turn.idx(),
                    occupied,
                    already,
                    gains@[index - 1] as int,
                    index as nat,
                ) == Seq::<int>::empty(),
                stopped || !(attack_mask != 0 && index < 32),
            decreases 32 - index,
        {
            let lva = board.get_lva(turn, attack_mask);
            if lva == Square::UNDEFINED {
                assert(see_gains(board.piece_bb@, board.piece@, tn, attack_mask, turn.idx(), occupied, already,
                    gains@[index - 1] as int, index as nat) =~= Seq::empty());
                assert(ints(gains@) + Seq::<int>::empty() =~= ints(gains@));
                proof {
                    stopped = true;
                }
                break;
            }
            proof {
                crate::chess::square::lemma_square_of(lva.num());
            }
            let piece = board.piece[lva.index()];
            let prev = gains[index - 1];
            let g = see_value_exec(piece.index()) - prev;
            let ghost before = ints(gains@);
            gains.push(g);
            assert(ints(gains@) =~= before.push(g as int));
            let bb = 1u64 << lva.u8();
            attack_mask = attack_mask ^ bb;
            occupied = occupied ^ bb;
            already = already ^ bb;
            attack_mask = board.update_attack_board(to, attack_mask, occupied, already);
            turn = turn.opposite();
            index += 1;
            assert(before.push(g as int) + see_gains(board.piece_bb@, board.piece@, tn, attack_mask, turn.idx(),
                occupied, already, g as int, index as nat) =~= before + (seq![g as int] + see_gains(
                board.piece_bb@, board.piece@, tn, attack_mask, turn.idx(), occupied, already, g as int,
                index as nat)));
        }
        let ghost g0 = ints(gains@);
        proof {
            if stopped {
                assert(g0 + Seq::<int>::empty() =~= g0);
            }
            if !stopped {
                assert(see_gains(board.piece_bb@, board.piece@, tn, attack_mask, turn.idx(), occupied, already,
                    gains@[index - 1] as int, index as nat) =~= Seq::empty());
                assert(g0 + Seq::<int>::empty() =~= g0);
            }
        }
        assert(g0 == full);
        let mut i: usize = gains.len() - 1;
        while i > 0
            invariant
                i < gains@.len(),
                gains@.len() == g0.len(),
                gains@[i as int] == see_fold(g0, i as int),
                forall|j: int| 0 <= j < i ==> #[trigger] gains@[j] == g0[j],
                forall|j: int| 0 <= j < gains@.len() ==> -see_bound(32) <= #[trigger] gains@[j] <= see_bound(32),
                forall|j: int| 0 <= j < g0.len() ==> -see_bound(32) <= #[trigger] g0[j] <= see_bound(32),
            decreases i,
        {
            let a = gains[i - 1];
            let b = -gains[i];
            let v = if a >= b { a } else { b };
            gains.set(i - 1, v);
            i -= 1;
        }
        gains[0]
    }
}

} // verus!
