use vstd::prelude::*;
use std::time::{Duration, Instant};
use crate::search::{GLOBAL_MAX_SEARCH_NODES, MAX_SEARCH_DEPTH, SearchLimits, SearchResult, TTableEntry};
use crate::search::simple_search::NegamaxTT;
use crate::chess::board::Board;
use crate::chess::chess_move::Move;
use crate::parameters::FIRST_WINDOW;
use crate::search::tree::plays;
use crate::move_sorting::advanced_sorting::listed;

verus! {

#[verifier::external_type_specification]
#[verifier::external_body]
pub struct ExInstant(Instant);

/// Wraps `Instant::now`: the current time; nothing is claimed of it.
#[verifier::external_body]
pub(crate) fn now() -> (t: Instant) {
    Instant::now()
}

/// Wraps `Instant`'s `>`: whether `a` is later than `b`. It depends on the
/// clock readings only; nothing is claimed of it.
#[verifier::external_body]
pub(crate) fn later(a: Instant, b: Instant) -> (r: bool) {
    a > b
}

/// Wraps `Instant + Duration`: the time `ms` milliseconds after `start`.
/// Adding panics when the result cannot be represented, so the offset is
/// limited to about thirty years; nothing else is claimed.
#[verifier::external_body]
pub(crate) fn after_ms(start: Instant, ms: u64) -> (t: Instant)
    requires
        ms <= 1_000_000_000_000,
{
    start + std::time::Duration::from_millis(ms)
}

/// Wraps `Instant::elapsed`: how long ago `start` was (zero if the clock
/// went back); it depends on the clock, so nothing is claimed of it.
#[verifier::external_body]
pub(crate) fn elapsed(start: Instant) -> (d: Duration) {
    start.elapsed()
}

/// Wraps `Duration::from_millis`: a span of `ms` milliseconds; the span is
/// opaque here, so nothing is claimed of it.
#[verifier::external_body]
pub(crate) fn millis(ms: u64) -> (d: Duration) {
    Duration::from_millis(ms)
}

/// Wraps `Duration`'s `>`: whether span `a` is longer than span `b`; the
/// spans are opaque here, so nothing is claimed of it.
#[verifier::external_body]
pub(crate) fn longer(a: Duration, b: Duration) -> (r: bool) {
    a > b
}

/// The soft time bound of a timed search (see `soft_bound`).
pub fn soft_limit_ms(base: u64, inc: u64) -> (r: u64)
    ensures
        r == soft_bound(base, inc),
{
    base / 20 + inc / 2
}

/// What a running search may use: a node budget and an end time.
#[derive(Clone, Copy)]
pub struct Restrictions {
    pub max_nodes: u64,
    pub end: Instant,
}

impl Restrictions {
    pub const NODES: u8 = 1;
    pub const TIME: u8 = 2;
    pub const DEPTH: u8 = 4;

    /// No node limit; the end time is now.
    pub fn new() -> (r: Self)
        ensures
            r.max_nodes == GLOBAL_MAX_SEARCH_NODES,
    {
        Restrictions { max_nodes: GLOBAL_MAX_SEARCH_NODES, end: now() }
    }
}

/// Iterative deepening over the table search, remembering the last score
/// for the next aspiration window.
pub struct IDSearch {
    pub search_algo: NegamaxTT,
    pub last_val: i16,
}

/// The time a timed search may take before it stops starting new depths:
/// a twentieth of the remaining time plus half the increment.
pub open spec fn soft_bound(base: u64, inc: u64) -> u64 {
    (base / 20 + inc / 2) as u64
}

impl IDSearch {
    pub open spec fn wf(&self) -> bool {
        self.search_algo.wf()
    }

    pub fn new(algo: NegamaxTT) -> (s: Self)
        requires
            algo.wf(),
        ensures
            s.wf(),
            s.last_val == 0,
            s.search_algo == algo,
    {
        IDSearch { search_algo: algo, last_val: 0 }
    }

    /// Forgets everything learnt in earlier searches.
    pub fn reset(&mut self)
        requires
            old(self).wf(),
        ensures
            final(self).wf(),
            final(self).last_val == 0,
            final(self).search_algo.ttable.size == old(self).search_algo.ttable.size,
            forall|i: int| 0 <= i < final(self).search_algo.ttable.size ==> #[trigger] final(self).search_algo.ttable.table@[i]@ == Seq::new(4, |k: int| TTableEntry::empty_spec()),
            final(self).search_algo.info.history_tables.all_zero(),
    {
        self.last_val = 0;
        self.search_algo.clear();
    }

    /// Gives the table `mb` buckets (rounded up to a power of two).
    pub fn change_hash(&mut self, mb: usize)
        requires
            old(self).wf(),
            mb <= 0x4000_0000,
        ensures
            final(self).wf(),
            final(self).last_val == old(self).last_val,
            final(self).search_algo.ttable.size >= mb,
            final(self).search_algo.ttable.size == 1 || final(self).search_algo.ttable.size / 2 < mb,
            forall|i: int| 0 <= i < final(self).search_algo.ttable.size ==> #[trigger] final(self).search_algo.ttable.table@[i]@ == Seq::new(4, |k: int| TTableEntry::empty_spec()),
            final(self).search_algo.info == old(self).search_algo.info,
    {
        self.search_algo.change_hash_size(mb);
    }

    /// Searches `board` to depth 1, 2, ... until the limit `LIMIT` of
    /// `limits` is reached (for a time limit, stopping new depths after the
    /// soft bound and aborting at `hard_bound_ms`); gives the result of the
    /// deepest completed depth, with the nodes of all depths. The board is
    /// left as it was. A depth limit never aborts, so with a depth of at
    /// least one it gives `None` only where none of the listed moves can be
    /// played.
    pub fn ids<const LIMIT: u8>(&mut self, board: &mut Board, limits: &SearchLimits, hard_bound_ms: u64) -> (r: Option<SearchResult>)
        requires
            old(self).wf(),
            old(board).wf(),
            LIMIT == Restrictions::TIME ==> limits.base_inc is Some,
            LIMIT == Restrictions::NODES ==> limits.max_nodes is Some,
            LIMIT == Restrictions::DEPTH ==> limits.max_depth is Some && limits.max_depth->Some_0 < 255,
            hard_bound_ms <= 1_000_000_000_000,
        ensures
            final(self).wf(),
            final(board).same_state(old(board)),
            final(self).last_val == (match r {
                Some(res) => res.evaluation,
                None => 0,
            }),
            r is Some ==> r->Some_0.best_move != Move(0),
            r matches Some(res) ==> plays(old(board).node(), res.best_move),
            LIMIT == Restrictions::DEPTH && limits.max_depth->Some_0 >= 1 && r is None ==> forall|m: Move| #[trigger] listed(
                old(board).pos(),
                m,
            ) ==> !plays(old(board).node(), m),
            LIMIT == Restrictions::NODES && r is None ==> final(self).search_algo.info.abort || forall|m: Move|
                #[trigger] listed(old(board).pos(), m) ==> !plays(old(board).node(), m),
            LIMIT == Restrictions::DEPTH && limits.max_depth->Some_0 >= 1 ==> (r matches Some(res) ==> {
                let top = if limits.max_depth->Some_0 < 63 { limits.max_depth->Some_0 } else { 63 };
                &&& 1 <= res.depth <= top
                &&& res.depth < top ==> forall|m: Move| #[trigger] listed(old(board).pos(), m) ==> !plays(old(board).node(), m)
            }),
    {
        let ghost n0 = board.node();
        let mut restrictions = Restrictions::new();
        let start_time = now();
        let (base, inc): (u64, u64) = if LIMIT == Restrictions::TIME {
            match limits.base_inc {
                Some(bi) => bi,
                None => (0, 0),
            }
        } else {
            (0, 0)
        };
        if LIMIT == Restrictions::NODES {
            restrictions.max_nodes = match limits.max_nodes {
                Some(n) => n,
                None => GLOBAL_MAX_SEARCH_NODES,
            };
        }
        let soft = soft_limit_ms(base, inc);
        restrictions.end = after_ms(start_time, hard_bound_ms);
        let mut nodes_searched: u64 = 0;
        let max_depth: u8 = if LIMIT == Restrictions::DEPTH {
            let d = match limits.max_depth {
                Some(d) => d,
                None => 0,
            };
            if d + 1 < MAX_SEARCH_DEPTH as u8 { d + 1 } else { MAX_SEARCH_DEPTH as u8 }
        } else {
            MAX_SEARCH_DEPTH as u8
        };
        let mut best_res: Option<SearchResult> = None;
        let mut current_depth: u8 = 1;
        let ghost b0 = *board;
        let ghost mut none_found = false;
        while current_depth < max_depth
            invariant
                none_found ==> forall|m: Move| #[trigger] listed(n0.pos, m) ==> !plays(n0, m),
                LIMIT != Restrictions::TIME && best_res is None ==> current_depth == 1,
                LIMIT == Restrictions::DEPTH ==> (best_res matches Some(res) ==> res.depth + 1 == current_depth && res.depth >= 1),
                current_depth <= max_depth || max_depth < 1,
                self.wf(),
                board.same_state(&b0),
                b0 == *old(board),
                board.wf(),
                1 <= current_depth,
                max_depth <= 64,
                best_res is Some ==> best_res->Some_0.best_move != Move(0),
                n0 == old(board).node(),
                best_res matches Some(res) ==> plays(n0, res.best_move),
            ensures
                LIMIT == Restrictions::DEPTH && max_depth >= 2 && best_res is None ==> none_found,
                LIMIT != Restrictions::TIME && max_depth >= 2 && best_res is None ==> none_found || self.search_algo.info.abort,
                LIMIT == Restrictions::DEPTH && max_depth >= 2 && best_res is Some ==> current_depth == max_depth || none_found,
            decreases max_depth - current_depth,
        {
            if LIMIT == Restrictions::TIME && longer(elapsed(start_time), millis(soft)) {
                break;
            }
            match self.search_algo.negamax::<LIMIT>(
                board,
                current_depth,
                restrictions,
                FIRST_WINDOW(),
                FIRST_WINDOW(),
                self.last_val,
            ) {
                Some(result) => {
                    proof {
                        crate::search::simple_search::lemma_same_state_wf(*board, b0);
                    }
                    nodes_searched = nodes_searched.wrapping_add(result.nodes_searched);
                    restrictions.max_nodes = restrictions.max_nodes.saturating_sub(result.nodes_searched);
                    if result.best_move != Move(0) {
                        best_res = Some(result);
                    } else {
                        break;
                    }
                },
                None => {
                    proof {
                        none_found = true;
                    }
                    break;
                },
            }
            current_depth += 1;
        }
        proof {
            if LIMIT == Restrictions::DEPTH && limits.max_depth->Some_0 >= 1 {
                assert(max_depth >= 2);
                if best_res is Some {
                    assert(best_res->Some_0.depth + 1 == current_depth);
                    assert(current_depth <= max_depth);
                    let top = if limits.max_depth->Some_0 < 63 { limits.max_depth->Some_0 } else { 63 };
                    assert(1 <= best_res->Some_0.depth <= top);
                    if best_res->Some_0.depth < top {
                        assert(none_found);
                        assert(forall|m: Move| #[trigger] listed(n0.pos, m) ==> !plays(n0, m));
                    }
                }
            }
        }
        match best_res {
            Some(res) => {
                self.last_val = res.evaluation;
                Some(SearchResult { nodes_searched: nodes_searched, ..res })
            },
            None => {
                self.last_val = 0;
                None
            },
        }
    }

    /// Starts a new search turn and searches under the first limit that
    /// `limits` sets: depth, nodes, then time. `None` when it sets none, and,
    /// under a depth limit of at least one, only where none of the listed
    /// moves can be played.
    pub fn search(&mut self, board: &mut Board, limits: &SearchLimits, hard_bound_ms: u64) -> (r: Option<SearchResult>)
        requires
            old(self).wf(),
            old(board).wf(),
            limits.max_depth is Some ==> limits.max_depth->Some_0 < 255,
            hard_bound_ms <= 1_000_000_000_000,
        ensures
            final(self).wf(),
            final(board).same_state(old(board)),
            limits.max_depth is None && limits.max_nodes is None && limits.base_inc is None ==> r is None,
            r matches Some(res) ==> plays(old(board).node(), res.best_move),
            limits.max_depth matches Some(d) && d >= 1 && r is None ==> forall|m: Move| #[trigger] listed(old(board).pos(), m)
                ==> !plays(old(board).node(), m),
            limits.max_depth is None && limits.max_nodes is Some && r is None ==> final(self).search_algo.info.abort
                || forall|m: Move| #[trigger] listed(old(board).pos(), m) ==> !plays(old(board).node(), m),
            limits.max_depth is Some && limits.max_depth->Some_0 >= 1 ==> (r matches Some(res) ==> {
                let top = if limits.max_depth->Some_0 < 63 { limits.max_depth->Some_0 } else { 63 };
                &&& 1 <= res.depth <= top
                &&& res.depth < top ==> forall|m: Move| #[trigger] listed(old(board).pos(), m) ==> !plays(old(board).node(), m)
            }),
    {
        self.search_algo.new_search_turn();
        if limits.max_depth.is_some() {
            return self.ids::<4>(board, limits, hard_bound_ms);
        } else if limits.max_nodes.is_some() {
            return self.ids::<1>(board, limits, hard_bound_ms);
        } else if limits.base_inc.is_some() {
            return self.ids::<2>(board, limits, hard_bound_ms);
        }
        None
    }
}

} // verus!
