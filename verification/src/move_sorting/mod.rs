use vstd::prelude::*;
use crate::chess::chess_move::Move;

pub mod advanced_sorting;

verus! {

/// Item `j` holds the first greatest value among the items from `lo` on.
pub open spec fn first_best(s: Seq<(Move, i32)>, lo: int, j: int) -> bool {
    &&& lo <= j < s.len()
    &&& forall|k: int| lo <= k < s.len() ==> #[trigger] s[k].1 <= s[j].1
    &&& forall|k: int| lo <= k < j ==> #[trigger] s[k].1 < s[j].1
}

/// The list after the item at `j` is handed out from position `lo`: it is
/// swapped with the item at `lo`.
pub open spec fn handed_out(s: Seq<(Move, i32)>, lo: int, j: int) -> Seq<(Move, i32)> {
    s.update(j, s[lo]).update(lo, s[j])
}

/// How many items from `lo` up to `hi` have a positive value.
pub open spec fn count_good(s: Seq<(Move, i32)>, lo: int, hi: int) -> nat
    decreases hi - lo,
{
    if hi <= lo {
        0
    } else {
        count_good(s, lo, hi - 1) + if s[hi - 1].1 > 0 { 1nat } else { 0nat }
    }
}

/// The count depends only on the items counted.
pub proof fn lemma_count_good_same(s: Seq<(Move, i32)>, t: Seq<(Move, i32)>, lo: int, hi: int)
    requires
        forall|k: int| lo <= k < hi ==> s[k] == t[k],
    ensures
        count_good(s, lo, hi) == count_good(t, lo, hi),
    decreases hi - lo,
{
    if hi > lo {
        lemma_count_good_same(s, t, lo, hi - 1);
    }
}

/// Counting from `lo` is the first item's share and the count from `lo + 1`.
pub proof fn lemma_count_good_first(s: Seq<(Move, i32)>, lo: int, hi: int)
    requires
        lo < hi,
    ensures
        count_good(s, lo, hi) == count_good(s, lo + 1, hi) + if s[lo].1 > 0 { 1nat } else { 0nat },
    decreases hi - lo,
{
    if hi - 1 > lo {
        lemma_count_good_first(s, lo, hi - 1);
    } else {
        assert(count_good(s, lo, lo) == 0);
        assert(count_good(s, lo + 1, hi) == 0);
    }
}

/// Changing one counted item changes the count by the change of its share.
pub proof fn lemma_count_good_update(s: Seq<(Move, i32)>, a: int, x: (Move, i32), lo: int, hi: int)
    requires
        0 <= lo <= a < hi <= s.len(),
    ensures
        count_good(s.update(a, x), lo, hi) + (if s[a].1 > 0 { 1int } else { 0int }) == count_good(s, lo, hi) + (if x.1
            > 0 { 1int } else { 0int }),
    decreases hi - lo,
{
    let t = s.update(a, x);
    if hi - 1 == a {
        assert forall|k: int| lo <= k < hi - 1 implies s[k] == t[k] by {}
        lemma_count_good_same(s, t, lo, hi - 1);
        assert(count_good(t, lo, hi) == count_good(t, lo, hi - 1) + if x.1 > 0 { 1nat } else { 0nat });
        assert(count_good(s, lo, hi) == count_good(s, lo, hi - 1) + if s[a].1 > 0 { 1nat } else { 0nat });
    } else {
        lemma_count_good_update(s, a, x, lo, hi - 1);
        assert(t[hi - 1] == s[hi - 1]);
    }
}

/// With a positive item in range, the count is positive; with none, every
/// item in range is at most 0.
pub proof fn lemma_count_good_zero(s: Seq<(Move, i32)>, lo: int, hi: int)
    ensures
        count_good(s, lo, hi) == 0 <==> forall|k: int| lo <= k < hi ==> #[trigger] s[k].1 <= 0,
    decreases hi - lo,
{
    if hi > lo {
        lemma_count_good_zero(s, lo, hi - 1);
    }
}

/// Handing out an item keeps the count from `lo` and takes its share off the
/// count of the rest.
pub proof fn lemma_count_good_handout(s: Seq<(Move, i32)>, lo: int, j: int)
    requires
        0 <= lo <= j < s.len(),
    ensures
        count_good(handed_out(s, lo, j), lo + 1, s.len() as int) + (if s[j].1 > 0 { 1int } else { 0int })
            == count_good(s, lo, s.len() as int),
{
    let t1 = s.update(j, s[lo]);
    let t = t1.update(lo, s[j]);
    lemma_count_good_update(s, j, s[lo], lo, s.len() as int);
    lemma_count_good_update(t1, lo, s[j], lo, s.len() as int);
    lemma_count_good_first(t, lo, s.len() as int);
    if j == lo {
        assert(t =~= s);
    }
}

/// The item handed out is worth at least every item still to come.
pub proof fn lemma_handout_is_best(s: Seq<(Move, i32)>, lo: int, j: int)
    requires
        0 <= lo,
        first_best(s, lo, j),
    ensures
        forall|k: int| lo < k < s.len() ==> #[trigger] handed_out(s, lo, j)[k].1 <= handed_out(s, lo, j)[lo].1,
{
    let t = handed_out(s, lo, j);
    assert forall|k: int| lo < k < s.len() implies #[trigger] t[k].1 <= t[lo].1 by {
        if k == j {
            assert(t[k] == s[lo]);
        } else {
            assert(t[k] == s[k]);
        }
    }
}

/// The selection sort hands items out best first: the item handed out after
/// another is never worth more than it.
pub proof fn law_handout_best_first(s: Seq<(Move, i32)>, lo: int, j: int, j2: int)
    requires
        0 <= lo,
        first_best(s, lo, j),
        first_best(handed_out(s, lo, j), lo + 1, j2),
    ensures
        handed_out(s, lo, j)[j2].1 <= s[j].1,
{
    let s1 = handed_out(s, lo, j);
    if j2 == j {
        assert(s1[j2] == s[lo] || s1[j2] == s[j]);
    } else {
        assert(s1[j2] == s[j2]);
    }
}

/// Moves with values, handed out best first by a selection sort that swaps
/// each chosen move to the front of the part not yet handed out.
#[derive(Clone, Debug)]
pub struct EvaluatedMoveList<const N: usize> {
    pub moves: Vec<(Move, i32)>,
    pub search_index: usize,
}

impl<const N: usize> EvaluatedMoveList<N> {
    pub open spec fn view(&self) -> Seq<(Move, i32)> {
        self.moves@
    }

    pub open spec fn wf(&self) -> bool {
        &&& self.search_index <= self.moves@.len()
        &&& self.moves@.len() <= N
    }

    pub fn new() -> (l: Self)
        ensures
            l@ == Seq::<(Move, i32)>::empty(),
            l.search_index == 0,
            l.wf(),
    {
        EvaluatedMoveList { moves: Vec::new(), search_index: 0 }
    }

    /// Appends move `m` with value `val`.
    pub fn push(&mut self, m: Move, val: i32)
        requires
            old(self).wf(),
            old(self)@.len() < N,
        ensures
            final(self).wf(),
            final(self)@ == old(self)@.push((m, val)),
            final(self).search_index == old(self).search_index,
    {
        self.moves.push((m, val));
    }

    /// The item at `index`.
    pub fn get_item(&self, index: usize) -> (r: (Move, i32))
        requires
            index < self@.len(),
        ensures
            r == self@[index as int],
    {
        self.moves[index]
    }

    /// Hands out the best item not handed out yet (the first of equal ones)
    /// and swaps it to the front of the rest.
    pub fn selection_sort_next(&mut self) -> (r: Option<(Move, i32)>)
        requires
            old(self).wf(),
        ensures
            final(self).wf(),
            old(self).search_index == old(self)@.len() ==> r is None && final(self)@ == old(self)@
                && final(self).search_index == old(self).search_index,
            old(self).search_index < old(self)@.len() ==> exists|j: int|
                #![trigger old(self)@[j]]
                first_best(old(self)@, old(self).search_index as int, j) && r == Some(old(self)@[j])
                    && final(self)@ == handed_out(old(self)@, old(self).search_index as int, j)
                    && final(self).search_index == old(self).search_index + 1,
    {
        let size = self.moves.len();
        let si = self.search_index;
        if size == si {
            return None;
        }
        let mut best_index = si;
        let mut best_val = self.moves[si].1;
        let mut compare_index = si + 1;
        while compare_index < size
            invariant
                size == self@.len(),
                si < size,
                si <= best_index < compare_index <= size,
                best_val == self@[best_index as int].1,
                forall|k: int| si <= k < compare_index ==> #[trigger] self@[k].1 <= best_val,
                forall|k: int| si <= k < best_index ==> #[trigger] self@[k].1 < best_val,
            decreases size - compare_index,
        {
            let compare_val = self.moves[compare_index].1;
            if compare_val > best_val {
                best_index = compare_index;
                best_val = compare_val;
            }
            compare_index += 1;
        }
        let best_item = self.moves[best_index];
        let ghost before = self@;
        if best_index != si {
            let current_first = self.moves[si];
            self.moves.set(best_index, current_first);
            self.moves.set(si, best_item);
        } else {
            assert(before.update(si as int, before[si as int]).update(si as int, before[si as int]) =~= before);
        }
        self.search_index = si + 1;
        assert(first_best(before, si as int, best_index as int));
        Some(best_item)
    }

    pub fn size(&self) -> (r: usize)
        ensures
            r == self@.len(),
    {
        self.moves.len()
    }

    pub fn search_index(&self) -> (r: usize)
        ensures
            r == self.search_index,
    {
        self.search_index
    }

    /// The items, in their current order.
    pub fn as_slice(&self) -> (s: &[(Move, i32)])
        ensures
            s@ == self@,
    {
        self.moves.as_slice()
    }
}

} // verus!
