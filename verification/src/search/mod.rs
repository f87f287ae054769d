pub mod history;
pub mod ids;
pub mod simple_search;
pub mod tree;

use vstd::prelude::*;
use crate::chess::chess_move::Move;

verus! {

pub const MAX_SEARCH_DEPTH: usize = 64;
pub const GLOBAL_MAX_SEARCH_DURATION_H: u64 = 100000000u64;
/// The node budget of a search without a node limit.
pub const GLOBAL_MAX_SEARCH_NODES: u64 = 0xFFFF_FFFF_FFFF_FFFFu64;

/// What bounds a search: a depth, a clock (base and increment in
/// milliseconds), a node count, or none.
#[derive(Clone, Debug)]
pub struct SearchLimits {
    pub max_depth: Option<u8>,
    pub base_inc: Option<(u64, u64)>,
    pub max_nodes: Option<u64>,
    pub infinite: bool,
}

impl SearchLimits {
    /// The limits of a search to depth `d`.
    pub fn depth(d: u8) -> (l: Self)
        ensures
            l.max_depth == Some(d),
            l.base_inc is None,
            l.max_nodes is None,
            !l.infinite,
    {
        SearchLimits { max_depth: Some(d), base_inc: None, max_nodes: None, infinite: false }
    }

    /// The limits of a search of `n` nodes.
    pub fn nodes(n: u64) -> (l: Self)
        ensures
            l.max_nodes == Some(n),
            l.base_inc is None,
            l.max_depth is None,
            !l.infinite,
    {
        SearchLimits { max_depth: None, base_inc: None, max_nodes: Some(n), infinite: false }
    }
}

/// The outcome of a search.
#[derive(Copy, Clone, Debug, PartialEq, Eq, Structural)]
pub struct SearchResult {
    pub best_move: Move,
    pub evaluation: i16,
    pub nodes_searched: u64,
    pub depth: u8,
}

/// What a stored score says of the true score: equal, at least, at most.
#[derive(Copy, Clone, PartialEq, Eq, Debug, Structural)]
pub enum Ntype {
    Exact,
    Lower,
    Upper,
}

/// A stored search result for the position with hash `hash`.
#[derive(Copy, Clone, PartialEq, Eq, Debug, Structural)]
pub struct TTableEntry {
    pub hash: u64,
    pub best_move: Move,
    pub depth: u8,
    pub score: i16,
    pub ntype: Ntype,
    pub age: u8,
}

impl TTableEntry {
    pub open spec fn empty_spec() -> TTableEntry {
        TTableEntry { hash: 0, best_move: Move(0), depth: 0, score: 0, ntype: Ntype::Exact, age: 0 }
    }

    /// The entry stored nowhere yet.
    pub fn empty() -> (e: Self)
        ensures
            e == TTableEntry::empty_spec(),
    {
        TTableEntry { hash: 0, best_move: Move(0), depth: 0, score: 0, ntype: Ntype::Exact, age: 0 }
    }

    /// An entry with the given hash, depth and age (exact score 0, no move).
    pub fn debug_entry(hash: u64, depth: u8, age: u8) -> (e: Self)
        ensures
            e == (TTableEntry { hash, depth, age, ..TTableEntry::empty_spec() }),
    {
        TTableEntry { hash, best_move: Move(0), depth, score: 0, ntype: Ntype::Exact, age }
    }
}

/// The slot a new entry goes to, scanning slots `i..` of `es`: the last slot
/// met that is of another age and shallower than every older one met so
/// far (which start at 255), or of the same age and shallower than every
/// same-aged one met so far (which start at the new entry's depth).
pub open spec fn replace_scan(es: Seq<TTableEntry>, e: TTableEntry, i: nat, low: u8, low_old: u8, found: Option<nat>) -> Option<nat>
    decreases 4 - i,
{
    if i >= 4 {
        found
    } else if es[i as int].age != e.age {
        if es[i as int].depth < low_old {
            replace_scan(es, e, i + 1, low, es[i as int].depth, Some(i))
        } else {
            replace_scan(es, e, i + 1, low, low_old, found)
        }
    } else if es[i as int].depth < low {
        replace_scan(es, e, i + 1, es[i as int].depth, low_old, Some(i))
    } else {
        replace_scan(es, e, i + 1, low, low_old, found)
    }
}

/// The first slot of `es` holding hash `h`.
pub open spec fn slot_of(es: Seq<TTableEntry>, h: u64) -> Option<nat>
    decreases es.len(),
{
    if es.len() == 0 {
        None
    } else {
        match slot_of(es.drop_last(), h) {
            Some(i) => Some(i),
            None => if es.last().hash == h { Some((es.len() - 1) as nat) } else { None },
        }
    }
}

/// The slots after storing `e`: an entry for the same position is replaced
/// when `e` is at least as deep and kept otherwise; else the slot chosen by
/// `replace_scan`, if any, takes `e`.
pub open spec fn bucket_insert(es: Seq<TTableEntry>, e: TTableEntry) -> Seq<TTableEntry> {
    match slot_of(es, e.hash) {
        Some(i) => if e.depth >= es[i as int].depth { es.update(i as int, e) } else { es },
        None => match replace_scan(es, e, 0, e.depth, 255, None) {
            Some(i) => es.update(i as int, e),
            None => es,
        },
    }
}

/// Four entries that share an index of the table.
#[derive(Copy, Clone, Debug)]
pub struct Bucket {
    pub entries: [TTableEntry; 4],
}

impl Bucket {
    pub open spec fn view(&self) -> Seq<TTableEntry> {
        self.entries@
    }

    pub fn empty() -> (b: Self)
        ensures
            b@ == Seq::new(4, |i: int| TTableEntry::empty_spec()),
    {
        let b = Bucket { entries: [TTableEntry::empty(); 4] };
        assert(b@ =~= Seq::new(4, |i: int| TTableEntry::empty_spec()));
        b
    }

    /// Stores `new_entry` (see `bucket_insert`).
    pub fn insert(&mut self, new_entry: TTableEntry)
        ensures
            final(self)@ == bucket_insert(old(self)@, new_entry),
    {
        let ghost es = self@;
        let mut replace_index: usize = 0;
        let mut lowest_depth: u8 = new_entry.depth;
        let mut lowest_outdated_depth: u8 = 255;
        let mut should_replace = false;
        let mut i: usize = 0;
        while i < 4
            invariant
                self@ == es,
                es == old(self)@,
                es.len() == 4,
                i <= 4,
                slot_of(es.subrange(0, i as int), new_entry.hash) is None,
                replace_scan(es, new_entry, 0, new_entry.depth, 255, None) == replace_scan(
                    es,
                    new_entry,
                    i as nat,
                    lowest_depth,
                    lowest_outdated_depth,
                    if should_replace { Some(replace_index as nat) } else { None },
                ),
                should_replace ==> replace_index < 4,
            decreases 4 - i,
        {
            let existing = self.entries[i];
            assert(es.subrange(0, i + 1).drop_last() =~= es.subrange(0, i as int));
            if existing.hash == new_entry.hash {
                proof {
                    lemma_slot_prefix(es, new_entry.hash, i as nat);
                }
                assert(slot_of(es, new_entry.hash) == Some(i as nat));
                assert(existing == es[i as int]);
                if new_entry.depth >= existing.depth {
                    self.entries[i] = new_entry;
                    assert(self@ =~= es.update(i as int, new_entry));
                }
                return;
            }
            if existing.age != new_entry.age {
                if existing.depth < lowest_outdated_depth {
                    lowest_outdated_depth = existing.depth;
                    should_replace = true;
                    replace_index = i;
                }
            } else if existing.depth < lowest_depth {
                should_replace = true;
                lowest_depth = existing.depth;
                replace_index = i;
            }
            i += 1;
        }
        assert(es.subrange(0, 4) =~= es);
        if should_replace {
            self.entries[replace_index] = new_entry;
        }
    }

    /// The entry for hash `hash`, if the bucket holds one.
    pub fn get(&self, hash: u64) -> (r: Option<&TTableEntry>)
        ensures
            match slot_of(self@, hash) {
                Some(i) => r == Some(&self@[i as int]),
                None => r is None,
            },
    {
        let mut i: usize = 0;
        while i < 4
            invariant
                i <= 4,
                self@.len() == 4,
                slot_of(self@.subrange(0, i as int), hash) is None,
            decreases 4 - i,
        {
            assert(self@.subrange(0, i + 1).drop_last() =~= self@.subrange(0, i as int));
            if self.entries[i].hash == hash {
                proof {
                    lemma_slot_prefix(self@, hash, i as nat);
                }
                return Some(&self.entries[i]);
            }
            i += 1;
        }
        assert(self@.subrange(0, 4) =~= self@);
        None
    }
}

/// When no slot before `i` holds `h` and slot `i` does, `i` is the first.
proof fn lemma_slot_prefix(es: Seq<TTableEntry>, h: u64, i: nat)
    requires
        i < es.len(),
        slot_of(es.subrange(0, i as int), h) is None,
        es[i as int].hash == h,
    ensures
        slot_of(es, h) == Some(i),
    decreases es.len(),
{
    if es.len() > i + 1 {
        assert(es.drop_last().subrange(0, i as int) =~= es.subrange(0, i as int));
        lemma_slot_prefix(es.drop_last(), h, i);
    } else {
        assert(es.subrange(0, i as int) =~= es.drop_last());
    }
}

/// `slot_of` finds the first slot holding `h`, and finds none only when no slot holds it.
proof fn lemma_slot_of_first(es: Seq<TTableEntry>, h: u64)
    ensures
        match slot_of(es, h) {
            Some(i) => i < es.len() && es[i as int].hash == h && forall|k: int| 0 <= k < i ==> #[trigger] es[k].hash != h,
            None => forall|k: int| 0 <= k < es.len() ==> #[trigger] es[k].hash != h,
        },
    decreases es.len(),
{
    if es.len() > 0 {
        let d = es.drop_last();
        lemma_slot_of_first(d, h);
        match slot_of(d, h) {
            Some(i) => {
                assert forall|k: int| 0 <= k < i implies #[trigger] es[k].hash != h by {
                    assert(d[k] == es[k]);
                }
                assert(d[i as int] == es[i as int]);
            },
            None => {
                if es.last().hash != h {
                    assert forall|k: int| 0 <= k < es.len() implies #[trigger] es[k].hash != h by {
                        if k < es.len() - 1 {
                            assert(d[k] == es[k]);
                        }
                    }
                } else {
                    assert forall|k: int| 0 <= k < es.len() - 1 implies #[trigger] es[k].hash != h by {
                        assert(d[k] == es[k]);
                    }
                }
            },
        }
    }
}

/// A slot holding `h` with none before it is the one `slot_of` finds.
proof fn lemma_slot_of_at(es: Seq<TTableEntry>, h: u64, i: nat)
    requires
        i < es.len(),
        es[i as int].hash == h,
        forall|k: int| 0 <= k < i ==> #[trigger] es[k].hash != h,
    ensures
        slot_of(es, h) == Some(i),
{
    lemma_slot_of_first(es, h);
}

proof fn lemma_replace_scan_range(es: Seq<TTableEntry>, e: TTableEntry, i: nat, low: u8, low_old: u8, found: Option<nat>)
    requires
        found matches Some(f) ==> f < 4,
    ensures
        replace_scan(es, e, i, low, low_old, found) matches Some(f) ==> f < 4,
    decreases 4 - i,
{
    if i < 4 {
        if es[i as int].age != e.age {
            if es[i as int].depth < low_old {
                lemma_replace_scan_range(es, e, i + 1, low, es[i as int].depth, Some(i));
            } else {
                lemma_replace_scan_range(es, e, i + 1, low, low_old, found);
            }
        } else if es[i as int].depth < low {
            lemma_replace_scan_range(es, e, i + 1, es[i as int].depth, low_old, Some(i));
        } else {
            lemma_replace_scan_range(es, e, i + 1, low, low_old, found);
        }
    }
}

/// A slot is free for an entry of age `age` when it is from another search
/// and shallower than `low_old`, or from this search and shallower than `low`.
pub open spec fn replaceable(x: TTableEntry, age: u8, low: u8, low_old: u8) -> bool {
    (x.age != age && x.depth < low_old) || (x.age == age && x.depth < low)
}

/// The scan finds no slot exactly when none was found before and no slot
/// from `i` on is free.
pub proof fn lemma_replace_scan_none(es: Seq<TTableEntry>, e: TTableEntry, i: nat, low: u8, low_old: u8, found: Option<nat>)
    requires
        es.len() == 4,
    ensures
        replace_scan(es, e, i, low, low_old, found) is None <==> (found is None && forall|j: int|
            i <= j < 4 ==> !#[trigger] replaceable(es[j], e.age, low, low_old)),
    decreases 4 - i,
{
    if i < 4 {
        let x = es[i as int];
        if x.age != e.age {
            if x.depth < low_old {
                lemma_replace_scan_none(es, e, i + 1, low, x.depth, Some(i));
                assert(replaceable(es[i as int], e.age, low, low_old));
            } else {
                lemma_replace_scan_none(es, e, i + 1, low, low_old, found);
            }
        } else if x.depth < low {
            lemma_replace_scan_none(es, e, i + 1, x.depth, low_old, Some(i));
            assert(replaceable(es[i as int], e.age, low, low_old));
        } else {
            lemma_replace_scan_none(es, e, i + 1, low, low_old, found);
        }
    }
}

/// What a lookup gives back after a store: once `e` is stored in a bucket,
/// looking up its hash finds `e`, unless the bucket already held that
/// position searched deeper (then it finds that entry, which stays), or it
/// held neither that position nor a slot it may give up (then the bucket
/// is unchanged).
pub proof fn law_bucket_store_then_find(es: Seq<TTableEntry>, e: TTableEntry)
    requires
        es.len() == 4,
    ensures
        ({
            let r = bucket_insert(es, e);
            let kept_deeper = slot_of(es, e.hash) matches Some(i) && e.depth < es[i as int].depth;
            let no_room = slot_of(es, e.hash) is None && replace_scan(es, e, 0, e.depth, 255, None) is None;
            &&& no_room ==> r == es
            &&& no_room <==> (slot_of(es, e.hash) is None && forall|j: int| 0 <= j < 4 ==> !#[trigger] replaceable(es[j], e.age, e.depth, 255))
            &&& kept_deeper ==> r == es && slot_of(r, e.hash) == slot_of(es, e.hash)
            &&& !no_room && !kept_deeper ==> (slot_of(r, e.hash) matches Some(k) && r[k as int] == e)
        }),
{
    let h = e.hash;
    lemma_slot_of_first(es, h);
    lemma_replace_scan_none(es, e, 0, e.depth, 255, None);
    match slot_of(es, h) {
        Some(i) => {
            if e.depth >= es[i as int].depth {
                let r = es.update(i as int, e);
                lemma_slot_of_at(r, h, i);
            }
        },
        None => {
            lemma_replace_scan_range(es, e, 0, e.depth, 255, None);
            match replace_scan(es, e, 0, e.depth, 255, None) {
                Some(j) => {
                    let r = es.update(j as int, e);
                    lemma_slot_of_at(r, h, j);
                },
                None => {},
            }
        },
    }
}

/// The same for the table: after `insert(e)`, `get(e.hash)` looks in the
/// bucket that the store changed, and finds there what the bucket law says.
pub proof fn law_table_store_then_find(before: TTable, after: TTable, e: TTableEntry)
    requires
        before.wf(),
        after.size == before.size,
        after.table@[before.index_of(e.hash)]@ == bucket_insert(before.table@[before.index_of(e.hash)]@, e),
        before.table@[before.index_of(e.hash)]@.len() == 4,
    ensures
        after.index_of(e.hash) == before.index_of(e.hash),
        ({
            let es = before.table@[before.index_of(e.hash)]@;
            let r = after.table@[after.index_of(e.hash)]@;
            let kept_deeper = slot_of(es, e.hash) matches Some(i) && e.depth < es[i as int].depth;
            let no_room = slot_of(es, e.hash) is None && replace_scan(es, e, 0, e.depth, 255, None) is None;
            &&& no_room ==> r == es
            &&& kept_deeper ==> r == es
            &&& !no_room && !kept_deeper ==> (slot_of(r, e.hash) matches Some(k) && r[k as int] == e)
        }),
{
    law_bucket_store_then_find(before.table@[before.index_of(e.hash)]@, e);
}

/// `n` is a power of two.
pub open spec fn is_pow2(n: nat) -> bool
    decreases n,
{
    if n == 1 {
        true
    } else if n < 1 || n % 2 == 1 {
        false
    } else {
        is_pow2(n / 2)
    }
}

/// The transposition table: buckets indexed by the hash modulo their number,
/// a power of two.
pub struct TTable {
    pub table: Vec<Bucket>,
    pub size: usize,
}

impl TTable {
    pub open spec fn wf(&self) -> bool {
        &&& self.size == self.table@.len()
        &&& self.size > 0
    }

    /// The bucket that a hash goes to.
    pub open spec fn index_of(&self, hash: u64) -> int {
        (hash as int) % (self.size as int)
    }

    /// A table of at least `size` buckets (the next power of two), all empty.
    pub fn new(size: usize) -> (t: Self)
        requires
            size <= 0x4000_0000,
        ensures
            t.wf(),
            is_pow2(t.size as nat),
            t.size >= size,
            t.size == 1 || t.size / 2 < size,
            forall|i: int| 0 <= i < t.size ==> #[trigger] t.table@[i]@ == Seq::new(4, |k: int| TTableEntry::empty_spec()),
    {
        let mut p: usize = 1;
        while p < size
            invariant
                size <= 0x4000_0000,
                1 <= p <= 0x8000_0000,
                is_pow2(p as nat),
                p == 1 || p / 2 < size,
            decreases 0x8000_0000 - p,
        {
            p = p * 2;
        }
        let mut table: Vec<Bucket> = Vec::new();
        let mut i: usize = 0;
        while i < p
            invariant
                i <= p,
                table@.len() == i,
                forall|j: int| 0 <= j < i ==> #[trigger] table@[j]@ == Seq::new(4, |k: int| TTableEntry::empty_spec()),
            decreases p - i,
        {
            table.push(Bucket::empty());
            i += 1;
        }
        TTable { table, size: p }
    }

    /// Empties every bucket.
    pub fn clear(&mut self)
        requires
            old(self).wf(),
        ensures
            final(self).wf(),
            final(self).size == old(self).size,
            forall|i: int| 0 <= i < final(self).size ==> #[trigger] final(self).table@[i]@ == Seq::new(4, |k: int| TTableEntry::empty_spec()),
    {
        let mut i: usize = 0;
        while i < self.size
            invariant
                self.wf(),
                self.size == old(self).size,
                i <= self.size,
                forall|j: int| 0 <= j < i ==> #[trigger] self.table@[j]@ == Seq::new(4, |k: int| TTableEntry::empty_spec()),
            decreases self.size - i,
        {
            self.table.set(i, Bucket::empty());
            i += 1;
        }
    }

    /// Stores `entry` in its bucket.
    pub fn insert(&mut self, entry: TTableEntry)
        requires
            old(self).wf(),
        ensures
            final(self).wf(),
            final(self).size == old(self).size,
            final(self).table@ == old(self).table@.update(
                old(self).index_of(entry.hash),
                Bucket { entries: final(self).table@[old(self).index_of(entry.hash)].entries },
            ),
            final(self).table@[old(self).index_of(entry.hash)]@ == bucket_insert(
                old(self).table@[old(self).index_of(entry.hash)]@,
                entry,
            ),
    {
        let index = (entry.hash % (self.size as u64)) as usize;
        let mut b = self.table[index];
        b.insert(entry);
        self.table.set(index, b);
    }

    /// The stored entry for hash `hash`, if its bucket holds one.
    pub fn get(&self, hash: u64) -> (r: Option<&TTableEntry>)
        requires
            self.wf(),
        ensures
            match slot_of(self.table@[self.index_of(hash)]@, hash) {
                Some(i) => r == Some(&self.table@[self.index_of(hash)]@[i as int]),
                None => r is None,
            },
    {
        let index = (hash % (self.size as u64)) as usize;
        self.table[index].get(hash)
    }

    /// The bucket that hash `hash` goes to.
    pub fn get_bucket(&self, hash: u64) -> (b: Bucket)
        requires
            self.wf(),
        ensures
            b == self.table@[self.index_of(hash)],
    {
        let index = (hash % (self.size as u64)) as usize;
        self.table[index]
    }
}

} // verus!
