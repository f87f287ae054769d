use vstd::prelude::*;
use crate::chess::chess_move::Move;
use crate::chess::board::{Board, Position, GAME_POSITIONS_SIZE, draw_spec};
use crate::chess::board::hash::Keys;
use crate::chess::board::make_move::{apply_move, mover_safe};
use crate::chess::board::laws::move_fits;
use crate::chess::board::move_gen::gen_spec;
use crate::chess::board::attacks::attacked;
use crate::chess::board::bitboard::lsb_num;
use crate::chess::board::evaluation::{eval_fits, eval_spec, CHECK_MATE, NEG_INFINITY, POSITIVE_INFINITY};

verus! {

/// What the plain search sees of a board: its position, the hashes of the
/// game so far, how many moves it can take back, and its hash keys.
pub struct Node {
    pub pos: Position,
    pub positions: Seq<u64>,
    pub undo_len: nat,
    pub z: Keys,
}

impl Board {
    /// The node of the game tree that the board stands at.
    pub open spec fn node(&self) -> Node {
        Node { pos: self.pos(), positions: self.positions@, undo_len: self.undo_stack@.len(), z: self.zobrist@ }
    }
}

/// The search plays `m` in `n`: the histories have room for it, it fits the
/// position, it leaves the mover's king safe, and the castling byte stays
/// within its key table.
#[verifier::opaque]
pub open spec fn plays(n: Node, m: Move) -> bool {
    &&& n.undo_len < GAME_POSITIONS_SIZE
    &&& n.positions.len() < GAME_POSITIONS_SIZE
    &&& move_fits(n.pos, m)
    &&& mover_safe(apply_move(n.pos, n.z, m, true))
    &&& apply_move(n.pos, n.z, m, true).castling < 16
}

/// The node reached when the search plays `m` in `n`.
#[verifier::opaque]
pub open spec fn child(n: Node, m: Move) -> Node {
    let q = apply_move(n.pos, n.z, m, true);
    Node { pos: q, positions: n.positions.push(q.hash), undo_len: n.undo_len + 1, z: n.z }
}

/// The pseudo-legal moves of the side to move in `n`, as the generator lists them.
#[verifier::opaque]
pub open spec fn node_moves(n: Node) -> Seq<Move> {
    gen_spec(n.pos, n.pos.turn.idx(), true, true)
}

/// The static value of a position for the side to move: its evaluation
/// where the blend fits the engine's arithmetic, else 0.
#[verifier::opaque]
pub open spec fn leaf_value(p: Position) -> int {
    if eval_fits(p.phase, p.mg, p.eg) {
        eval_spec(p.phase, p.mg, p.eg, p.turn) as int
    } else {
        0
    }
}

/// The side to move has a king and it is attacked.
#[verifier::opaque]
pub open spec fn in_check_at(p: Position) -> bool {
    let k = p.piece_bb[(p.turn.idx() * 6 + 5) as int];
    k != 0 && attacked(p, p.turn.other().idx(), lsb_num(k))
}

/// The value of node `n` searched to `depth` plies, for the side to move:
/// the static value at depth 0; 0 when a draw can be claimed; otherwise the
/// best reply, or, with no move to play, a mate score in check and 0 out of it.
pub open spec fn tree_value(n: Node, depth: nat) -> int
    decreases depth, node_moves(n).len() + 1,
{
    if depth == 0 {
        leaf_value(n.pos)
    } else if draw_spec(n.pos.halfmoves, n.pos.hash, n.positions) {
        0
    } else {
        match best_reply(n, node_moves(n), (depth - 1) as nat) {
            Some(v) => v,
            None => if in_check_at(n.pos) { CHECK_MATE as int } else { 0 },
        }
    }
}

/// The greatest of the negated values, searched to `d` plies, of the nodes
/// that the moves of `s` the search plays in `n` lead to; none when it plays none.
pub open spec fn best_reply(n: Node, s: Seq<Move>, d: nat) -> Option<int>
    decreases d + 1, s.len(),
{
    if s.len() == 0 {
        None
    } else {
        let rest = best_reply(n, s.drop_last(), d);
        if plays(n, s.last()) {
            let v = -tree_value(child(n, s.last()), d);
            match rest {
                Some(b) => Some(if v > b { v } else { b }),
                None => Some(v),
            }
        } else {
            rest
        }
    }
}

/// Every static value met searching `n` to `depth` plies lies strictly
/// between the search's infinities.
pub open spec fn tame(n: Node, depth: nat) -> bool
    decreases depth, node_moves(n).len() + 1,
{
    if depth == 0 {
        NEG_INFINITY < leaf_value(n.pos) < POSITIVE_INFINITY
    } else if draw_spec(n.pos.halfmoves, n.pos.hash, n.positions) {
        true
    } else {
        all_tame(n, node_moves(n), (depth - 1) as nat)
    }
}

/// The nodes that the moves of `s` the search plays in `n` lead to are tame to `d` plies.
pub open spec fn all_tame(n: Node, s: Seq<Move>, d: nat) -> bool
    decreases d + 1, s.len(),
{
    if s.len() == 0 {
        true
    } else {
        &&& all_tame(n, s.drop_last(), d)
        &&& plays(n, s.last()) ==> tame(child(n, s.last()), d)
    }
}

/// What a search with window (`a`, `b`) may answer for a node of value `v`:
/// the value itself inside the window, at most `a` below it, at least `b` above it.
pub open spec fn window_answer(r: int, v: int, a: int, b: int) -> bool {
    &&& a < v < b ==> r == v
    &&& v <= a ==> r <= a
    &&& v >= b ==> r >= b
}

/// The best reply is the greatest negated value of a played move, and there
/// is none exactly when no move is played.
pub proof fn lemma_best_reply_char(n: Node, s: Seq<Move>, d: nat)
    ensures
        (best_reply(n, s, d) is None) == (forall|i: int| 0 <= i < s.len() ==> !#[trigger] plays(n, s[i])),
        best_reply(n, s, d) matches Some(v) ==> {
            &&& exists|i: int| 0 <= i < s.len() && #[trigger] plays(n, s[i]) && -tree_value(child(n, s[i]), d) == v
            &&& forall|i: int| 0 <= i < s.len() && #[trigger] plays(n, s[i]) ==> -tree_value(child(n, s[i]), d) <= v
        },
    decreases s.len(),
{
    if s.len() > 0 {
        let t = s.drop_last();
        lemma_best_reply_char(n, t, d);
        assert forall|i: int| 0 <= i < t.len() implies #[trigger] t[i] == s[i] by {}
        let last = s.len() - 1;
        assert(s[last] == s.last());
        if best_reply(n, t, d) is None && !plays(n, s.last()) {
            assert forall|i: int| 0 <= i < s.len() implies !#[trigger] plays(n, s[i]) by {
                if i < last {
                    assert(t[i] == s[i]);
                }
            }
        }
        match best_reply(n, s, d) {
            Some(v) => {
                assert forall|i: int| 0 <= i < s.len() && #[trigger] plays(n, s[i]) implies -tree_value(child(n, s[i]), d) <= v by {
                    if i < last {
                        assert(t[i] == s[i]);
                        assert(plays(n, t[i]));
                    }
                }
                if plays(n, s.last()) && (best_reply(n, t, d) is None || -tree_value(child(n, s.last()), d) > best_reply(n, t, d)->Some_0) {
                    assert(plays(n, s[last]));
                } else {
                    let b = best_reply(n, t, d)->Some_0;
                    let i = choose|i: int| 0 <= i < t.len() && #[trigger] plays(n, t[i]) && -tree_value(child(n, t[i]), d) == b;
                    assert(plays(n, s[i]));
                }
            },
            None => {},
        }
    }
}

/// Two lists with the same moves have the same best reply.
pub proof fn lemma_best_reply_same(n: Node, s1: Seq<Move>, s2: Seq<Move>, d: nat)
    requires
        forall|m: Move| s1.contains(m) <==> s2.contains(m),
    ensures
        best_reply(n, s1, d) == best_reply(n, s2, d),
{
    lemma_best_reply_char(n, s1, d);
    lemma_best_reply_char(n, s2, d);
    if best_reply(n, s1, d) is None && best_reply(n, s2, d) is Some {
        let i = choose|i: int| 0 <= i < s2.len() && #[trigger] plays(n, s2[i]) && -tree_value(child(n, s2[i]), d) == best_reply(n, s2, d)->Some_0;
        assert(s2.contains(s2[i]));
        let j = choose|j: int| 0 <= j < s1.len() && s1[j] == s2[i];
        assert(plays(n, s1[j]));
    }
    if best_reply(n, s2, d) is None && best_reply(n, s1, d) is Some {
        let i = choose|i: int| 0 <= i < s1.len() && #[trigger] plays(n, s1[i]) && -tree_value(child(n, s1[i]), d) == best_reply(n, s1, d)->Some_0;
        assert(s1.contains(s1[i]));
        let j = choose|j: int| 0 <= j < s2.len() && s2[j] == s1[i];
        assert(plays(n, s2[j]));
    }
    if best_reply(n, s1, d) is Some && best_reply(n, s2, d) is Some {
        let v1 = best_reply(n, s1, d)->Some_0;
        let v2 = best_reply(n, s2, d)->Some_0;
        let i1 = choose|i: int| 0 <= i < s1.len() && #[trigger] plays(n, s1[i]) && -tree_value(child(n, s1[i]), d) == v1;
        let i2 = choose|i: int| 0 <= i < s2.len() && #[trigger] plays(n, s2[i]) && -tree_value(child(n, s2[i]), d) == v2;
        assert(s1.contains(s1[i1]));
        assert(s2.contains(s2[i2]));
        let j1 = choose|j: int| 0 <= j < s2.len() && s2[j] == s1[i1];
        let j2 = choose|j: int| 0 <= j < s1.len() && s1[j] == s2[i2];
        assert(plays(n, s2[j1]));
        assert(plays(n, s1[j2]));
    }
}

/// Lists with the same multiset of moves hold the same moves.
pub proof fn lemma_same_moves(s1: Seq<Move>, s2: Seq<Move>)
    requires
        s1.to_multiset() == s2.to_multiset(),
    ensures
        forall|m: Move| s1.contains(m) <==> s2.contains(m),
{
    assert forall|m: Move| s1.contains(m) <==> s2.contains(m) by {
        vstd::seq_lib::to_multiset_contains(s1, m);
        vstd::seq_lib::to_multiset_contains(s2, m);
    }
}

/// Tameness of a list holds move by move.
pub proof fn lemma_all_tame_char(n: Node, s: Seq<Move>, d: nat)
    ensures
        all_tame(n, s, d) == (forall|i: int| 0 <= i < s.len() && #[trigger] plays(n, s[i]) ==> tame(child(n, s[i]), d)),
    decreases s.len(),
{
    if s.len() > 0 {
        let t = s.drop_last();
        lemma_all_tame_char(n, t, d);
        let last = s.len() - 1;
        assert(s[last] == s.last());
        assert forall|i: int| 0 <= i < t.len() implies #[trigger] t[i] == s[i] by {}
        if all_tame(n, s, d) {
            assert forall|i: int| 0 <= i < s.len() && #[trigger] plays(n, s[i]) implies tame(child(n, s[i]), d) by {
                if i < last {
                    assert(t[i] == s[i]);
                    assert(plays(n, t[i]));
                }
            }
        } else if !all_tame(n, t, d) {
            let i = choose|i: int| 0 <= i < t.len() && #[trigger] plays(n, t[i]) && !tame(child(n, t[i]), d);
            assert(plays(n, s[i]));
        } else {
            assert(plays(n, s[last]));
        }
    }
}

/// A node whose draw cannot be claimed, searched to at least one ply, is
/// worth its best reply, and at least what any move it plays is worth.
pub proof fn lemma_inner_value(n: Node, depth: nat, s: Seq<Move>, i: int)
    requires
        depth > 0,
        !draw_spec(n.pos.halfmoves, n.pos.hash, n.positions),
        forall|m: Move| s.contains(m) <==> node_moves(n).contains(m),
        0 <= i < s.len(),
        plays(n, s[i]),
    ensures
        best_reply(n, node_moves(n), (depth - 1) as nat) is Some,
        tree_value(n, depth) == best_reply(n, node_moves(n), (depth - 1) as nat)->Some_0,
        -tree_value(child(n, s[i]), (depth - 1) as nat) <= tree_value(n, depth),
{
    let d = (depth - 1) as nat;
    lemma_best_reply_same(n, s, node_moves(n), d);
    lemma_best_reply_char(n, s, d);
}

/// A played move of a list of tame moves leads to a tame node.
pub proof fn lemma_tame_member(n: Node, s: Seq<Move>, d: nat, m: Move)
    requires
        all_tame(n, s, d),
        s.contains(m),
        plays(n, m),
    ensures
        tame(child(n, m), d),
{
    lemma_all_tame_char(n, s, d);
    let j = choose|j: int| 0 <= j < s.len() && s[j] == m;
    assert(plays(n, s[j]));
}

/// A played move of a tame node leads to a tame node.
pub proof fn lemma_tame_child(n: Node, depth: nat, m: Move)
    requires
        tame(n, depth),
        depth > 0,
        !draw_spec(n.pos.halfmoves, n.pos.hash, n.positions),
        node_moves(n).contains(m),
        plays(n, m),
    ensures
        tame(child(n, m), (depth - 1) as nat),
{
    lemma_all_tame_char(n, node_moves(n), (depth - 1) as nat);
    let j = choose|j: int| 0 <= j < node_moves(n).len() && node_moves(n)[j] == m;
    assert(plays(n, node_moves(n)[j]));
}

/// The values of a tame node lie strictly between the search's infinities.
pub proof fn lemma_tame_bounds(n: Node, depth: nat)
    requires
        tame(n, depth),
    ensures
        NEG_INFINITY < tree_value(n, depth) < POSITIVE_INFINITY,
    decreases depth, node_moves(n).len() + 1,
{
    if depth > 0 && !draw_spec(n.pos.halfmoves, n.pos.hash, n.positions) {
        lemma_best_reply_bounds(n, node_moves(n), (depth - 1) as nat);
    }
}

/// The best reply over tame nodes lies strictly between the infinities.
pub proof fn lemma_best_reply_bounds(n: Node, s: Seq<Move>, d: nat)
    requires
        all_tame(n, s, d),
    ensures
        best_reply(n, s, d) matches Some(v) ==> NEG_INFINITY < v < POSITIVE_INFINITY,
    decreases d + 1, s.len(),
{
    if s.len() > 0 {
        lemma_best_reply_bounds(n, s.drop_last(), d);
        if plays(n, s.last()) {
            lemma_tame_bounds(child(n, s.last()), d);
        }
    }
}

} // verus!
