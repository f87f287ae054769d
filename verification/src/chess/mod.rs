pub mod square;
pub mod constants;
pub mod chess_move;
pub mod board;

use vstd::prelude::*;
use vstd::string::StringSliceAdditionalSpecFns;
use crate::chess::board::{Board, FenError, GAME_POSITIONS_SIZE};
use crate::chess::board::hash::HashList;
use crate::chess::board::fen::{fen_spec, scored, start_position, split, parse_u16};
use crate::chess::board::make_move::{apply_move, mover_safe, move_shape_ok, lemma_apply_shape, revert_move, undo_of};
use crate::chess::board::laws::{pos_wf, move_fits};
use crate::chess::board::hash::Keys;
use crate::chess::board::Position;
use crate::chess::board::move_gen::gen_spec;
use crate::chess::board::draw_spec;
use crate::chess::chess_move::{Move, MoveList, MOVE_GEN_SIZE};

verus! {

/// A game: the board, the fullmove counter and the hashes of the positions
/// played, for spotting repetitions.
pub struct Game {
    pub board: Board,
    pub fullmove_counter: u16,
    pub positions: HashList<GAME_POSITIONS_SIZE>,
}

impl Game {
    /// A game at the starting position.
    pub fn default() -> (g: Game)
        ensures
            g.board.pos() == scored(start_position(), g.board.zobrist@),
            g.board.wf(),
            g.board.undo_stack@.len() == 0,
            g.board.positions@.len() == 0,
            g.fullmove_counter == 1,
            g.positions@ == seq![g.board.hash],
    {
        let board = Board::default();
        let mut positions = HashList::new();
        positions.push(board.hash);
        Game { board, fullmove_counter: 1, positions }
    }

    /// A game at the position of a FEN string the engine can read; the
    /// fullmove counter is the FEN's.
    pub fn from_fen(fen: &str) -> (r: Result<Game, FenError>)
        requires
            fen_spec(fen.spec_bytes()) is Some,
        ensures
            match fen_spec(fen.spec_bytes()) {
                None => false,
                Some(Err(e)) => r is Err && r->Err_0 == e,
                Some(Ok(raw)) => r is Ok && ({
                    let g = r->Ok_0;
                    &&& g.board.pos() == scored(raw, g.board.zobrist@)
                    &&& g.board.zobrist.canonical()
                    &&& g.board.undo_stack@.len() == 0
                    &&& g.board.positions@.len() == 0
                    &&& g.fullmove_counter == raw.fullmoves
                    &&& g.positions@ == seq![g.board.hash]
                }),
            },
    {
        let board = match Board::from_fen(fen) {
            Ok(b) => b,
            Err(e) => {
                return Err(e);
            },
        };
        let mut positions = HashList::new();
        positions.push(board.hash);
        let fullmove_counter = board.fullmove_counter;
        Ok(Game { board, fullmove_counter, positions })
    }

    /// Plays `m` for the side to move and records the position; returns
    /// whether the move was legal (an illegal move leaves the game as it was).
    pub fn make_pl_move(&mut self, m: Move) -> (r: bool)
        requires
            old(self).board.wf(),
            old(self).board.positions@.len() < GAME_POSITIONS_SIZE,
            old(self).board.undo_stack@.len() < GAME_POSITIONS_SIZE,
            old(self).positions@.len() < GAME_POSITIONS_SIZE,
            old(self).fullmove_counter < u16::MAX,
            move_shape_ok(old(self).board.pos(), m),
        ensures
            r == mover_safe(apply_move(old(self).board.pos(), old(self).board.zobrist@, m, false)),
            r ==> final(self).board.pos() == apply_move(old(self).board.pos(), old(self).board.zobrist@, m, false),
            r ==> final(self).positions@ == old(self).positions@.push(final(self).board.hash),
            r ==> final(self).fullmove_counter == old(self).fullmove_counter + old(self).board.turn.idx(),
            !r ==> final(self).positions@ == old(self).positions@,
            !r ==> final(self).fullmove_counter == old(self).fullmove_counter,
    {
        proof {
            lemma_apply_shape(self.board.pos(), self.board.zobrist@, m, false);
        }
        let ok = self.board.make_pl_move::<false>(m);
        if ok {
            self.positions.push(self.board.hash);
            self.fullmove_counter = self.fullmove_counter + self.board.turn.opposite().index() as u16;
        }
        ok
    }

    /// Takes back `m`, the last move played.
    pub fn unmake_pl_move(&mut self, m: Move)
        requires
            old(self).board.turn.is_side(),
            old(self).board.can_take_back_spec(m),
            old(self).positions@.len() > 0,
            old(self).fullmove_counter >= old(self).board.turn.other().idx(),
        ensures
            final(self).positions@ == old(self).positions@.drop_last(),
            final(self).fullmove_counter == old(self).fullmove_counter - old(self).board.turn.other().idx(),
            final(self).board.undo_stack@ == old(self).board.undo_stack@.drop_last(),
            final(self).board.positions@ == old(self).board.positions@.drop_last(),
            final(self).board.zobrist == old(self).board.zobrist,
            final(self).board.pos() == revert_move(
                old(self).board.pos(),
                old(self).board.turn.other().idx(),
                m,
                old(self).board.undo_stack@.last(),
            ),
            forall|p0: Position, e: bool|
                #![trigger apply_move(p0, old(self).board.zobrist@, m, e)]
                pos_wf(p0) && move_fits(p0, m) && old(self).board.pos() == apply_move(p0, old(self).board.zobrist@, m, e)
                    && old(self).board.undo_stack@.last() == undo_of(p0, m) ==> final(self).board.pos() == p0,
    {
        self.board.unmake_pl_move(m);
        self.positions.pop();
        self.fullmove_counter = self.fullmove_counter - self.board.turn.index() as u16;
    }

    pub fn get_board(&self) -> (r: &Board)
        ensures
            r == &self.board,
    {
        &self.board
    }

    pub fn get_positions(&self) -> (r: &HashList<GAME_POSITIONS_SIZE>)
        ensures
            r == &self.positions,
    {
        &self.positions
    }

    /// Whether the side to move can claim a draw (fifty-move rule or
    /// threefold repetition among the game's positions).
    pub fn can_claim_draw(&self) -> (r: bool)
        ensures
            r == draw_spec(self.board.halfmoves, self.board.hash, self.positions@),
    {
        let halfmoves = self.board.halfmoves as u64;
        if halfmoves > 99 {
            return true;
        }
        let recent = self.positions.half_move_iter(halfmoves);
        let current = self.board.hash;
        let mut count: u64 = 0;
        let mut i: usize = 0;
        while i < recent.len()
            invariant
                i <= recent@.len(),
                count == crate::chess::board::occurrences(recent@.subrange(0, i as int), current),
                count <= i,
            decreases recent.len() - i,
        {
            assert(recent@.subrange(0, i + 1).drop_last() =~= recent@.subrange(0, i as int));
            if recent[i] == current {
                count += 1;
            }
            i += 1;
        }
        assert(recent@.subrange(0, i as int) =~= recent@);
        count > 2
    }

    /// Every pseudo-legal move of the side to move.
    pub fn generate_pseudolegals(&self) -> (r: MoveList<MOVE_GEN_SIZE>)
        requires
            self.board.turn.is_side(),
        ensures
            r@ == gen_spec(self.board.pos(), self.board.turn.idx(), true, true),
    {
        self.board.generate_pseudolegals()
    }

    /// Records the position of `new_board`, reached by one more move.
    pub fn push_state(&mut self, new_board: &Board)
        requires
            old(self).positions@.len() < GAME_POSITIONS_SIZE,
            new_board.turn.is_side(),
            old(self).fullmove_counter + new_board.turn.other().idx() <= u16::MAX,
        ensures
            final(self).positions@ == old(self).positions@.push(new_board.hash),
            final(self).fullmove_counter == old(self).fullmove_counter + new_board.turn.other().idx(),
            final(self).board == old(self).board,
    {
        self.positions.push(new_board.hash);
        self.fullmove_counter = self.fullmove_counter + new_board.turn.opposite().index() as u16;
    }

    /// Forgets the last recorded position, that of `new_board`.
    pub fn pop_only_state(&mut self, new_board: &Board)
        requires
            old(self).positions@.len() > 0,
            new_board.turn.is_side(),
            old(self).fullmove_counter >= new_board.turn.other().idx(),
        ensures
            final(self).positions@ == old(self).positions@.drop_last(),
            final(self).fullmove_counter == old(self).fullmove_counter - new_board.turn.other().idx(),
            final(self).board == old(self).board,
    {
        self.positions.pop();
        self.fullmove_counter = self.fullmove_counter - new_board.turn.opposite().index() as u16;
    }

    /// Plays `m` on a copy of the board; when it is legal, the copy becomes
    /// the game's board, its position is recorded, and a copy is returned.
    pub fn make_pl_move_copy(&mut self, m: Move) -> (r: Option<Board>)
        requires
            old(self).board.wf(),
            old(self).board.positions@.len() < GAME_POSITIONS_SIZE,
            old(self).board.undo_stack@.len() < GAME_POSITIONS_SIZE,
            old(self).positions@.len() < GAME_POSITIONS_SIZE,
            old(self).fullmove_counter < u16::MAX,
            move_shape_ok(old(self).board.pos(), m),
        ensures
            r is Some == mover_safe(apply_move(old(self).board.pos(), old(self).board.zobrist@, m, false)),
            r is Some ==> r->Some_0.pos() == apply_move(old(self).board.pos(), old(self).board.zobrist@, m, false),
            r is Some ==> final(self).board.same_state(&r->Some_0),
            r is Some ==> final(self).positions@ == old(self).positions@.push(r->Some_0.hash),
            r is Some ==> final(self).fullmove_counter == old(self).fullmove_counter + old(self).board.turn.idx(),
            r is None ==> final(self).positions@ == old(self).positions@ && final(self).fullmove_counter
                == old(self).fullmove_counter && final(self).board == old(self).board,
    {
        proof {
            lemma_apply_shape(self.board.pos(), self.board.zobrist@, m, false);
        }
        let mut new_board = self.board.duplicate();
        if new_board.make_pl_move::<false>(m) {
            self.board = new_board.duplicate();
            self.push_state(&new_board);
            Some(new_board)
        } else {
            None
        }
    }

    fn try_record(&mut self, m: Move) -> (r: bool)
        requires
            old(self).board.wf(),
            old(self).board.positions@.len() < GAME_POSITIONS_SIZE,
            old(self).board.undo_stack@.len() < GAME_POSITIONS_SIZE,
            old(self).positions@.len() < GAME_POSITIONS_SIZE,
            old(self).fullmove_counter < u16::MAX,
        ensures
            final(self).board == old(self).board,
            r == playable(old(self).board.pos(), old(self).board.zobrist@, m),
            r ==> final(self).positions@ == old(self).positions@.push(
                apply_move(old(self).board.pos(), old(self).board.zobrist@, m, false).hash,
            ),
            r ==> final(self).fullmove_counter == old(self).fullmove_counter + apply_move(
                old(self).board.pos(),
                old(self).board.zobrist@,
                m,
                false,
            ).turn.other().idx(),
            !r ==> final(self).positions == old(self).positions && final(self).fullmove_counter
                == old(self).fullmove_counter,
    {
        if !self.board.can_play(m) {
            return false;
        }
        proof {
            lemma_apply_shape(self.board.pos(), self.board.zobrist@, m, false);
        }
        let mut new_board = self.board.duplicate();
        if new_board.make_pl_move::<false>(m) {
            self.push_state(&new_board);
            true
        } else {
            false
        }
    }

    /// Records the first legal move among the pseudo-legal ones (the board
    /// itself stays as it is); returns whether there was one.
    pub fn make_any_legal_move(&mut self) -> (r: bool)
        requires
            old(self).board.wf(),
            old(self).board.positions@.len() < GAME_POSITIONS_SIZE,
            old(self).board.undo_stack@.len() < GAME_POSITIONS_SIZE,
            old(self).positions@.len() < GAME_POSITIONS_SIZE,
            old(self).fullmove_counter < u16::MAX,
        ensures
            final(self).board == old(self).board,
            r ==> exists|i: int|
                #![trigger gen_spec(old(self).board.pos(), old(self).board.turn.idx(), true, true)[i]]
                0 <= i < gen_spec(old(self).board.pos(), old(self).board.turn.idx(), true, true).len()
                    && playable(
                    old(self).board.pos(),
                    old(self).board.zobrist@,
                    gen_spec(old(self).board.pos(), old(self).board.turn.idx(), true, true)[i],
                ) && final(self).positions@ == old(self).positions@.push(
                    apply_move(
                        old(self).board.pos(),
                        old(self).board.zobrist@,
                        gen_spec(old(self).board.pos(), old(self).board.turn.idx(), true, true)[i],
                        false,
                    ).hash,
                ) && final(self).fullmove_counter == old(self).fullmove_counter + apply_move(
                    old(self).board.pos(),
                    old(self).board.zobrist@,
                    gen_spec(old(self).board.pos(), old(self).board.turn.idx(), true, true)[i],
                    false,
                ).turn.other().idx() && forall|j: int|
                    0 <= j < i ==> !playable(
                        old(self).board.pos(),
                        old(self).board.zobrist@,
                        #[trigger] gen_spec(old(self).board.pos(), old(self).board.turn.idx(), true, true)[j],
                    ),
            !r ==> final(self).positions@ == old(self).positions@,
            !r ==> final(self).fullmove_counter == old(self).fullmove_counter,
            !r ==> forall|i: int|
                0 <= i < gen_spec(old(self).board.pos(), old(self).board.turn.idx(), true, true).len()
                    ==> !playable(
                    old(self).board.pos(),
                    old(self).board.zobrist@,
                    #[trigger] gen_spec(old(self).board.pos(), old(self).board.turn.idx(), true, true)[i],
                ),
    {
        let moves = self.board.generate_pseudolegals();
        let ghost gs = gen_spec(self.board.pos(), self.board.turn.idx(), true, true);
        let ghost p = self.board.pos();
        let ghost z = self.board.zobrist@;
        let mut i: usize = 0;
        while i < moves.size()
            invariant
                self.board == old(self).board,
                self.positions == old(self).positions,
                self.fullmove_counter == old(self).fullmove_counter,
                p == old(self).board.pos(),
                z == old(self).board.zobrist@,
                moves@ == gs,
                gs == gen_spec(old(self).board.pos(), old(self).board.turn.idx(), true, true),
                i <= moves@.len(),
                self.board.wf(),
                self.board.positions@.len() < GAME_POSITIONS_SIZE,
                self.board.undo_stack@.len() < GAME_POSITIONS_SIZE,
                self.positions@.len() < GAME_POSITIONS_SIZE,
                self.fullmove_counter < u16::MAX,
                forall|j: int| 0 <= j < i ==> !playable(p, z, #[trigger] gs[j]),
            decreases moves@.len() - i,
        {
            let m = moves.get(i);
            if self.try_record(m) {
                assert(gs[i as int] == m);
                return true;
            }
            i += 1;
        }
        false
    }
}

/// `m` can be played in `p` and does not leave the mover's king attacked.
pub open spec fn playable(p: Position, z: Keys, m: Move) -> bool {
    move_shape_ok(p, m) && mover_safe(apply_move(p, z, m, false))
}

} // verus!
