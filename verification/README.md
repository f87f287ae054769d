# lib: a verified chess engine

A UCI chess engine whose rules, move generation, hashing, evaluation, move
ordering, transposition table and searches are written in Verus and proved
against their contracts.

- `src/chess`: squares, moves, the board (bitboards, attack patterns, move
  generation, making and taking back moves, Zobrist hashing, evaluation,
  static exchange evaluation, FEN and move notation) and the game record.
  `board/laws.rs`, `board/hash_laws.rs` and `board/eval_laws.rs` hold the
  laws that taking a move back restores the position and that the kept hash
  and evaluation follow the moves; `board/consistency.rs` those that the
  boards and the piece array start, and stay, in step.
- `src/move_sorting`: the move lists and the staged move ordering.
- `src/search`: the transposition table, the history tables, the plain
  alpha-beta search (with its exact game-tree value in `tree.rs`), the
  principal variation search and iterative deepening.
- `src/uci.rs`: how the engine reads the commands of the UCI protocol.
- `src/parameters.rs`: the engine's tuned constants and options.
- `app/main.rs`: the UCI loop on standard input and output, and the two
  floating-point tables (late move reductions, time bound).
- `tests/`: the engine's tests, perft counts among them.
