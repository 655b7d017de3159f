# superchess

A UCI chess engine whose evaluation constants are derived from the rules of
chess and board geometry, written in Verus. The library (`src/`) holds the
engine's logic with its contracts and proofs; `app/` holds the UCI loop and
the benchmark, which read standard input, print to standard output and
measure time.

## Layout

- `src/types.rs` — scores, piece values, derived constants, mate-score
  conversion for the transposition table.
- `src/bits.rs`, `src/geom.rs` — bitboard and board-geometry helpers and
  their lemmas.
- `src/chess.rs` — positions and moves. Move generation, attack tables and
  notation come from the `cozy_chess` crate through trusted wrappers; the
  engine reads a position through `PosData`, a plain copy of its bitboards
  and state.
- `src/tt.rs` — the transposition table and its store/probe laws.
- `src/pst.rs`, `src/pawns.rs`, `src/endgame.rs`, `src/eval.rs` — the
  evaluation, each term specified by a spec function.
- `src/see.rs` — static exchange evaluation.
- `src/lmr.rs` — the late move reduction table.
- `src/search.rs` — move ordering, quiescence search, alpha-beta search with
  its pruning, reductions and extensions, and iterative deepening.
- `src/uci.rs` — the `position` and `go` commands.
- `tests/` — tests of the library.
- `app/main.rs` — the UCI front end and the `--bench` benchmark.

## What is proved

Every function of `src/` is verified against its contract; the trusted items
are the wrappers around `cozy_chess` and `std::time` in `src/chess.rs` and
`src/search.rs`, each with a doc comment saying what it claims. Among the
proved properties: the evaluation equals its specification, move ordering
returns every legal move once in stage order (the table move, captures and
promotions by decreasing capture score, the two killers, the countermove,
then the rest by decreasing history), every move a search returns or reports
is legal and its principal variation is a legal line, a search without a
time limit of a game in progress completes every iteration to the requested
depth with a best move, a finished game gives the empty result, the
time-management decision follows the move-stability shares of the limit, the
search's scores stay inside the infinite bound and its tables within theirs,
the quiescence search returns exactly the value (and leaves exactly the pawn
cache) of its recursive specification `spec_quiesce`, as does the alpha-beta
search at the horizon when no table entry, repetition or end of game decides
first, and the move loop one ply above the horizon, when every move leads
without extension to such a position, returns exactly the best score of its
recursive specification (pruned and frontier quiet moves skipped, the others
searched by principal variation search, the pawn cache threaded through,
ending at the first score that reaches beta), mating moves that the
quiescence search plays are found, a pawn-cache hit never changes an
evaluation when the pawn keys seen identify their pawns, the static exchange
never wins more than the first capture, and the `position` command only
plays legal moves.
