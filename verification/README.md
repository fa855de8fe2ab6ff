# connect_four

Connect Four with a minimax search whose results are proved in Verus.

- `src/ai`: the game-independent search. `value.rs` defines the minimax
  value of a state as a spec function; `search.rs` holds minimax with
  optional alpha-beta pruning, principal variation search and iterative
  deepening, each proved to return that value (and the move reaching it) on
  the full window; `laws.rs` states how the searches agree with each other.
- `src/engine`: the Connect Four rules on 64-bit bitboards, the window
  heuristic, and text pictures of boards. `reachable.rs` proves the invariant
  of every position reached by legal play and that a win is four pieces in a
  line on the grid.
- `src/bench`: the self-play benchmark: configuration, one game between two
  searching players, and totals over many games.
- `app/main.rs`: the benchmark's command line and JSON output.
- `tests/`: scenario tests of the library.
