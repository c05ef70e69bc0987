# Yrjo chess engine

A small chess engine: alpha-beta search with a transposition table over a
material evaluation whose piece values ("chromosomes") can be evolved in
tournaments.  The library is written in Verus, and its contracts are
proved; move generation and board updates come from the `chess` crate.

Layout:

- `src/board.rs`: positions and moves, as read from the `chess` crate.
- `src/evaluator.rs`: the material balance.
- `src/transposition_table.rs`: the cache of search results.
- `src/alpha_beta_algorithm.rs`: the search, move ordering and the choice
  of a move at the root.
- `src/search_table.rs`: the nodes a search meets and when the table's
  entries for them are sound, so that the search keeps its minimax value.
- `src/chromosome.rs`, `src/tournament.rs`, `src/repository.rs`: piece
  values, matches, tournament rounds and breeding, and their storage.
- `src/game.rs`: the rules that end a single game.
- `src/visualizer.rs`, `src/benchmark.rs`: the board drawing, the standard
  benchmark positions and benchmark totals.
- `app/`: the command-line program (printing, timing, files, and the
  floating-point parts of the tournament).
- `tests/`: tests of the library.
