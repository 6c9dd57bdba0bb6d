# lil_poker_mccfr

Poker engines and solver building blocks, verified with Verus.

- `src/game`: the six-card Leduc deck and game, the 52-card Texas Hold'em
  cards, buffers and betting game, and the 7-card hand evaluator
  (`eval.rs`, with `relabel.rs` proving that suit names do not matter),
  each with its specification and the laws the games keep
  (zero-sum payoffs, stack limits, board size per street, legal actions).
- `src/cfr`: card abstraction (169 preflop classes, 50 postflop buckets,
  information-set keys, equity tallies and rollouts), the fixed-point CFR+ node, the
  opponent tracker and the subgame solver settings.
- `src/live`: reading server card strings, classifying table updates,
  the amount to call, mapping abstract actions to server moves, and when
  a rejected check is retried as a call.
- `src/rng.rs`, `src/text.rs`: the calls into `rand` and `String::push`.
- `app/`: the command-line programs (training, evaluation, offline play and
  the live client), which hold the floating-point solvers and all I/O.
