# simple_bot

A trading bot for the five- and fifteen-minute bitcoin Up/Down markets of a
prediction exchange. Four strategies (Bayesian, sniper, arbitrage, frontload), a
backtest of three of them, and commands for approvals, redemptions and balances.

The rules that the bot trades by are a verified library; what it does to the
outside world, and the models' floating point, is ordinary Rust around it.

- `src/` is the library, verified with Verus: how markets are read, when a trade
  is made and of what size, how a session's books are kept, how the past is
  replayed and results are ranked. It holds prices as IEEE 754 bit patterns
  (`figure`), money as decimal numbers (`decimal`) and ids as 256-bit words
  (`ids`). It orders prices and picks among them; it does not compute with them.
- `app/` is the program: arguments, logging, the exchange, the chain, the clock,
  and the models' floating point. It hands the library plain values and carries
  out what comes back.
- `tests/` run the library with the crates that it calls.

The library calls `rust_decimal`, `alloy`, `dashmap` and a few functions of the
standard library through wrappers whose contracts are stated and not proved.
Each wrapper's doc comment says what is taken on trust.
