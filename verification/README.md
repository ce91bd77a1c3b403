# arb-trader

A two-venue trader for relationships between markets on Kalshi and Polymarket
US. `src/` is its logic: how an exit is priced and decided, how the one exit
slot and the durable lots are worked, how fills are booked, which relationships
may quote, and what must hold before the process may place or cancel an order.
Every function there is verified with Verus against its contract.

- Prices and amounts: `digits`, `decimal`, `ratio`, `money`, `ladder`, `fees`, `pricing`, `pricing_laws`,
  `spelling`
- Deciding an exit: `decide`, `depth`, `debounce`, `live`, `cycle`, `ledger`, `closing`, `order`
- Working the exit slot: `exit`, `slot`, `fills`, `record`, `lines`
- Working the lots: `group`, `keys`, `lot`, `lot_steps`, `advance`, `hedge`, `batch`, `turn`
- What the loops share: `board`, `standoff`, `gauges`, `ids`
- Starting up: `args`, `gate`, `policy`, `seeding`, `startup`, `snapshot`, `naked_act`

`tests/` runs the library against venues that answer from a script. `app/` is
the program around it: arguments, credentials, checkpoints, the async loops
that perform what the library decides, and the traits through which venues,
ledger and engine are linked in.

Numbers are read at full length. What a fill, a lock or a limit comes to is
computed exactly, as a fraction, and rounded only where it is written; a limit
that is found stands on a tick ladder, in whole millionths of a dollar, and a
price past nine trillion dollars is not told apart from that. Net positions are
whole millionths of a contract, monotonic times nanoseconds, and timestamps the
bits of a double that counts seconds.
