# atas

Order-flow analytics and paper trading, as a Verus library with a desktop shell
around it.

- `src/primitives`: fixed-point prices and sizes, time, trades, instruments, the
  order book.
- `src/engine`: footprint ladders, bars, and the rules that close them.
- `src/indicators`: cumulative delta, VWAP, session and time profiles, scanners,
  moving averages.
- `src/trading`: orders, positions and the paper matching engine.
- `src/store`: tick records, segments and the bookkeeping of a tick store.
- `src/feed`: venue messages, depth synchronisation, reconnect pacing, replay and
  the synthetic market.
- `src/session`: one instrument's live state, what the UI is shown of it, and the
  loop that pumps a feed into it.
- `app`: files, sockets, JSON, floating point and the window.

Each type with state has a view, a ghost value that says what it holds. Methods
state what they do as functions on views. Laws over several calls are the public
proof functions whose names begin with `law_`.

Functions that would leave 64 bits on some input leave that input out in their
`requires`. The stateful ones that take in market data or orders also come with a
`can_..` test, or as a `try_..` that returns `None`; for the others the bound is
over their arguments and fields, which a caller can compare.
