# algo_trading

A market-making system for Bybit v5, split into a verified library and a thin
executable around it.

## Layout

- `src/` — the library, written in Verus; every function carries a contract
  that Verus proves.
  - `decimal` — fixed-point decimals as mantissa, scale and sign; arithmetic and
    comparisons are calls into `rust_decimal`.
  - `md` — the order book (sorted sides, level updates, best levels, mid,
    spread, depth), the handling of feed messages and replay events, and the
    choice of the market data source.
  - `exchange` — orders, fills and balances; request signing (HMAC-SHA256),
    sorted query strings, request parameters, and the conversion of replies.
  - `exec` — the order manager: orders keyed by client order id, fills keyed
    by exchange order id, each fill counted once.
  - `signals` — the sliding event windows, the recent-trade window and the
    iceberg run counter.
  - `config`, `logging`, `text`, `clock` — symbol and endpoint choice, structured log
    entries, text helpers and the clock.
- `app/` — the executable: command line, environment, HTTP and WebSocket I/O,
  timers, JSON (de)serialisation, and the floating-point signals and logs.
- `tests/` — tests of the library on concrete values.

## Model

Contracts speak of decimals through `Decimal::val()` (the value in units of
`10^-28`), of the order book through its sides as sequences of levels, and of
the order manager through its view: a map from client order id to order
state, and a map from exchange order id to the fills recorded for it.
