# hb_buy_strategy

A martingale buying strategy for the Huobi exchange, driven over a websocket.

- `src/` is the verified library:
  - `api.rs` signs exchange requests: the signature parameters merged with the
    caller's, listed by ascending key, percent-encoded, signed with
    HMAC-SHA256 and base64.
  - `strategy.rs` holds the strategy's decisions that do not depend on
    floating-point amounts: when it takes its profit, when it buys a cover, how
    many covers it may buy.
  - `strategy_server.rs` keeps the websocket sessions, decides what a request
    or a stop leads to, and cuts the last lines out of the log for reports.
  - `ws.rs` decides what a websocket session does with each client message
    and with each heartbeat tick.
  - `logging.rs` picks the log level from `RUST_LOG`.
  - `proto.rs` is the parcel pushed to the clients.
- `app/` is the program around it: the actix actors and HTTP server, the
  HTTP client, the floating-point part of the strategy, TOML and JSON, files.
- `tests/` runs the library on concrete values.
