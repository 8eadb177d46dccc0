# hftlive

A Binance USD-M futures trading runtime and backtesting core whose logic is verified with
Verus.

- `src/` is the verified library. Each public function carries a `requires`/`ensures`
  contract over mathematical models (`Seq`, `Map`, `Set`, spec functions), and the laws that
  tie several functions together are public proof functions.
  - Market data: `depth_sync` (joining depth diffs to REST snapshots), `roi_depth` and
    `hash_depth` (L2 order books on price ticks), `market_stream`, `subscriptions`.
  - Orders and accounts: `orders` (the order table fed by REST and the user stream),
    `order_flow` (what a submission or cancel outcome leads to), `order_id_table` and
    `symbol_set` (the `hashbrown` collections behind the order ids and configured symbols),
    `in_flight` (cancels waiting for their submission), `user_stream` (including the positions
    an account snapshot publishes), `readiness`, `safety`, `supervisor`, `service` (the
    decisions of the live event loop: from state and event to next state and action),
    `runtime` (the book, position, orders and trades one strategy reads), `id` (client order
    ids), `assets`.
  - Exchange protocol: `binance` (signing, request bodies, response outcomes), `protocol`,
    `config` (endpoint and credential rules), `proxy` (HTTP CONNECT tunnels).
  - Backtesting: `engine` (latency models), `grid` (matching open orders to wanted quotes),
    `npy` (writing `.npy` files), `npy_header` (reading their headers: the dictionary grammar
    and the checks against the expected record fields), `npy_roundtrip` (what is written reads
    back), `latency_data` (latency rows from a `.npy` file), `backoff`.
- `app/` is the executable: configuration loading, the websocket and REST plumbing of the
  public market stream driven through the verified `service` supervisor, and the
  floating-point conversions of prices and quantities.
- `tests/` exercises the library on concrete values.
