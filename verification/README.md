# kalshi-alpha

Market-data capture for Kalshi prediction markets. It records data: there is no
model, no strategy and no order placement. The REST client has no request
primitive that accepts a body, and the WebSocket client subscribes to public
channels only.

`src/` is the library, verified with Verus; `app/` is the `capture` daemon around
it, which does the input and output.

| Module | What it holds |
|---|---|
| `parse`, `px`, `qty`, `notional` | exact decimal strings and fixed-point numbers |
| `ticker`, `ranges` | tickers, sides, tick grids |
| `auth` | request signing |
| `rest` | rate limiting, retries, clock skew, discovery, known markets |
| `ws` | subscriptions, sequence gaps, recovery, commands, backoff |
| `levels`, `book` | the local order book |
| `wire`, `json` | server messages and generic JSON |
| `schema`, `table`, `encode` | Arrow schemas, and records as Arrow batches |
| `session`, `writer`, `quarantine` | session metadata, file rolling, incomplete files |
| `grid_history` | tick-grid changes over time |
| `sink` | the bounded queue between reading and writing |
| `capture`, `probe` | what the daemon and its subcommands decide |
| `display` | error messages |
| `clock`, `text` | calendar texts and small string helpers |

Public proof functions named `law_...` state what holds of the library as a whole.
