# directional_arbitrage_bot

A bot for binary prediction markets (two complementary outcome tokens). When
the two asks are cheap enough together it buys both as a locked pair, then
tilts size toward the outcome that a configured model probability says is
most mispriced. Sizes are planned off a rolling time-weighted average of the
asks and executed as GTC BUY limit clips spread across the averaging window.

## Layout

- `src/` — the verified library (Verus):
  - `decimal.rs` — 96-bit fixed-point decimals; arithmetic is done by
    `rust_decimal` behind specified wrappers: exact where the result is
    representable, otherwise rounded by `rust_decimal` within one unit in its
    last place (products and quotients), `None` on overflow.
  - `strategy.rs` — tradability checks and the sizing plan (paired hedge,
    directional tilt), with the laws a plan satisfies.
  - `twap.rs` — the rolling TWAP of both asks, clip splitting and clip timing.
  - `market_data.rs` — best ask of a book side, passive BUY limit prices
    snapped to the tick grid.
  - `config.rs` — configuration values and their defaults.
  - `workflow.rs` — the per-cycle decisions of the execution engine as a
    state machine (observe quotes, advance the run, settle posted clips).
  - `ui.rs` — the bounded dashboard log (at most 80 lines, the newest
    kept), text truncation, plan notional.
  - `panel.rs` — the text panel printed by one-shot runs and `--plain`.
- `app/` — the program: command line, TOML loading, order-book fetching and
  order posting against the Polymarket CLOB, the terminal dashboard.
- `tests/` — tests of the library.
