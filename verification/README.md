# shade_oracles

Price oracles for Secret Network contracts, with their logic proved correct
by Verus: an oracle router with protected keys, index (basket) oracles with a
peg that freezes and rolls back, bot-fed rate and staking-derivative oracles,
liquidity-pool token pricing, and the fixed-point arithmetic they share.

## Layout

- `src/` — the verified library. Every public function states what it
  returns or changes in `ensures`; the laws that relate several functions
  are public proof functions (`lemma_*`).
  - `num.rs` — 256-bit integers and 18-decimal fixed point, backed by
    `cosmwasm-std` through a few trusted calls.
  - `collections.rs` — string-keyed maps and sets with insertion order.
  - `common/` — errors, contracts, assets, status, and the math helpers
    (`muldiv`, banker's rounding, square roots, LP token prices).
  - `interfaces/` — the oracles: `router/`, `index.rs`, `bot.rs`,
    `derivatives/`, `dex/`, `providers.rs`, `lp.rs`.
  - `protocols/` — query messages and answers of the DEXes and vaults that
    the oracles read.
- `tests/` — tests of the library on concrete values.
- `app/` — the chain side: JSON forms of the messages, storage, queries to
  other contracts, address conversion and schema generation. Its decisions
  are those of the chain: which query to send, and which preconditions of
  the library to test before a call.
