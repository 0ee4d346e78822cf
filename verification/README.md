# cw_examples

The logic of a set of CosmWasm example contracts, written in Verus and proved against
contracts stated over mathematical models.

- `src/` is the verified library, one module per contract:
  `quadratic` (quadratic funding round with capital-constrained liberal radicalism),
  `voting` (token-weighted polls), `staking` (NFT staking with block rewards),
  `erc20` (token with balances and allowances in a prefixed key/value store),
  `nameservice`, `escrow`, `mask` (message proxy), `simple_option`, `pot`.
  `storage`, `prefixed`, `strmap` and `common` hold the shared data structures.
- Each message handler takes the contract's state and the message as plain values and
  returns the new state and what to send; its contract names the result for every input
  that its `requires` admits. A `requires` only rules out inputs on which the handler's
  arithmetic would leave the machine's integers, and only where the handler reaches that
  arithmetic; a `*_fits` function decides it exactly, so callers can check before calling.
- `tests/` runs the library on the scenarios of the contracts' own test suites.
- `app/` holds the CosmWasm entry points: storage, serialization, address validation and
  chain queries around the library calls.
