# pylon_gov

The governance contract of Pylon as a verified library: polls (creation,
voting with snapshots, ending, timelocked execution and failure), airdrops to
stakers (accrual per share, allocation, claims), the staker and poll queries,
and state migration. Each public function states in its `ensures` what it does
to the store and what it answers, and Verus proves the code against it.

Layout:

- `src/gov.rs`: the store (`Gov`), its well-formedness and the poll index
  invariant, instantiation and configuration.
- `src/poll.rs`: poll creation, votes, snapshots, ending, execution and failure.
- `src/airdrop.rs`: airdrop accrual, allocation, updates and claims.
- `src/entry.rs`: token hooks, staking, replies, unstaking and migration.
- `src/queries.rs`: the read side, pages included.
- `src/fits.rs`: checks that a request stays within the arithmetic's range.
- `src/laws.rs`: properties that span several executions.
- `src/store.rs`, `src/keys.rs`, `src/range.rs`, `src/sort.rs`: ordered maps,
  byte-order keys (stakers and voters are kept under their canonical address
  bytes, as the chain gives them), page bounds and the stable sort of execute
  messages.
- `src/math.rs`: fixed-point decimals on top of `cosmwasm_std`'s 256-bit
  `multiply_ratio`.
- `src/staking.rs`, `src/strategy.rs`: the staking pool and strategy contracts'
  setup and deposit rules.
- `app/`: the CosmWasm entry points, message types with their serde derives,
  and storage of the library's state.
