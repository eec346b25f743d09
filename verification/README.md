# magnet_miner

A proof-of-work mining client for the Magnet chain. The miner asks the
mining contract for a puzzle `(nonce, difficulty)`, searches for a
`solution` whose Keccak-256 digest of `nonce ‖ address ‖ solution` is small
enough, checks it locally and submits it, retrying with a fresh nonce or a
higher gas price when the node refuses the transaction. A terminal
dashboard shows the wallet, the tasks, the hash rate and a log.

## Layout

- `src/` — the library, verified with Verus:
  - `bytes`, `u256`, `bigint`, `hashing`: big-endian byte encodings, the
    packed encodings of the puzzle inputs and the digest.
  - `mining`: the difficulty checks, the target `2^256 / difficulty`, the
    split of the candidate space among workers and the search.
  - `submission`: which send errors are retried, how the gas price is
    raised (never above the price that keeps 40% of the reward), and the
    checks made before a solution is sent.
  - `load_balancer`, `rpc`: node health records, the choice of a node,
    reading the node file and the list of nodes offered for a choice.
  - `dashboard`, `display`, `event`, `settings`, `wallet`: the dashboard
    state, its text, the key and tick rules, the mining settings and the
    checks of the private key, chain and balances.
- `app/` — the program around the library: terminal, network, threads,
  prompts and the floating-point figures.
- `tests/` — tests of the library on concrete values.
