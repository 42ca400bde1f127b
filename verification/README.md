# oracle_escrow

An escrow for paid questions on a ledger, written in Rust and proved with Verus. Payers lock funds
for a question, an administrator settles it among the workers who answered, and anyone can force
the full refund once the question's window has passed.

## Layout

- `src/` is the library. Every call of the contract is a function on an `Env`: the stored entries
  it reads and writes, the ledger it lands in, and the requests it makes of its host (signatures,
  transfers, lifetimes, events). Each function states exactly when it succeeds, with which error it
  fails, and what it leaves behind.
  - The contract: `limits`, `types`, `env`, `escrow`, `index`, `questions`, `funds`, `bond`,
    `staking`, `settlement`, `upkeep`, `upgrade`, `migration`.
  - What holds of every call and of every history of calls: `authority` (who has to sign),
    `books` and `capacity` (the contract holds exactly what it owes), `pending` (the index),
    `lifecycle`, `accounts`, `bonding`, `exits` (everyone can get out), `announcements` (events),
    `lifetimes`, `pairing` and `interplay` (two instances and migrations between them),
    `histories`.
  - `bank`, `orders` and `race` run settlement races; `model`, `agreement` and `harness` run call
    sequences on the contract and on an independent account of its rules, and prove that the two
    always agree.
  - `resources` and `settings` compare what a resolution costs with what a network allows; the
    snapshot of a network's settings is parsed with `serde_json`.
- `tests/` runs the library, with a simulated host where signatures, tokens, lifetimes and a second
  instance matter.
- `app/` is the Soroban contract around the library, and the benchmark that measures the built
  contract.
