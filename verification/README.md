# helix

The core of a post-quantum proof-of-stake ledger, written in Verus: executable Rust
whose behaviour is stated in contracts and proved.

## Layout

- `src/crypto`: BLAKE3 hashes and Merkle trees, ML-DSA and SLH-DSA keys and
  signatures, ML-KEM key encapsulation, addresses, and key files sealed with
  Argon2id and AES-256-GCM. The cryptography itself comes from outside crates;
  each call stands behind a small function whose contract says what is believed
  of it.
- `src/identity`: names, personhood, guardians and social recovery.
- `src/executor`: the state, and what transactions and blocks do to it.
  - `state`, `account`, `value`: the state, its model and its invariants.
  - `payments`, `delegation`, `identities`, `votes`, `contracts`: the operations.
  - `slashing`, `fees`, `validators`, `quorum`: stake, rewards and voting power.
  - `engine`, `block`: executing transactions and blocks.
  - `audit`, `copies`: checking a state, and copying it.
  - `canonical`: the state's byte form and its hash.
  - `laws`: what holds of transactions in general.
- `src/mempool.rs`: transactions that wait for a block.
- `src/table.rs`, `order.rs`, `sums.rs`, `codec.rs`, `encoding.rs`, `text.rs`: sorted
  tables, key orders, sums over tables, byte forms and text.
- `src/transaction.rs`: transactions, votes and blocks as the ledger reads them. What
  depends on the wire format (hashes, sizes, decoded payloads) and on the contract
  machine is handed to the ledger as plain values.
- `app`: ordinary Rust around the library: key files on disk, the pool's clock,
  payload decoding, running contracts, printing.
- `tests`: scenarios, run against the compiled library and the outside crates.

## What is proved

Every function's contract gives its result, when it fails and with what, exactly, but
for what chance or an outside crate decides.
Beyond that, among other things: value neither appears nor vanishes, and issuance
keeps within the supply; a transaction works once, and one that cannot be taken
into a block changes nothing; every other pays exactly its fee; names keep their
owners; control of an address changes only by a quorum of different guardians; stake
on its way out, or moved to another pool, still answers for the validator it
stood behind, without cost to bystanders; a validator is jailed only on a
certificate with a quorum and after a long absence; the pool holds no rivals and
drops only worse payers; and two states have the same byte form exactly if they
agree in everything that counts.
