# devilchain

DevilChain is a small proof-of-work blockchain node with a DevilCoin ledger,
a fee-ordered mempool, stake-weighted validator selection, tokenomics with a
burn cap and liquidity timelocks, an identity registry and a storage node.

The rules of the chain live in `src/` and are verified with Verus: every
public function states what it returns or changes in its `ensures`, and the
properties that span functions are stated and proved as `law_*` proof
functions.

- `src/tokenomics.rs`: gas, fee split, block reward, supply tracker,
  liquidity locks, NFT registry.
- `src/blockchain.rs`: transactions, blocks, Merkle roots, the ledger and
  appending blocks; chain validity.
- `src/mempool.rs`, `src/consensus.rs`, `src/mining.rs`: pending
  transactions, validators and proof of work, candidate blocks.
- `src/identity.rs`, `src/storage.rs`, `src/wallet.rs`, `src/api.rs`: the
  identity registry, storage bookkeeping, wallets and the request rules of
  the REST API.
- `src/crypto.rs`: SHA-256 (`sha2`), hex (`hex`), Ed25519 (`ed25519-dalek`)
  and randomness (`rand`), each behind a small trusted item whose contract
  is documented where it stands.
- `src/strmap.rs`, `src/text.rs`: a string-keyed map and text helpers with
  their models.

`app/` is the node binary around the library: the REST and GraphQL servers,
peer polling, the mining loop, the storage server, and the parts that work
in floating point (AI scoring, DAO tallies, the float-based validator set,
bridge requests) or on disk (RocksDB persistence).

`tests/` exercises the library on concrete values.
