# dipper

A `cast`-like command-line client for Ethereum Swarm. `dipper` talks to a
`vertex` node over gRPC and to the chain over JSON-RPC, and builds and stamps
chunks locally with the `nectar` primitives.

The library in `src/` holds the decisions, written in Verus: every function has
a contract that is proved. The program in `app/` reads the command line, does the
network and terminal work, and asks the library what to do next.

## The library

| module | what it decides |
| --- | --- |
| `bytes`, `text`, `hexes`, `hashing`, `table` | byte strings, terminal text, hexadecimal, hashes, a table keyed by bytes |
| `amount` | amounts of BZZ: reading, showing, the cost of a batch |
| `wallet` | where a key comes from, which keys are valid, the account of a key |
| `chunkops` | building a content chunk and stamping it, one slot after another |
| `store` | what the node's replies mean for a chunk asked for or uploaded |
| `streaming` | many retrievals over one stream: waiters, routing, reopening |
| `retry` | the budget of attempts and the backoff between them |
| `download` | the walk of a file's tree, level by level, and the rounds of a level |
| `chain` | creating, topping up, diluting and showing a batch, step by step |
| `discover` | finding an account's batches in the chain's logs |
| `usage` | opening and flushing a batch's usage snapshot |
| `node` | the node's status, topology and peers as lines |

Commands that alternate between the outside and decisions are state machines: the
library gives an action, the program performs it and hands back the reply.

What the library takes from other crates (hashing, signatures, the stamp issuer,
the snapshot format, ABI coding) stands behind small functions whose contracts
are trusted; the doc comment of each says what is claimed of the function it
calls.

Properties that span several functions are public proof functions next to the
code they speak of, for example `chunkops::slots_never_collide`,
`download::expansion_keeps_the_file`, `chain::spends_only_what_is_allowed`,
`usage::flushed_snapshot_is_recovered` and
`usage::later_flush_overwrites_in_place`.

The chain is reached over plain HTTP. `idna_adapter` and `serde_with` are named
in `Cargo.toml` only to hold them to versions that bring few crates of their own.

## Commands

```
dipper node status | topology
dipper peer add <multiaddr> | remove <overlay> | list [--long] [--known]
dipper chunk download <addr> [--out <file>] [--raw]
dipper chunk upload <file>|--stdin --batch-id 0x<id> --depth <d> --bucket-depth <b> <signer>
dipper wallet address <signer>
dipper batch list <signer>
dipper batch create --amount <bzz> --depth <d> [--bucket-depth 16] [--immutable]
        [--owner <addr>] [--nonce 0x<32b>] <signer>
dipper batch topup  --batch-id 0x<id> --amount <bzz> <signer>
dipper batch dilute --batch-id 0x<id> --depth <d> <signer>
dipper batch info   --batch-id 0x<id>
```

`<signer>` is `--private-key 0x<hex>` or `--keystore <file>` (with `--password`,
`$DIPPER_KEYSTORE_PASSWORD` or a prompt). The batch commands need `--rpc-url`;
`--network` selects Gnosis (the default) or Sepolia, and nothing is sent to any
other chain. BZZ has sixteen decimals; `--amount` is the balance per chunk.
