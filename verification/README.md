# percolator

A verified risk engine for perpetual futures, with the on-chain program, the
price oracle and the keeper rules that are built around it. The library under
`src/` is executable Rust whose behaviour is stated in contracts and proved with
Verus.

| module | what it holds |
| --- | --- |
| `wide_math`, `int128`, `bytes`, `sorting` | 256-bit arithmetic, two-word integers, little-endian fields, ascending order |
| `types`, `constants`, `context`, `model` | the data of the engine and its mathematical model `EngineState` |
| `engine` | the operations: each as a function of the model, and as code that follows it |
| `engine::books`, `engine::free_list` | what every operation keeps: totals and counters, the list of free slots |
| `engine::laws` | what each operation does to the vault, to other accounts and to conservation |
| `engine::guarantees` | what accounts can rely on: capital of flat accounts, warmup, resets, idempotence |
| `engine::open_interest`, `engine::interest_laws` | that positions back the open interest of their side, up to the dust bound |
| `engine::losses`, `engine::order` | that losses are paid at once, and what a market in order is |
| `engine::payouts` | how a resolved market is wound down: who is paid what, and that everyone is |
| `layout` | the byte image of the engine |
| `address` | account addresses, accounts, and what is taken from outside about them |
| `program` | slab header, instructions, account checks, processing, laws |
| `oracle` | feeds, pool prices, medians, laws |
| `reachable` | that every engine which operations lead to is in order |
| `keeper` | the decision which instruction a market needs next |

An operation of the engine is specified by a function on `EngineState` that gives
the new state or the error. The executable operation is proved to give exactly
that: the same error, or success and that state.

The program's instructions take plain views of the accounts and give an outcome:
the new slab, and the transfers to be made. A slab that is marked as set up must
hold an engine, which every instruction leaves in it; `is_ready` tells whether it
does. `app/` reads accounts and sysvars,
calls the library, writes the slab back and makes the transfers. A build of it
exports the program's entry point, or the oracle's with `--cfg entrypoint="oracle"`.

Three things are taken from outside without proof, each in `address`: address
derivation with a given bump, the search for a bump, and the parsing of token
accounts.
