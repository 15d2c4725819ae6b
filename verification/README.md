# ledger_client

The command line client of a proof-of-stake ledger: queries for balances, bonds, stakes,
slashes, proposals, transfers, conversions and transactions.

`src/` decides, in verified code, what a query asks for, what is computed from the replies,
and what is printed, line by line. Reports are data: lines made of texts, numbers, amounts and
rates (`report`). Addresses and keys stand in their text form.

| Module | What it holds |
| --- | --- |
| `slashing` | what slashes leave of an amount |
| `deltas`, `bonds`, `bond_query` | bonded and unbonded amounts, their totals and reports |
| `votes`, `address_map` | counting votes that were cast in files |
| `governance` | looking up proposals and their results |
| `balances`, `names` | transparent balances |
| `assets`, `shielded`, `pinned`, `transfers`, `conversions` | what viewing keys show |
| `stake`, `params`, `tx` | stakes, commission rates, parameters and transactions |
| `validity_predicate` | types that are used in validity predicates |

Four functions are trusted rather than verified, each a call into another crate:
`slashing::decimal_mult_u64` (`rust_decimal`), `deltas::sort_ascending` (`itertools`),
`tx::hex_lower` (`data-encoding`) and `assets::borsh_u64` (`borsh`). Of the decimal product,
what is rounded has only a name, `slashing::decimal_product`; a product that needs no rounding is
stated in full.

`app/` talks to the node, the wallet and the terminal.
