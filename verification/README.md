# nft-candy-machine

A candy machine for NFTs on Solana: a config account holds the names and URIs
of the items to sell, and a candy machine account sells them one at a time for
lamports or tokens, creating the metadata of each item as it is minted.

The decisions and the account layouts are a Verus library under `src/`:

- `state` — the account types, the error codes and the layout constants.
- `encoding` — little-endian integers, UTF-8 text, the Borsh layout of the
  stored values, decimal formatting, and the calls into `anchor_lang` (Borsh,
  SHA-256) and `std` (string replacement) with their contracts.
- `layout` — reading a config account: the line counter, the templated flag,
  and a line (with `{i}` filled in for templated configs).
- `config_lines` — storing lines: padded records, the bit mask of filled lines
  and the counter.
- `config_init` — making a config account and telling its version by its
  discriminator.
- `candy_machine` — setting up a candy machine, changing its price and go-live
  date, and minting: who may mint, what is paid, which line an item gets, its
  creators and update authority.
- `laws` — proofs that relate these operations: a stored line reads back
  padded as long as the marks of the call leave its record alone (its record
  lies within the line limit, or each mark falling inside it finds its bit
  already set); storing the same lines twice changes nothing under the same
  condition on all the records written; the counter written is the one
  read; a mint counts an item only while one is left, so no run of mints
  exceeds the supply; only the authority mints before going live; new
  configs are recognised as the second version and keep their templated
  flag.
- `marks` — in an account with room for its line limit, the line counter
  equals the number of marked lines in the bit mask under any run of stores
  within that limit, and an account of exactly that size, once full,
  reports the templated flag it was made with.

`app/` is the Anchor program around the library: account validation, the
serialization of the account types, and the cross-program calls (transfers,
token metadata).
