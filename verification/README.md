# lootpool

A loot pool contract for Secret Network, verified with Verus.

Users deposit NFTs (the NFT contract reports them with `BatchReceiveNft`); each
NFT's description `tradeready%%value%%owner` gives the item's value, which is
credited to the named owner. A user with enough funds starts a round of the
pool: they pay the buy-in (the upper median of the items' values) and win the
item that a deterministic ChaCha20 draw picks.

- `src/` — the verified library: the storage model (`state`), the description
  and integer parser (`parse`), the buy-in price and crediting rules
  (`controller`), the draw (`draw`), the messages (`msg`), the contract's
  operations (`contract`) and the laws that relate them (`laws`).
- `app/` — the Secret Network entry points: storage and serialization, the NFT
  contract's queries, and the messages sent to it.
- `tests/` — tests of the library.
