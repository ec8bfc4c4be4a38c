# Transaction storage

A pallet that indexes transactions and manages storage proofs. Data is kept off chain; the chain
keeps its hash, its size and the root of the trie of its chunks, checks in every block a proof that
one chunk of the data that is about to expire is still there, and counts what accounts and
preimages are authorized to store.

- `src/` holds the rules, with their contracts and proofs:
  - `types.rs`, the values that are stored, taken and returned;
  - `number.rs`, block numbers and identifiers;
  - `primitives.rs`, hashing, tries, the choice of the chunk to prove, inherent data;
  - `chunks.rs`, how data is cut and how the chunks of a block are counted and found;
  - `storage.rs`, maps;
  - `state.rs`, the state as a mathematical value, and what each operation makes of it;
  - `pallet.rs`, the calls and hooks;
  - `laws.rs`, what holds of the pallet as a whole.
- `tests/` runs the library with the real hashing and tries.
- `app/` is the FRAME pallet: chain storage, dispatch and events around the library.

A call that fails leaves the storage as it was. A `store` or `renew` that fails because the block
is full has already asked the node to index the data.
