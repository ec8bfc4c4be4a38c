//! Transaction storage. Indexes transactions and manages storage proofs.
//!
//! The state of the pallet, the calls that change it and the hooks that run at the start and at
//! the end of a block. Data is stored off chain: what the state keeps of it is its hash, its size
//! and the root of the trie that its chunks form.

pub mod chunks;
pub mod guarantees;
pub mod laws;
pub mod number;
pub mod pallet;
pub mod primitives;
pub mod state;
pub mod storage;
pub mod types;

pub use pallet::Pallet;
pub use primitives::TransactionStorageProof;
pub use types::{
    AuthorizationExtent, AuthorizationScope, Call, Config, DispatchError, Error, Event, Origin,
    TransactionInfo, DEFAULT_MAX_BLOCK_TRANSACTIONS, DEFAULT_MAX_TRANSACTION_SIZE,
};
