//! The values that the pallet stores, takes and returns.

use crate::number::Identity;
use crate::primitives::TransactionStorageProof;
use vstd::prelude::*;

verus! {

/// Maximum bytes that can be stored in one transaction.
// Setting higher limit also requires raising the allocator limit.
pub const DEFAULT_MAX_TRANSACTION_SIZE: u32 = 8 * 1024 * 1024;

/// Maximum number of transactions that are indexed in one block.
pub const DEFAULT_MAX_BLOCK_TRANSACTIONS: u32 = 512;

/// Hash of a stored blob of data.
pub type PreimageHash = [u8; 32];

/// Number of transactions and bytes covered by an authorization or authorizations.
#[derive(Clone, Copy, Debug, PartialEq, Eq, Structural)]
pub struct AuthorizationExtent {
    /// Number of transactions.
    pub transactions: u32,
    /// Number of bytes.
    pub bytes: u64,
}

impl Default for AuthorizationExtent {
    fn default() -> (r: Self)
        ensures
            r == no_extent(),
    {
        AuthorizationExtent { transactions: 0, bytes: 0 }
    }
}

/// The extent that covers nothing.
pub open spec fn no_extent() -> AuthorizationExtent {
    AuthorizationExtent { transactions: 0, bytes: 0 }
}

/// The scope of an authorization.
#[derive(Clone, Debug, PartialEq, Eq)]
pub enum AuthorizationScope<AccountId> {
    /// Authorization for the given account to store arbitrary data.
    Account(AccountId),
    /// Authorization for anyone to store data with a specific hash.
    Preimage(PreimageHash),
}

impl<AccountId: Identity> Identity for AuthorizationScope<AccountId> {
    fn same(&self, other: &Self) -> (r: bool) {
        match (self, other) {
            (AuthorizationScope::Account(a), AuthorizationScope::Account(b)) => a.same(b),
            (AuthorizationScope::Preimage(a), AuthorizationScope::Preimage(b)) => a.same(b),
            _ => false,
        }
    }

    fn duplicate(&self) -> (r: Self) {
        match self {
            AuthorizationScope::Account(a) => AuthorizationScope::Account(a.duplicate()),
            AuthorizationScope::Preimage(hash) => AuthorizationScope::Preimage(*hash),
        }
    }
}

/// An authorization to store data.
#[derive(Clone, Copy, Debug, PartialEq, Eq)]
pub struct Authorization<N> {
    /// Extent of the authorization (number of transactions/bytes). Further authorizations will
    /// increase the authorization's extent and push the expiration out to the newly calculated
    /// time.
    pub extent: AuthorizationExtent,
    /// The last block in which this authorization can be used.
    pub expiration: N,
}

/// State data for a stored transaction.
#[derive(Clone, Copy, Debug, PartialEq, Eq)]
pub struct TransactionInfo {
    /// Chunk trie root.
    pub chunk_root: [u8; 32],
    /// Plain hash of indexed data.
    pub content_hash: [u8; 32],
    /// Size of indexed data in bytes.
    pub size: u32,
    /// Total number of chunks added in the block with this transaction. This
    /// is used to find transaction info by block chunk index using binary search.
    pub block_chunks: u32,
}

/// Why a call of the pallet is refused.
#[derive(Clone, Copy, Debug, PartialEq, Eq, Structural)]
pub enum Error {
    /// Not authorized to store the given data.
    NotAuthorized,
    /// Renewed extrinsic is not found.
    RenewedNotFound,
    /// Attempting to store empty transaction.
    EmptyTransaction,
    /// Proof was not expected in this block.
    UnexpectedProof,
    /// Proof failed verification.
    InvalidProof,
    /// Unable to verify proof because state data is missing.
    MissingStateData,
    /// Double proof check in the block.
    DoubleCheck,
    /// Transaction is too large.
    TransactionTooLarge,
    /// Too many transactions in the block.
    TooManyTransactions,
    /// Attempted to call `store` outside of block execution.
    BadContext,
    /// The preimage could never be submitted in a single transaction, as required.
    Impossible,
}

/// An arithmetic failure.
#[derive(Clone, Copy, Debug, PartialEq, Eq, Structural)]
pub enum ArithmeticError {
    /// The result does not fit.
    Overflow,
}

/// Why a call fails.
#[derive(Clone, Copy, Debug, PartialEq, Eq, Structural)]
pub enum DispatchError {
    /// The origin may not make the call.
    BadOrigin,
    /// An arithmetic failure.
    Arithmetic(ArithmeticError),
    /// The pallet refuses the call.
    Module(Error),
}

/// The answer of the configured authorizer to an origin that it does not accept.
#[derive(Clone, Copy, Debug, PartialEq, Eq, Structural)]
pub struct BadOrigin;

/// Where a call comes from.
#[derive(Clone, Debug, PartialEq, Eq)]
pub enum Origin<AccountId> {
    /// The system itself.
    Root,
    /// A transaction that this account signed.
    Signed(AccountId),
    /// A transaction that nobody signed, or an inherent.
    Unsigned,
    /// Any other origin.
    Other,
}

/// What the pallet reports.
#[derive(Clone, Debug, PartialEq, Eq)]
pub enum Event<AccountId> {
    /// Stored data under specified index.
    Stored { index: u32 },
    /// Renewed data under specified index.
    Renewed { index: u32 },
    /// Storage proof was successfully checked.
    ProofChecked,
    /// An account `who` was authorized to submit `transactions` to store up to `bytes`
    /// bytes.
    AccountUploadAuthorized { who: AccountId, transactions: u32, bytes: u64 },
    /// The preimage matching `hash` may be uploaded by anyone. The number of preimage bytes
    /// may not exceed `max_size`.
    PreimageUploadAuthorized { hash: PreimageHash, max_size: u64 },
}

/// What the node is asked to do with its index of transactions.
#[derive(Clone, Copy, Debug, PartialEq, Eq)]
pub enum IndexOperation {
    /// Index the last `size` bytes of the extrinsic under `hash`.
    Insert { extrinsic: u32, size: u32, hash: [u8; 32] },
    /// Keep what is indexed under `hash`, on behalf of the extrinsic.
    Renew { extrinsic: u32, hash: [u8; 32] },
}

/// The calls of the pallet.
#[derive(Clone, Debug, PartialEq, Eq)]
pub enum Call<AccountId, N> {
    /// Index and store data off chain.
    Store { data: Vec<u8> },
    /// Renew previously stored data.
    Renew { block: N, index: u32 },
    /// Check a storage proof.
    CheckProof { proof: TransactionStorageProof },
    /// Authorize an account to store data.
    AuthorizeAccount { who: AccountId, transactions: u32, bytes: u64 },
    /// Authorize anyone to store a blob.
    AuthorizePreimage { hash: PreimageHash, max_size: u64 },
}

/// What one access to the database costs.
#[derive(Clone, Copy, Debug, PartialEq, Eq, Structural)]
pub struct DbWeight {
    /// The cost of a read.
    pub read: u64,
    /// The cost of a write.
    pub write: u64,
}

/// The cost of an execution.
#[derive(Clone, Copy, Debug, PartialEq, Eq, Structural)]
pub struct Weight {
    /// Computation time.
    pub ref_time: u64,
    /// Size of the proof of validity.
    pub proof_size: u64,
}

/// How the pallet is configured.
#[derive(Clone, Copy, Debug, PartialEq, Eq)]
pub struct Config<N> {
    /// Maximum number of indexed transactions in the block.
    pub max_block_transactions: u32,
    /// Maximum data set in a single transaction in bytes.
    pub max_transaction_size: u32,
    /// Authorizations expire after this many blocks.
    pub authorization_period: N,
    /// The duration, in blocks, for which the pallet will store data.
    pub storage_period: N,
    /// What access to the database costs.
    pub db_weight: DbWeight,
}

/// Why a configuration makes no sense.
#[derive(Clone, Copy, Debug, PartialEq, Eq, Structural)]
pub enum IntegrityError {
    /// Not useful if authorizations are never valid.
    NoAuthorizationPeriod,
    /// Not useful if data is not stored.
    NoStoragePeriod,
    /// Not useful if data cannot be submitted.
    NoBlockTransactions,
    /// Not useful if data cannot be uploaded.
    NoTransactionSize,
}

/// What the pallet knows of the block that is being executed.
#[derive(Clone, Debug, PartialEq, Eq)]
pub struct System<N> {
    /// The number of the block.
    pub block_number: N,
    /// The hash of the parent block.
    pub parent_hash: Vec<u8>,
    /// The index of the extrinsic that is being executed, if any is.
    pub extrinsic_index: Option<u32>,
}

} // verus!
