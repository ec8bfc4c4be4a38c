//! The state of the pallet as a mathematical value, and what each operation makes of it.

use crate::chunks::{chunks_in, found_at, saturating_u32, total_chunks};
use crate::number::{Numeral, difference_or_zero, sum_if_fits, sum_or_max};
use crate::primitives::{chosen_chunk, compact_encoding, proof_verifies};
use crate::types::{
    ArithmeticError, Authorization, AuthorizationExtent, AuthorizationScope, Config, DbWeight,
    DispatchError, Error, Event, IndexOperation, IntegrityError, Origin, PreimageHash,
    TransactionInfo, Weight, no_extent,
};
use vstd::prelude::*;

verus! {

/// Where the chunk to prove lies: in the trie with this root, at this index.
#[derive(Clone, Copy, Debug, PartialEq, Eq)]
pub struct ChunkLocation {
    /// The root of the chunk trie of the transaction.
    pub chunk_root: [u8; 32],
    /// The index of the chunk in the transaction.
    pub chunk_index: u32,
}

/// The state of the pallet, with what it knows of the block that is being executed.
#[verifier::ext_equal]
#[verifier::reject_recursive_types(A)]
#[verifier::reject_recursive_types(N)]
pub struct State<A, N> {
    /// How the pallet is configured.
    pub config: Config<N>,
    /// The number of the block.
    pub block_number: N,
    /// The hash of the parent block.
    pub parent_hash: Seq<u8>,
    /// The index of the extrinsic that is being executed, if any is.
    pub extrinsic_index: Option<u32>,
    /// Authorization keyed by scope.
    pub authorizations: Map<AuthorizationScope<A>, Authorization<N>>,
    /// Collection of transaction metadata by block number.
    pub transactions: Map<N, Seq<TransactionInfo>>,
    /// Count of indexed chunks for each block.
    pub chunk_count: Map<N, u32>,
    /// The transactions of the block that is being executed.
    pub block_transactions: Seq<TransactionInfo>,
    /// Was the proof checked in this block?
    pub proof_checked: bool,
    /// What the node was asked to do with its index, oldest first.
    pub index_operations: Seq<IndexOperation>,
    /// What the pallet reported, oldest first.
    pub events: Seq<Event<A>>,
}

/// The refusal of a call by the pallet itself.
pub open spec fn refused(error: Error) -> Result<(), DispatchError> {
    Err(DispatchError::Module(error))
}

/// The scope whose authorization a call uses: that of the account that signed it, or, if nobody
/// signed it, that of the hash of the data.
pub open spec fn scope_used<A>(origin: Origin<A>, hash: PreimageHash) -> Option<
    AuthorizationScope<A>,
> {
    match origin {
        Origin::Signed(who) => Some(AuthorizationScope::Account(who)),
        Origin::Unsigned => Some(AuthorizationScope::Preimage(hash)),
        _ => None,
    }
}

/// The extent of two authorizations together, as far as it can be counted.
pub open spec fn extent_sum(a: AuthorizationExtent, b: AuthorizationExtent) -> AuthorizationExtent {
    AuthorizationExtent {
        transactions: saturating_u32(a.transactions + b.transactions),
        bytes: if a.bytes + b.bytes <= u64::MAX {
            (a.bytes + b.bytes) as u64
        } else {
            u64::MAX
        },
    }
}

/// Where `selected`, an index among the chunks of the block, lies in the transaction `info`.
pub open spec fn location_in(info: TransactionInfo, selected: u32) -> ChunkLocation {
    ChunkLocation {
        chunk_root: info.chunk_root,
        chunk_index: saturating_u32(
            selected - saturating_u32(info.block_chunks - chunks_in(info.size as nat)),
        ),
    }
}

/// The cost of the start of a block: three reads, two writes, and two more where a block's
/// transactions are dropped.
pub open spec fn initialization_weight(db_weight: DbWeight, dropped: bool) -> Weight {
    let writes: int = if dropped {
        4
    } else {
        2
    };
    let ref_time = 3 * db_weight.read + writes * db_weight.write;
    Weight {
        ref_time: if ref_time <= u64::MAX {
            ref_time as u64
        } else {
            u64::MAX
        },
        proof_size: 0,
    }
}

impl<N: Numeral> Config<N> {
    /// The first of the settings that make no sense, if there is one.
    pub open spec fn flaw(self) -> Option<IntegrityError> {
        if self.authorization_period.value() == 0 {
            Some(IntegrityError::NoAuthorizationPeriod)
        } else if self.storage_period.value() == 0 {
            Some(IntegrityError::NoStoragePeriod)
        } else if self.max_block_transactions == 0 {
            Some(IntegrityError::NoBlockTransactions)
        } else if self.max_transaction_size == 0 {
            Some(IntegrityError::NoTransactionSize)
        } else {
            None
        }
    }
}

impl<A, N: Numeral> State<A, N> {
    /// The state at genesis.
    pub open spec fn genesis(config: Config<N>) -> Self {
        State {
            config,
            block_number: N::of(0),
            parent_hash: Seq::empty(),
            extrinsic_index: None,
            authorizations: Map::empty(),
            transactions: Map::empty(),
            chunk_count: Map::empty(),
            block_transactions: Seq::empty(),
            proof_checked: false,
            index_operations: Seq::empty(),
            events: Seq::empty(),
        }
    }
}

// Authorizations.
impl<A, N: Numeral> State<A, N> {
    /// The authorization of a scope. A scope without one is authorized for nothing.
    pub open spec fn authorization(self, scope: AuthorizationScope<A>) -> Authorization<N> {
        if self.authorizations.contains_key(scope) {
            self.authorizations[scope]
        } else {
            Authorization { extent: no_extent(), expiration: N::of(0) }
        }
    }

    /// The authorization of a scope can no longer be used.
    pub open spec fn expired(self, scope: AuthorizationScope<A>) -> bool {
        self.block_number.value() > self.authorization(scope).expiration.value()
    }

    /// What is left of the unexpired authorization of a scope.
    pub open spec fn unused_extent(self, scope: AuthorizationScope<A>) -> AuthorizationExtent {
        if self.expired(scope) {
            no_extent()
        } else {
            self.authorization(scope).extent
        }
    }

    /// What is left of the unexpired authorization of a scope covers one transaction of this size.
    pub open spec fn permits(self, scope: AuthorizationScope<A>, size: u32) -> bool {
        &&& self.unused_extent(scope).transactions >= 1
        &&& self.unused_extent(scope).bytes >= size
    }

    /// The last block in which an authorization given now can be used.
    pub open spec fn expiration_from_now(self) -> Option<N> {
        sum_if_fits(self.block_number, self.config.authorization_period)
    }

    /// Whether an authorization can be given now.
    pub open spec fn authorize_result(self) -> Result<(), DispatchError> {
        if self.expiration_from_now() is Some {
            Ok(())
        } else {
            Err(DispatchError::Arithmetic(ArithmeticError::Overflow))
        }
    }

    /// After giving an authorization: the scope is authorized for so many more transactions and
    /// bytes, and the expiration of all that it is authorized for is counted from now.
    pub open spec fn authorized(
        self,
        scope: AuthorizationScope<A>,
        transactions: u32,
        bytes: u64,
    ) -> Self {
        match self.expiration_from_now() {
            Some(expiration) => State {
                authorizations: self.authorizations.insert(
                    scope,
                    Authorization {
                        extent: extent_sum(
                            self.authorization(scope).extent,
                            AuthorizationExtent { transactions, bytes },
                        ),
                        expiration,
                    },
                ),
                ..self
            },
            None => self,
        }
    }

    /// Whether a call from `origin` may store data with this hash and size.
    pub open spec fn use_result(self, origin: Origin<A>, hash: PreimageHash, size: u32) -> Result<
        (),
        DispatchError,
    > {
        match scope_used(origin, hash) {
            None => Err(DispatchError::BadOrigin),
            Some(scope) => if self.permits(scope, size) {
                Ok(())
            } else {
                refused(Error::NotAuthorized)
            },
        }
    }

    /// What a transaction of this size leaves of the authorization of a scope that permits it: one
    /// transaction less, and so many bytes less.
    pub open spec fn left_after(self, scope: AuthorizationScope<A>, size: u32) -> Authorization<N> {
        Authorization {
            extent: AuthorizationExtent {
                transactions: (self.authorization(scope).extent.transactions - 1) as u32,
                bytes: (self.authorization(scope).extent.bytes - size) as u64,
            },
            expiration: self.authorization(scope).expiration,
        }
    }

    /// After a call used the authorization of `scope` for data of this size, if it is permitted.
    pub open spec fn used(self, scope: AuthorizationScope<A>, size: u32) -> Self {
        if self.permits(scope, size) {
            State {
                authorizations: self.authorizations.insert(scope, self.left_after(scope, size)),
                ..self
            }
        } else {
            self
        }
    }

    /// After a call from `origin` tried to use an authorization.
    pub open spec fn used_by(self, origin: Origin<A>, hash: PreimageHash, size: u32) -> Self {
        match scope_used(origin, hash) {
            None => self,
            Some(scope) => self.used(scope, size),
        }
    }

    /// Whether the authorizer's answer and the settings let an account be authorized.
    pub open spec fn authorize_account_result(self, accepted: bool) -> Result<(), DispatchError> {
        if !accepted {
            Err(DispatchError::BadOrigin)
        } else {
            self.authorize_result()
        }
    }

    /// Whether the authorizer's answer and the settings let a preimage be authorized.
    pub open spec fn authorize_preimage_result(self, accepted: bool, max_size: u64) -> Result<
        (),
        DispatchError,
    > {
        if !accepted {
            Err(DispatchError::BadOrigin)
        } else if max_size > self.config.max_transaction_size {
            refused(Error::Impossible)
        } else {
            self.authorize_result()
        }
    }

    /// After an event.
    pub open spec fn reported(self, event: Event<A>) -> Self {
        State { events: self.events.push(event), ..self }
    }
}

// Transactions.
impl<A, N: Numeral> State<A, N> {
    /// Whether a transaction of this size and with this hash is indexed: it has to be authorized,
    /// in an extrinsic, and there has to be room in the block.
    pub open spec fn index_result(self, origin: Origin<A>, hash: PreimageHash, size: u32) -> Result<
        (),
        DispatchError,
    > {
        if self.use_result(origin, hash, size) is Err {
            self.use_result(origin, hash, size)
        } else if self.extrinsic_index is None {
            refused(Error::BadContext)
        } else if self.block_transactions.len() >= self.config.max_block_transactions {
            refused(Error::TooManyTransactions)
        } else {
            Ok(())
        }
    }

    /// With one more transaction in the block. Its count of chunks goes on from that of the
    /// transaction before it.
    pub open spec fn extended(
        self,
        chunk_root: [u8; 32],
        content_hash: [u8; 32],
        size: u32,
    ) -> Self {
        State {
            block_transactions: self.block_transactions.push(
                TransactionInfo {
                    chunk_root,
                    content_hash,
                    size,
                    block_chunks: saturating_u32(
                        total_chunks(self.block_transactions) + chunks_in(size as nat),
                    ),
                },
            ),
            ..self
        }
    }

    /// After the node was asked to index data, or to keep what it has indexed.
    pub open spec fn requested(self, content_hash: [u8; 32], size: u32, renewal: bool) -> Self {
        let extrinsic = self.extrinsic_index->0;
        State {
            index_operations: self.index_operations.push(
                if renewal {
                    IndexOperation::Renew { extrinsic, hash: content_hash }
                } else {
                    IndexOperation::Insert { extrinsic, size, hash: content_hash }
                },
            ),
            ..self
        }
    }

    /// What is reported when the next transaction of the block is indexed.
    pub open spec fn next_event(self, renewal: bool) -> Event<A> {
        let index = self.block_transactions.len() as u32;
        if renewal {
            Event::Renewed { index }
        } else {
            Event::Stored { index }
        }
    }

    /// After an attempt to index a transaction. One that is indexed uses its authorization, is
    /// handed to the node, is in the block, and is reported. One for which there is no room in the
    /// block has been handed to the node, and changes nothing else. Any other changes nothing.
    pub open spec fn indexed(
        self,
        origin: Origin<A>,
        chunk_root: [u8; 32],
        content_hash: [u8; 32],
        size: u32,
        renewal: bool,
    ) -> Self {
        let result = self.index_result(origin, content_hash, size);
        if result is Ok {
            self.used_by(origin, content_hash, size).requested(
                content_hash,
                size,
                renewal,
            ).extended(chunk_root, content_hash, size).reported(self.next_event(renewal))
        } else if result == refused(Error::TooManyTransactions) {
            self.requested(content_hash, size, renewal)
        } else {
            self
        }
    }

    /// Whether data of this length, with this hash, is stored.
    pub open spec fn store_result(
        self,
        origin: Origin<A>,
        len: nat,
        content_hash: [u8; 32],
    ) -> Result<(), DispatchError> {
        if len == 0 {
            refused(Error::EmptyTransaction)
        } else if len > self.config.max_transaction_size {
            refused(Error::TransactionTooLarge)
        } else {
            self.index_result(origin, content_hash, len as u32)
        }
    }

    /// After an attempt to store data of this length, with this hash and this root of its chunks.
    pub open spec fn stored(
        self,
        origin: Origin<A>,
        len: nat,
        content_hash: [u8; 32],
        chunk_root: [u8; 32],
    ) -> Self {
        if len == 0 || len > self.config.max_transaction_size {
            self
        } else {
            self.indexed(origin, chunk_root, content_hash, len as u32, false)
        }
    }

    /// What was stored in a block under an index.
    pub open spec fn lookup(self, block: N, index: u32) -> Option<TransactionInfo> {
        if self.transactions.contains_key(block) && index < self.transactions[block].len() {
            Some(self.transactions[block][index as int])
        } else {
            None
        }
    }

    /// Whether what was stored in a block under an index is renewed.
    pub open spec fn renew_result(self, origin: Origin<A>, block: N, index: u32) -> Result<
        (),
        DispatchError,
    > {
        match self.lookup(block, index) {
            None => refused(Error::RenewedNotFound),
            Some(info) => self.index_result(origin, info.content_hash, info.size),
        }
    }

    /// After an attempt to renew what was stored in a block under an index.
    pub open spec fn renewed(self, origin: Origin<A>, block: N, index: u32) -> Self {
        match self.lookup(block, index) {
            None => self,
            Some(info) => self.indexed(
                origin,
                info.chunk_root,
                info.content_hash,
                info.size,
                true,
            ),
        }
    }
}

// Proofs and blocks.
impl<A, N: Numeral> State<A, N> {
    /// The number of chunks that were indexed in a block.
    pub open spec fn chunks_at(self, block: N) -> u32 {
        if self.chunk_count.contains_key(block) {
            self.chunk_count[block]
        } else {
            0
        }
    }

    /// The block whose data has to be proved in this block.
    pub open spec fn proved_block(self) -> N {
        difference_or_zero(self.block_number, self.config.storage_period)
    }

    /// A proof is required in this block: it is not an early block, and data was stored in the
    /// block that is to be proved.
    pub open spec fn proof_due(self) -> bool {
        &&& self.proved_block().value() > 0
        &&& self.chunks_at(self.proved_block()) != 0
    }

    /// The proof was checked, or none is required.
    pub open spec fn proof_settled(self) -> bool {
        self.proof_checked || !self.proof_due()
    }

    /// The chunk of the proved block that has to be proved.
    pub open spec fn selected_chunk(self) -> u32 {
        chosen_chunk(self.parent_hash, self.chunks_at(self.proved_block()))
    }

    /// `located` answers which chunk a proof from `origin` has to be about. In a block whose
    /// counts of chunks are in order there is one answer only.
    pub open spec fn locates(
        self,
        origin: Origin<A>,
        located: Result<ChunkLocation, DispatchError>,
    ) -> bool {
        if !(origin is Unsigned) {
            located == Err::<ChunkLocation, _>(DispatchError::BadOrigin)
        } else if self.proof_checked {
            located == Err::<ChunkLocation, _>(DispatchError::Module(Error::DoubleCheck))
        } else if !self.proof_due() {
            located == Err::<ChunkLocation, _>(DispatchError::Module(Error::UnexpectedProof))
        } else if !self.transactions.contains_key(self.proved_block()) {
            located == Err::<ChunkLocation, _>(DispatchError::Module(Error::MissingStateData))
        } else {
            let infos = self.transactions[self.proved_block()];
            exists|i: int| #[trigger]
                found_at(infos, self.selected_chunk(), i) && located == if i < infos.len() {
                    Ok(location_in(infos[i], self.selected_chunk()))
                } else {
                    Err(DispatchError::Module(Error::MissingStateData))
                }
        }
    }

    /// After a proof was verified, or failed verification, and the answer to it.
    pub open spec fn concluded(self, verified: bool) -> (Self, Result<(), DispatchError>) {
        if verified {
            (State { proof_checked: true, ..self }.reported(Event::ProofChecked), Ok(()))
        } else {
            (self, refused(Error::InvalidProof))
        }
    }

    /// After a proof, of this chunk with these trie nodes, was checked against the chunk that has
    /// to be proved, and the answer to it.
    pub open spec fn checked(
        self,
        located: Result<ChunkLocation, DispatchError>,
        chunk: Seq<u8>,
        nodes: Seq<Seq<u8>>,
    ) -> (Self, Result<(), DispatchError>) {
        match located {
            Err(error) => (self, Err(error)),
            Ok(location) => self.concluded(
                proof_verifies(
                    location.chunk_root,
                    nodes,
                    compact_encoding(location.chunk_index),
                    chunk,
                ),
            ),
        }
    }

    /// The block whose transactions are dropped at the start of block `n`. The one after it is
    /// still to be proved in block `n`.
    pub open spec fn obsolete_block(self, n: N) -> N {
        difference_or_zero(n, sum_or_max(self.config.storage_period, N::of(1)))
    }

    /// After the start of block `n`.
    pub open spec fn initialized(self, n: N) -> Self {
        if self.obsolete_block(n).value() > 0 {
            State {
                transactions: self.transactions.remove(self.obsolete_block(n)),
                chunk_count: self.chunk_count.remove(self.obsolete_block(n)),
                ..self
            }
        } else {
            self
        }
    }

    /// After the end of block `n`: its transactions, if there are any, are kept under its number.
    pub open spec fn finalized(self, n: N) -> Self {
        let closed_block = State {
            block_transactions: Seq::empty(),
            proof_checked: false,
            ..self
        };
        if total_chunks(self.block_transactions) != 0 {
            State {
                chunk_count: self.chunk_count.insert(n, total_chunks(self.block_transactions)),
                transactions: self.transactions.insert(n, self.block_transactions),
                ..closed_block
            }
        } else {
            closed_block
        }
    }
}

} // verus!
