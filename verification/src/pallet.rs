//! The pallet: its storage, its calls and its hooks.

use crate::chunks::{
    chunks_of, chunks_so_far, find_transaction, found_at, num_chunks, split_chunks,
};
use crate::laws::chunks_make_up_the_data;
use crate::number::{BlockNumber, Identity};
use crate::primitives::{
    TransactionStorageProof, blake2_256, blake2_256_of, blake2_256_ordered_root,
    blake2_256_verify_proof, encode_index, ordered_root_of, provable, provided_proof, provides,
    random_chunk,
};
use crate::state::{ChunkLocation, State, initialization_weight, scope_used};
use crate::storage::StorageMap;
use crate::types::{
    ArithmeticError, Authorization, AuthorizationExtent, AuthorizationScope, BadOrigin, Call,
    Config, DispatchError, Error, Event, IndexOperation, IntegrityError, Origin, PreimageHash,
    System, TransactionInfo, Weight,
};
use frame_support::inherent::InherentData;
use sp_transaction_storage_proof::InherentError;
use vstd::prelude::*;

verus! {

/// The pallet's storage, with what it knows of the block that is being executed.
pub struct Pallet<A, N> {
    /// How the pallet is configured.
    pub config: Config<N>,
    /// The block that is being executed.
    pub system: System<N>,
    /// Authorization keyed by scope.
    pub authorizations: StorageMap<AuthorizationScope<A>, Authorization<N>>,
    /// Collection of transaction metadata by block number.
    pub transactions: StorageMap<N, Vec<TransactionInfo>>,
    /// Count indexed chunks for each block.
    pub chunk_count: StorageMap<N, u32>,
    /// The transactions of the block that is being executed.
    pub block_transactions: Vec<TransactionInfo>,
    /// Was the proof checked in this block?
    pub proof_checked: bool,
    /// What the node is asked to do with its index of transactions, oldest first.
    pub index_operations: Vec<IndexOperation>,
    /// What the pallet reports, oldest first.
    pub events: Vec<Event<A>>,
}

impl<A, N> View for Pallet<A, N> {
    type V = State<A, N>;

    open spec fn view(&self) -> State<A, N> {
        State {
            config: self.config,
            block_number: self.system.block_number,
            parent_hash: self.system.parent_hash@,
            extrinsic_index: self.system.extrinsic_index,
            authorizations: self.authorizations@,
            transactions: self.transactions@.map_values(|infos: Vec<TransactionInfo>| infos@),
            chunk_count: self.chunk_count@,
            block_transactions: self.block_transactions@,
            proof_checked: self.proof_checked,
            index_operations: self.index_operations@,
            events: self.events@,
        }
    }
}

impl<A: Identity, N: BlockNumber> Pallet<A, N> {
    /// The pallet at genesis.
    pub fn new(config: Config<N>) -> (r: Self)
        ensures
            r@ == State::<A, N>::genesis(config),
    {
        let r = Pallet {
            config,
            system: System {
                block_number: N::zero(),
                parent_hash: Vec::new(),
                extrinsic_index: None,
            },
            authorizations: StorageMap::new(),
            transactions: StorageMap::new(),
            chunk_count: StorageMap::new(),
            block_transactions: Vec::new(),
            proof_checked: false,
            index_operations: Vec::new(),
            events: Vec::new(),
        };
        assert(r@ =~= State::<A, N>::genesis(config));
        r
    }

    /// Finds the authorization that covers a call from `origin` that stores data with this hash
    /// and size. Gives its scope and what the call leaves of it.
    fn check_authorization(&self, origin: &Origin<A>, hash: PreimageHash, size: u32) -> (r: Result<
        (AuthorizationScope<A>, Authorization<N>),
        DispatchError,
    >)
        ensures
            match r {
                Ok((scope, left)) => {
                    &&& scope_used(*origin, hash) == Some(scope)
                    &&& self@.permits(scope, size)
                    &&& left == self@.left_after(scope, size)
                },
                Err(error) => self@.use_result(*origin, hash, size) == Err::<(), _>(error),
            },
    {
        let scope: AuthorizationScope<A> = match origin {
            Origin::Signed(who) => AuthorizationScope::Account(who.duplicate()),
            Origin::Unsigned => AuthorizationScope::Preimage(hash),
            _ => {
                return Err(DispatchError::BadOrigin);
            },
        };
        let authorization: Authorization<N> = match self.authorizations.get(&scope) {
            Some(authorization) => *authorization,
            None => {
                return Err(DispatchError::Module(Error::NotAuthorized));
            },
        };
        if self.system.block_number.is_after(authorization.expiration) {
            return Err(DispatchError::Module(Error::NotAuthorized));
        }
        let transactions: u32 = match authorization.extent.transactions.checked_sub(1) {
            Some(transactions) => transactions,
            None => {
                return Err(DispatchError::Module(Error::NotAuthorized));
            },
        };
        let bytes: u64 = match authorization.extent.bytes.checked_sub(size as u64) {
            Some(bytes) => bytes,
            None => {
                return Err(DispatchError::Module(Error::NotAuthorized));
            },
        };
        let extent: AuthorizationExtent = AuthorizationExtent { transactions, bytes };
        Ok((scope, Authorization { extent, expiration: authorization.expiration }))
    }

    /// Uses the authorization that covers a call from `origin` that stores data with this hash and
    /// size.
    pub fn use_authorization(&mut self, origin: Origin<A>, hash: PreimageHash, size: u32) -> (r:
        Result<(), DispatchError>)
        ensures
            r == old(self)@.use_result(origin, hash, size),
            final(self)@ == old(self)@.used_by(origin, hash, size),
    {
        match self.check_authorization(&origin, hash, size) {
            Ok((scope, left)) => {
                self.authorizations.insert(scope, left);
                Ok(())
            },
            Err(error) => Err(error),
        }
    }

    /// Authorizes a scope for so many more transactions and bytes. Note that it is possible for
    /// authorizations to get lost due to the saturating arithmetic.
    pub fn authorize(&mut self, scope: AuthorizationScope<A>, transactions: u32, bytes: u64) -> (r:
        Result<(), DispatchError>)
        ensures
            r == old(self)@.authorize_result(),
            final(self)@ == old(self)@.authorized(scope, transactions, bytes),
    {
        // Determine expiry block.
        let period: N = self.config.authorization_period;
        let expiration: N = match self.system.block_number.checked_sum(period) {
            Some(expiration) => expiration,
            None => {
                return Err(DispatchError::Arithmetic(ArithmeticError::Overflow));
            },
        };
        // Credit scope.
        let extent: AuthorizationExtent = match self.authorizations.get(&scope) {
            Some(authorization) => authorization.extent,
            None => AuthorizationExtent::default(),
        };
        self.authorizations.insert(
            scope,
            Authorization {
                extent: AuthorizationExtent {
                    transactions: extent.transactions.saturating_add(transactions),
                    bytes: extent.bytes.saturating_add(bytes),
                },
                expiration,
            },
        );
        Ok(())
    }

    /// Adds a transaction to the block.
    fn add_transaction(&mut self, chunk_root: [u8; 32], content_hash: [u8; 32], size: u32)
        ensures
            final(self)@ == old(self)@.extended(chunk_root, content_hash, size),
    {
        let chunks: u32 = num_chunks(size);
        let block_chunks: u32 = chunks_so_far(&self.block_transactions).saturating_add(chunks);
        self.block_transactions.push(
            TransactionInfo { chunk_root, content_hash, size, block_chunks },
        );
    }

    /// Indexes a transaction, with this root of the chunks of its data, and this hash and size of
    /// its data. A `renewal` is of data that the node has indexed already.
    pub fn index_transaction(
        &mut self,
        origin: Origin<A>,
        chunk_root: [u8; 32],
        content_hash: [u8; 32],
        size: u32,
        renewal: bool,
    ) -> (r: Result<(), DispatchError>)
        ensures
            r == old(self)@.index_result(origin, content_hash, size),
            final(self)@ == old(self)@.indexed(origin, chunk_root, content_hash, size, renewal),
    {
        let (scope, left) = match self.check_authorization(&origin, content_hash, size) {
            Ok(found) => found,
            Err(error) => {
                return Err(error);
            },
        };
        let extrinsic: u32 = match self.system.extrinsic_index {
            Some(extrinsic) => extrinsic,
            None => {
                return Err(DispatchError::Module(Error::BadContext));
            },
        };
        self.index_operations.push(
            if renewal {
                IndexOperation::Renew { extrinsic, hash: content_hash }
            } else {
                IndexOperation::Insert { extrinsic, size, hash: content_hash }
            },
        );
        if self.block_transactions.len() >= self.config.max_block_transactions as usize {
            return Err(DispatchError::Module(Error::TooManyTransactions));
        }
        let index: u32 = self.block_transactions.len() as u32;
        self.authorizations.insert(scope, left);
        self.add_transaction(chunk_root, content_hash, size);
        self.events.push(
            if renewal {
                Event::Renewed { index }
            } else {
                Event::Stored { index }
            },
        );
        Ok(())
    }

    /// Index and store data off chain. Minimum data size is 1 bytes, maximum is
    /// `max_transaction_size`. Data will be removed after `storage_period` blocks, unless `renew`
    /// is called.
    ///
    /// ## Complexity
    ///
    /// O(n*log(n)) of data size, as all data is pushed to an in-memory trie.
    pub fn store(&mut self, origin: Origin<A>, data: Vec<u8>) -> (r: Result<(), DispatchError>)
        ensures
            r == old(self)@.store_result(origin, data@.len(), blake2_256_of(data@)),
            final(self)@ == old(self)@.stored(
                origin,
                data@.len(),
                blake2_256_of(data@),
                ordered_root_of(chunks_of(data@)),
            ),
            r is Ok ==> provable(ordered_root_of(chunks_of(data@)), chunks_of(data@)),
    {
        if data.is_empty() {
            return Err(DispatchError::Module(Error::EmptyTransaction));
        }
        if data.len() > self.config.max_transaction_size as usize {
            return Err(DispatchError::Module(Error::TransactionTooLarge));
        }
        let size: u32 = data.len() as u32;
        let content_hash: [u8; 32] = blake2_256(data.as_slice());
        // Refuse what is not authorized before the data is chunked
        match self.check_authorization(&origin, content_hash, size) {
            Ok(_) => {},
            Err(error) => {
                return Err(error);
            },
        }
        // Chunk data and compute storage root
        let chunks: Vec<Vec<u8>> = split_chunks(&data);
        proof {
            assert forall|i: int| 0 <= i < chunks@.len() implies (#[trigger] chunks@[i])@.len()
                > 0 by {
                assert(chunks@[i].deep_view() =~= chunks@[i]@);
                assert(chunks.deep_view()[i] == chunks@[i].deep_view());
                chunks_make_up_the_data(data@, i, 0);
            }
        }
        let chunk_root: [u8; 32] = blake2_256_ordered_root(chunks);
        self.index_transaction(origin, chunk_root, content_hash, size, false)
    }

    /// Renew previously stored data. Parameters are the block number that contains
    /// previous `store` or `renew` call and transaction index within that block.
    /// Transaction index is emitted in the `Stored` or `Renewed` event.
    /// Requires same authorization as `store`.
    ///
    /// ## Complexity
    ///
    /// O(1).
    pub fn renew(&mut self, origin: Origin<A>, block: N, index: u32) -> (r: Result<
        (),
        DispatchError,
    >)
        ensures
            r == old(self)@.renew_result(origin, block, index),
            final(self)@ == old(self)@.renewed(origin, block, index),
    {
        let info: TransactionInfo = match self.transactions.get(&block) {
            Some(infos) => {
                if index as usize >= infos.len() {
                    return Err(DispatchError::Module(Error::RenewedNotFound));
                }
                infos[index as usize]
            },
            None => {
                return Err(DispatchError::Module(Error::RenewedNotFound));
            },
        };
        self.index_transaction(origin, info.chunk_root, info.content_hash, info.size, true)
    }

    /// The number of chunks that were indexed in a block.
    fn chunks_at(&self, block: N) -> (r: u32)
        ensures
            r == self@.chunks_at(block),
    {
        match self.chunk_count.get(&block) {
            Some(count) => *count,
            None => 0,
        }
    }

    /// The block whose data has to be proved in this block.
    pub fn proved_block(&self) -> (r: N)
        ensures
            r == self@.proved_block(),
    {
        self.system.block_number.saturating_difference(self.config.storage_period)
    }

    /// Finds the chunk that a proof from `origin` has to be about.
    pub fn locate_chunk(&self, origin: Origin<A>) -> (r: Result<ChunkLocation, DispatchError>)
        requires
            origin is Unsigned && !self@.proof_checked && self@.proof_due()
                ==> self@.parent_hash.len() >= 8,
        ensures
            self@.locates(origin, r),
    {
        match origin {
            Origin::Unsigned => {},
            _ => {
                return Err(DispatchError::BadOrigin);
            },
        }
        if self.proof_checked {
            return Err(DispatchError::Module(Error::DoubleCheck));
        }
        let target: N = self.proved_block();
        if !target.is_after(N::zero()) {
            proof {
                target.lemma_value_of(0);
            }
            return Err(DispatchError::Module(Error::UnexpectedProof));
        }
        let total_chunks: u32 = self.chunks_at(target);
        if total_chunks == 0 {
            return Err(DispatchError::Module(Error::UnexpectedProof));
        }
        proof {
            target.lemma_value_of(0);
        }
        let selected: u32 = random_chunk(&self.system.parent_hash, total_chunks);
        match self.transactions.get(&target) {
            Some(infos) => {
                let index: usize = find_transaction(infos, selected);
                proof {
                    let kept = self@.transactions[self@.proved_block()];
                    assert(kept == infos@);
                    assert(found_at(kept, self@.selected_chunk(), index as int));
                }
                if index >= infos.len() {
                    return Err(DispatchError::Module(Error::MissingStateData));
                }
                let info: TransactionInfo = infos[index];
                let chunks: u32 = num_chunks(info.size);
                let prev_chunks: u32 = info.block_chunks.saturating_sub(chunks);
                Ok(
                    ChunkLocation {
                        chunk_root: info.chunk_root,
                        chunk_index: selected.saturating_sub(prev_chunks),
                    },
                )
            },
            None => Err(DispatchError::Module(Error::MissingStateData)),
        }
    }

    /// Takes note of a proof that was verified, or failed verification.
    pub fn conclude_proof(&mut self, verified: bool) -> (r: Result<(), DispatchError>)
        ensures
            (final(self)@, r) == old(self)@.concluded(verified),
    {
        if !verified {
            return Err(DispatchError::Module(Error::InvalidProof));
        }
        self.proof_checked = true;
        self.events.push(Event::ProofChecked);
        Ok(())
    }

    /// Check storage proof for block number `block_number - storage_period`.
    /// If such block does not exist no proof is expected.
    ///
    /// ## Complexity
    ///
    /// Linear w.r.t the number of indexed transactions in the proved block for random
    /// probing. There's a DB read for each transaction.
    pub fn check_proof(&mut self, origin: Origin<A>, proof_data: TransactionStorageProof) -> (r:
        Result<(), DispatchError>)
        requires
            origin is Unsigned && !old(self)@.proof_checked && old(self)@.proof_due()
                ==> old(self)@.parent_hash.len() >= 8,
        ensures
            exists|located: Result<ChunkLocation, DispatchError>| #[trigger]
                old(self)@.locates(origin, located) && (final(self)@, r) == old(self)@.checked(
                    located,
                    proof_data.chunk@,
                    proof_data.proof.deep_view(),
                ),
    {
        let located: Result<ChunkLocation, DispatchError> = self.locate_chunk(origin);
        match located {
            Ok(location) => {
                let verified: bool = blake2_256_verify_proof(
                    location.chunk_root,
                    &proof_data.proof,
                    &encode_index(location.chunk_index),
                    &proof_data.chunk,
                );
                self.conclude_proof(verified)
            },
            Err(error) => Err(error),
        }
    }

    /// Authorize an account to store up to a given amount of arbitrary data. Authorizations are
    /// additive, that is if the account already has an authorization, this will increase it.
    /// The authorization will expire after a configured number of blocks.
    ///
    /// Parameters:
    ///
    /// - `origin`: The answer of the configured authorizer to the origin of the call.
    /// - `who`: The account to be credited with an authorization to store data.
    /// - `transactions`: The number of transactions that `who` may submit to supply that data.
    /// - `bytes`: The number of bytes that `who` may submit.
    ///
    /// Emits `AccountUploadAuthorized` when successful.
    pub fn authorize_account(
        &mut self,
        origin: Result<(), BadOrigin>,
        who: A,
        transactions: u32,
        bytes: u64,
    ) -> (r: Result<(), DispatchError>)
        ensures
            r == old(self)@.authorize_account_result(origin is Ok),
            final(self)@ == if r is Ok {
                old(self)@.authorized(
                    AuthorizationScope::Account(who),
                    transactions,
                    bytes,
                ).reported(Event::AccountUploadAuthorized { who, transactions, bytes })
            } else {
                old(self)@
            },
    {
        if origin.is_err() {
            return Err(DispatchError::BadOrigin);
        }
        match self.authorize(AuthorizationScope::Account(who.duplicate()), transactions, bytes) {
            Ok(()) => {},
            Err(error) => {
                return Err(error);
            },
        }
        self.events.push(Event::AccountUploadAuthorized { who, transactions, bytes });
        Ok(())
    }

    /// Authorize anyone to store a blob up to the given size, as long as the blob has a Blake2b
    /// hash matching the authorization. The preimage must be uploaded in one call. The
    /// authorization will expire after a configured number of blocks.
    ///
    /// Parameters:
    ///
    /// - `origin`: The answer of the configured authorizer to the origin of the call.
    /// - `hash`: The Blake2b hash of the data to be submitted.
    /// - `max_size`: The maximum size, in bytes, of the preimage.
    ///
    /// Emits `PreimageUploadAuthorized` when successful.
    pub fn authorize_preimage(
        &mut self,
        origin: Result<(), BadOrigin>,
        hash: PreimageHash,
        max_size: u64,
    ) -> (r: Result<(), DispatchError>)
        ensures
            r == old(self)@.authorize_preimage_result(origin is Ok, max_size),
            final(self)@ == if r is Ok {
                old(self)@.authorized(AuthorizationScope::Preimage(hash), 1, max_size).reported(
                    Event::PreimageUploadAuthorized { hash, max_size },
                )
            } else {
                old(self)@
            },
    {
        if origin.is_err() {
            return Err(DispatchError::BadOrigin);
        }
        if max_size > self.config.max_transaction_size as u64 {
            return Err(DispatchError::Module(Error::Impossible));
        }
        // A preimage authorized with a given hash must be uploaded in one transaction.
        match self.authorize(AuthorizationScope::Preimage(hash), 1, max_size) {
            Ok(()) => {},
            Err(error) => {
                return Err(error);
            },
        }
        self.events.push(Event::PreimageUploadAuthorized { hash, max_size });
        Ok(())
    }

    /// What is left of the unexpired authorization of a scope.
    fn unused_extent(&self, scope: &AuthorizationScope<A>) -> (r: AuthorizationExtent)
        ensures
            r == self@.unused_extent(*scope),
    {
        match self.authorizations.get(scope) {
            Some(authorization) => {
                if self.system.block_number.is_after(authorization.expiration) {
                    // authorization extent may exist, but has expired.
                    AuthorizationExtent::default()
                } else {
                    authorization.extent
                }
            },
            None => AuthorizationExtent::default(),
        }
    }

    /// Returns the unused extent of (unexpired) authorizations for the given account.
    pub fn unused_account_authorization_extent(&self, who: A) -> (r: AuthorizationExtent)
        ensures
            r == self@.unused_extent(AuthorizationScope::Account(who)),
    {
        self.unused_extent(&AuthorizationScope::Account(who))
    }

    /// Returns the unused extent of (unexpired) authorizations for the given preimage.
    pub fn unused_preimage_authorization_extent(&self, hash: PreimageHash) -> (r:
        AuthorizationExtent)
        ensures
            r == self@.unused_extent(AuthorizationScope::Preimage(hash)),
    {
        self.unused_extent(&AuthorizationScope::Preimage(hash))
    }

    /// The transactions that were stored in a block.
    pub fn transaction_roots(&self, block: N) -> (r: Option<&Vec<TransactionInfo>>)
        ensures
            match r {
                Some(infos) => self@.transactions.contains_key(block) && self@.transactions[block]
                    == infos@,
                None => !self@.transactions.contains_key(block),
            },
    {
        self.transactions.get(&block)
    }

    /// The block whose transactions are dropped at the start of block `n`. The proof for the block
    /// after it will be checked later in block `n`.
    pub fn obsolete_block(&self, n: N) -> (r: N)
        ensures
            r == self@.obsolete_block(n),
    {
        n.saturating_difference(self.config.storage_period.saturating_sum(N::one()))
    }

    /// The start of block `n`. Gives what it costs, together with the end of the block.
    pub fn on_initialize(&mut self, n: N) -> (r: Weight)
        ensures
            final(self)@ == old(self)@.initialized(n),
            r == initialization_weight(
                old(self)@.config.db_weight,
                old(self)@.obsolete_block(n).value() > 0,
            ),
    {
        let read: u64 = self.config.db_weight.read;
        let write: u64 = self.config.db_weight.write;
        // Drop obsolete roots.
        let mut ref_time: u64 = read;
        let obsolete: N = self.obsolete_block(n);
        proof {
            obsolete.lemma_value_of(0);
        }
        if obsolete.is_after(N::zero()) {
            ref_time = ref_time.saturating_add(write.saturating_add(write));
            self.transactions.remove(&obsolete);
            self.chunk_count.remove(&obsolete);
            proof {
                assert(self@.transactions =~= old(self)@.transactions.remove(obsolete));
            }
        }
        // For `on_finalize`
        let reads: u64 = read.saturating_add(read);
        let writes: u64 = write.saturating_add(write);
        ref_time = ref_time.saturating_add(reads.saturating_add(writes));
        Weight { ref_time, proof_size: 0 }
    }

    /// Whether the proof was checked, or none is required. Proof is not required for early or empty
    /// blocks.
    pub fn is_proof_settled(&self) -> (r: bool)
        ensures
            r == self@.proof_settled(),
    {
        if self.proof_checked {
            return true;
        }
        let target: N = self.proved_block();
        proof {
            target.lemma_value_of(0);
        }
        !target.is_after(N::zero()) || self.chunks_at(target) == 0
    }

    /// The end of block `n`. Storage proof must be checked once in the block.
    pub fn on_finalize(&mut self, n: N)
        requires
            old(self)@.proof_settled(),
        ensures
            final(self)@ == old(self)@.finalized(n),
    {
        self.proof_checked = false;
        // Insert new transactions
        let mut transactions: Vec<TransactionInfo> = Vec::new();
        std::mem::swap(&mut transactions, &mut self.block_transactions);
        let total_chunks: u32 = chunks_so_far(&transactions);
        if total_chunks != 0 {
            self.chunk_count.insert(n, total_chunks);
            self.transactions.insert(n, transactions);
            proof {
                assert(self@.transactions =~= old(self)@.transactions.insert(n, transactions@));
            }
        }
        assert(self@.block_transactions =~= old(self)@.finalized(n).block_transactions);
    }

    /// Whether the configuration makes sense.
    pub fn integrity_test(&self) -> (r: Result<(), IntegrityError>)
        ensures
            r == match self@.config.flaw() {
                Some(flaw) => Err(flaw),
                None => Ok(()),
            },
    {
        let zero: N = N::zero();
        proof {
            zero.lemma_value_of(0);
        }
        if !self.config.authorization_period.is_after(zero) {
            return Err(IntegrityError::NoAuthorizationPeriod);
        }
        if !self.config.storage_period.is_after(zero) {
            return Err(IntegrityError::NoStoragePeriod);
        }
        if self.config.max_block_transactions == 0 {
            return Err(IntegrityError::NoBlockTransactions);
        }
        if self.config.max_transaction_size == 0 {
            return Err(IntegrityError::NoTransactionSize);
        }
        Ok(())
    }

    /// The inherent that checks the storage proof, if the block author provides a proof.
    pub fn create_inherent(data: &InherentData) -> (r: Option<Call<A, N>>)
        ensures
            match r {
                Some(Call::CheckProof { proof: found }) => provides(
                    *data,
                    found.chunk@,
                    found.proof.deep_view(),
                ),
                Some(_) => false,
                None => forall|chunk: Seq<u8>, nodes: Seq<Seq<u8>>|
                    !#[trigger] provides(*data, chunk, nodes),
            },
    {
        match provided_proof(data) {
            Ok(Some(found)) => Some(Call::CheckProof { proof: found }),
            _ => None,
        }
    }

    /// Whether an inherent agrees with what the block author provides. Any does: a wrong proof is
    /// refused when it is checked.
    pub fn check_inherent(_call: &Call<A, N>, _data: &InherentData) -> (r: Result<
        (),
        InherentError,
    >)
        ensures
            r is Ok,
    {
        Ok(())
    }

    /// Whether a call is an inherent.
    pub fn is_inherent(call: &Call<A, N>) -> (r: bool)
        ensures
            r == (call is CheckProof),
    {
        matches!(call, Call::CheckProof { .. })
    }
}

} // verus!
