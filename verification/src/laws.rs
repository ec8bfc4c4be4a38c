//! What holds of the pallet as a whole.

use crate::chunks::{
    chunks_in, chunks_of, found_at, in_order, lemma_found_at_is_unique, saturating_u32,
    total_chunks,
};
use crate::number::{Numeral, sum_or_max};
use crate::primitives::{chunk_bytes, compact_encoding, has_proof, proof_verifies, provable};
use crate::state::{ChunkLocation, State, extent_sum, location_in, refused, scope_used};
use crate::types::{
    AuthorizationExtent, AuthorizationScope, Config, DispatchError, Error, Event, Origin,
    PreimageHash, TransactionInfo, no_extent,
};
use vstd::prelude::*;

verus! {

/// What can happen to the state.
pub enum Operation<A, N> {
    /// Another extrinsic, or another block, is executed.
    Enter { block_number: N, parent_hash: Seq<u8>, extrinsic_index: Option<u32> },
    /// A scope is authorized, which is reported.
    Authorize { scope: AuthorizationScope<A>, transactions: u32, bytes: u64, event: Event<A> },
    /// Data is to be stored.
    Store { origin: Origin<A>, len: nat, content_hash: [u8; 32], chunk_root: [u8; 32] },
    /// Stored data is to be renewed.
    Renew { origin: Origin<A>, block: N, index: u32 },
    /// A proof is checked.
    CheckProof {
        located: Result<ChunkLocation, DispatchError>,
        chunk: Seq<u8>,
        nodes: Seq<Seq<u8>>,
    },
    /// A block starts.
    Initialize { n: N },
    /// A block ends.
    Finalize { n: N },
}

impl<A, N: Numeral> State<A, N> {
    /// After one operation.
    pub open spec fn after(self, operation: Operation<A, N>) -> Self {
        match operation {
            Operation::Enter { block_number, parent_hash, extrinsic_index } => State {
                block_number,
                parent_hash,
                extrinsic_index,
                ..self
            },
            Operation::Authorize { scope, transactions, bytes, event } => {
                if self.authorize_result() is Ok {
                    self.authorized(scope, transactions, bytes).reported(event)
                } else {
                    self
                }
            },
            Operation::Store { origin, len, content_hash, chunk_root } => self.stored(
                origin,
                len,
                content_hash,
                chunk_root,
            ),
            Operation::Renew { origin, block, index } => self.renewed(origin, block, index),
            Operation::CheckProof { located, chunk, nodes } => self.checked(
                located,
                chunk,
                nodes,
            ).0,
            Operation::Initialize { n } => self.initialized(n),
            Operation::Finalize { n } => self.finalized(n),
        }
    }

    /// After the operations, one after the other.
    pub open spec fn after_all(self, operations: Seq<Operation<A, N>>) -> Self
        decreases operations.len(),
    {
        if operations.len() == 0 {
            self
        } else {
            self.after_all(operations.drop_last()).after(operations.last())
        }
    }

    /// The transactions of every block are well kept, and the number of chunks of a block is
    /// known exactly where its transactions are.
    pub open spec fn consistent(self) -> bool {
        &&& well_kept(self.config, self.block_transactions)
        &&& self.transactions.dom() == self.chunk_count.dom()
        &&& forall|block: N| #[trigger]
            self.transactions.contains_key(block) ==> {
                &&& self.transactions[block].len() > 0
                &&& well_kept(self.config, self.transactions[block])
                &&& self.chunk_count[block] == total_chunks(self.transactions[block])
            }
    }
}

/// The count of chunks before the transaction in this place.
pub open spec fn chunks_before(infos: Seq<TransactionInfo>, i: int) -> u32 {
    if i <= 0 {
        0
    } else {
        infos[i - 1].block_chunks
    }
}

/// There are no more transactions than a block may have, each has a size that can be stored, and
/// each adds its chunks to the count of the transaction before it.
pub open spec fn well_kept<N>(config: Config<N>, infos: Seq<TransactionInfo>) -> bool {
    &&& infos.len() <= config.max_block_transactions
    &&& forall|i: int|
        0 <= i < infos.len() ==> 1 <= (#[trigger] infos[i]).size <= config.max_transaction_size
    &&& forall|i: int|
        0 <= i < infos.len() ==> infos[i].block_chunks == saturating_u32(
            #[trigger] chunks_before(infos, i) + chunks_in(infos[i].size as nat),
        )
}

/// The number of chunks of these transactions together.
pub open spec fn chunks_stored(infos: Seq<TransactionInfo>) -> nat
    decreases infos.len(),
{
    if infos.len() == 0 {
        0
    } else {
        chunks_stored(infos.drop_last()) + chunks_in(infos.last().size as nat)
    }
}

// Consistency.

proof fn lemma_indexed_is_consistent<A, N: Numeral>(
    s: State<A, N>,
    origin: Origin<A>,
    chunk_root: [u8; 32],
    content_hash: [u8; 32],
    size: u32,
    renewal: bool,
)
    requires
        s.consistent(),
        1 <= size <= s.config.max_transaction_size,
    ensures
        s.indexed(origin, chunk_root, content_hash, size, renewal).consistent(),
{
    let infos = s.block_transactions;
    let more = s.extended(chunk_root, content_hash, size).block_transactions;
    if infos.len() < s.config.max_block_transactions {
        assert forall|i: int| 0 <= i < more.len() implies more[i].block_chunks == saturating_u32(
            #[trigger] chunks_before(more, i) + chunks_in(more[i].size as nat),
        ) by {
            assert(chunks_before(more, i) == chunks_before(infos, i));
        }
        assert(well_kept(s.config, more));
    }
}

/// Every operation keeps the state consistent.
pub proof fn consistency_is_kept<A, N: Numeral>(s: State<A, N>, operation: Operation<A, N>)
    requires
        s.consistent(),
    ensures
        s.after(operation).consistent(),
{
    match operation {
        Operation::Store { origin, len, content_hash, chunk_root } => {
            if 0 < len <= s.config.max_transaction_size {
                lemma_indexed_is_consistent(
                    s,
                    origin,
                    chunk_root,
                    content_hash,
                    len as u32,
                    false,
                );
            }
        },
        Operation::Renew { origin, block, index } => {
            if s.lookup(block, index) is Some {
                let info = s.lookup(block, index)->0;
                lemma_indexed_is_consistent(
                    s,
                    origin,
                    info.chunk_root,
                    info.content_hash,
                    info.size,
                    true,
                );
            }
        },
        Operation::Initialize { n } => {
            assert(s.after(operation).transactions.dom() =~= s.after(operation).chunk_count.dom());
        },
        Operation::Finalize { n } => {
            assert(s.after(operation).transactions.dom() =~= s.after(operation).chunk_count.dom());
        },
        _ => {},
    }
}

/// Every state that operations lead to from genesis is consistent: among other things, no block
/// ever has more than `max_block_transactions` transactions.
pub proof fn every_state_is_consistent<A, N: Numeral>(
    config: Config<N>,
    operations: Seq<Operation<A, N>>,
)
    ensures
        State::genesis(config).after_all(operations).consistent(),
    decreases operations.len(),
{
    if operations.len() == 0 {
        let s = State::<A, N>::genesis(config);
        assert(s.transactions.dom() =~= s.chunk_count.dom());
    } else {
        every_state_is_consistent(config, operations.drop_last());
        consistency_is_kept(
            State::genesis(config).after_all(operations.drop_last()),
            operations.last(),
        );
    }
}

// Chunks and proofs.

/// Every byte of the data is in one chunk, in its place; every chunk but the last is full, and the
/// last is not empty.
pub proof fn chunks_make_up_the_data(data: Seq<u8>, i: int, position: int)
    ensures
        0 <= i < chunks_of(data).len() ==> {
            &&& 1 <= chunks_of(data)[i].len() <= chunk_bytes()
            &&& i < chunks_of(data).len() - 1 ==> chunks_of(data)[i].len() == chunk_bytes()
        },
        0 <= position < data.len() ==> {
            let chunk = position / (chunk_bytes() as int);
            let offset = position % (chunk_bytes() as int);
            &&& 0 <= chunk < chunks_of(data).len()
            &&& 0 <= offset < chunks_of(data)[chunk].len()
            &&& chunks_of(data)[chunk][offset] == data[position]
        },
{
}

proof fn lemma_counts_are_in_order<N>(
    config: Config<N>,
    infos: Seq<TransactionInfo>,
    i: int,
    j: int,
)
    requires
        well_kept(config, infos),
        0 <= i <= j < infos.len(),
    ensures
        1 <= infos[i].block_chunks <= infos[j].block_chunks,
    decreases j - i,
{
    assert(chunks_before(infos, j) + chunks_in(infos[j].size as nat) >= chunks_before(infos, j));
    assert(infos[j].size >= 1);
    if i < j {
        lemma_counts_are_in_order(config, infos, i, j - 1);
    }
}

/// The counts of chunks of well kept transactions are in order.
proof fn lemma_well_kept_is_in_order<N>(config: Config<N>, infos: Seq<TransactionInfo>)
    requires
        well_kept(config, infos),
    ensures
        in_order(infos),
        infos.len() > 0 ==> total_chunks(infos) > 0,
{
    assert forall|i: int, j: int| 0 <= i <= j < infos.len() implies infos[i].block_chunks
        <= infos[j].block_chunks by {
        lemma_counts_are_in_order(config, infos, i, j);
    }
    if infos.len() > 0 {
        lemma_counts_are_in_order(config, infos, 0, infos.len() - 1);
    }
}

/// In a consistent state the data that is needed to check a proof is never missing, and there is
/// one answer to which chunk has to be proved.
pub proof fn proofs_can_be_checked<A, N: Numeral>(
    s: State<A, N>,
    origin: Origin<A>,
    located: Result<ChunkLocation, DispatchError>,
    other: Result<ChunkLocation, DispatchError>,
)
    requires
        s.consistent(),
        s.locates(origin, located),
        s.locates(origin, other),
    ensures
        located != Err::<ChunkLocation, _>(DispatchError::Module(Error::MissingStateData)),
        located == other,
{
    if origin is Unsigned && !s.proof_checked && s.proof_due() {
        let block = s.proved_block();
        assert(s.chunk_count.dom().contains(block));
        assert(s.transactions.contains_key(block));
        let infos = s.transactions[block];
        lemma_well_kept_is_in_order(s.config, infos);
        let selected = s.selected_chunk();
        assert(selected < total_chunks(infos));
        let i = choose|i: int| #[trigger]
            found_at(infos, selected, i) && located == if i < infos.len() {
                Ok(location_in(infos[i], selected))
            } else {
                Err(DispatchError::Module(Error::MissingStateData))
            };
        let j = choose|i: int| #[trigger]
            found_at(infos, selected, i) && other == if i < infos.len() {
                Ok(location_in(infos[i], selected))
            } else {
                Err(DispatchError::Module(Error::MissingStateData))
            };
        lemma_found_at_is_unique(infos, selected, i, j);
        assert(infos[infos.len() - 1].block_chunks > selected);
    }
}

/// As long as the chunks can be counted, the count before a transaction is that of the chunks of
/// the transactions before it.
pub proof fn lemma_counts_are_exact<N>(config: Config<N>, infos: Seq<TransactionInfo>, i: int)
    requires
        well_kept(config, infos),
        0 <= i < infos.len(),
        chunks_stored(infos.take(i + 1)) <= u32::MAX,
    ensures
        infos[i].block_chunks == chunks_stored(infos.take(i + 1)),
        chunks_before(infos, i) == chunks_stored(infos.take(i)),
    decreases i,
{
    assert(infos.take(i + 1).drop_last() =~= infos.take(i));
    if i > 0 {
        lemma_counts_are_exact(config, infos, i - 1);
    }
    assert(infos[i].block_chunks == saturating_u32(
        chunks_before(infos, i) + chunks_in(infos[i].size as nat),
    ));
}

/// A chunk that is selected among those of a block is sought in the transaction that holds it, at
/// its distance from the first chunk of that transaction. Stated for transactions whose chunks can
/// be counted.
pub proof fn the_selected_chunk_is_sought_in_its_transaction<N>(
    config: Config<N>,
    infos: Seq<TransactionInfo>,
    selected: u32,
    i: int,
)
    requires
        well_kept(config, infos),
        0 <= i < infos.len(),
        found_at(infos, selected, i),
        chunks_stored(infos.take(i + 1)) <= u32::MAX,
    ensures
        chunks_stored(infos.take(i)) + location_in(infos[i], selected).chunk_index == selected,
        location_in(infos[i], selected).chunk_index < chunks_in(infos[i].size as nat),
{
    lemma_well_kept_is_in_order(config, infos);
    lemma_counts_are_exact(config, infos, i);
    assert(infos.take(i + 1).drop_last() =~= infos.take(i));
}

/// The first of the transactions have no more chunks than all of them.
pub proof fn lemma_chunks_stored_grows(infos: Seq<TransactionInfo>, i: int)
    requires
        0 <= i <= infos.len(),
    ensures
        chunks_stored(infos.take(i)) <= chunks_stored(infos),
    decreases infos.len() - i,
{
    if i < infos.len() {
        assert(infos.take(i + 1).drop_last() =~= infos.take(i));
        lemma_chunks_stored_grows(infos, i + 1);
    } else {
        assert(infos.take(i) =~= infos);
    }
}

/// Where as many of the largest transactions as a block may have would have no more chunks than can
/// be counted, the chunks of every block can be counted.
pub proof fn chunks_can_be_counted<N>(config: Config<N>, infos: Seq<TransactionInfo>)
    requires
        well_kept(config, infos),
        config.max_block_transactions * chunks_in(config.max_transaction_size as nat) <= u32::MAX,
    ensures
        chunks_stored(infos) <= u32::MAX,
        infos.len() > 0 ==> total_chunks(infos) == chunks_stored(infos),
{
    let most = chunks_in(config.max_transaction_size as nat) as int;
    lemma_chunks_stored_is_bounded(config, infos, infos.len() as int);
    assert(infos.take(infos.len() as int) =~= infos);
    assert(infos.len() * most <= config.max_block_transactions * most) by (nonlinear_arith)
        requires
            infos.len() <= config.max_block_transactions,
            0 <= most,
    ;
    if infos.len() > 0 {
        lemma_counts_are_exact(config, infos, infos.len() - 1);
    }
}

proof fn lemma_chunks_stored_is_bounded<N>(config: Config<N>, infos: Seq<TransactionInfo>, i: int)
    requires
        well_kept(config, infos),
        0 <= i <= infos.len(),
    ensures
        chunks_stored(infos.take(i)) <= i * chunks_in(config.max_transaction_size as nat),
    decreases i,
{
    if i > 0 {
        lemma_chunks_stored_is_bounded(config, infos, i - 1);
        assert(infos.take(i).drop_last() =~= infos.take(i - 1));
        let most = chunks_in(config.max_transaction_size as nat) as int;
        assert(infos[i - 1].size <= config.max_transaction_size);
        assert(i * most == (i - 1) * most + most) by (nonlinear_arith);
    }
}

/// A proof is checked against the transaction of the proved block that holds the selected chunk, at
/// the index that the chunk has in that transaction. Stated for blocks whose chunks can be counted.
pub proof fn the_proved_chunk_is_the_selected_one<A, N: Numeral>(
    s: State<A, N>,
    located: Result<ChunkLocation, DispatchError>,
)
    requires
        s.consistent(),
        !s.proof_checked,
        s.proof_due(),
        s.locates(Origin::Unsigned, located),
        chunks_stored(s.transactions[s.proved_block()]) <= u32::MAX,
    ensures
        ({
            let infos = s.transactions[s.proved_block()];
            &&& located matches Ok(location)
            &&& exists|i: int|
                0 <= i < infos.len() && location.chunk_root == (#[trigger] infos[i]).chunk_root
                    && location.chunk_index < chunks_in(infos[i].size as nat) && chunks_stored(
                    infos.take(i),
                ) + location.chunk_index == s.selected_chunk()
        }),
{
    let infos = s.transactions[s.proved_block()];
    let selected = s.selected_chunk();
    proofs_can_be_checked(s, Origin::Unsigned, located, located);
    assert(s.chunk_count.dom().contains(s.proved_block()));
    assert(s.transactions.contains_key(s.proved_block()));
    let i = choose|i: int| #[trigger]
        found_at(infos, selected, i) && located == if i < infos.len() {
            Ok(location_in(infos[i], selected))
        } else {
            Err(DispatchError::Module(Error::MissingStateData))
        };
    lemma_chunks_stored_grows(infos, i + 1);
    the_selected_chunk_is_sought_in_its_transaction(s.config, infos, selected, i);
    assert(location_in(infos[i], selected).chunk_root == infos[i].chunk_root);
}

/// Whoever keeps stored data, whose chunks `store` makes provable, can prove the chunk that is
/// asked for, and the proof is accepted. Stated for transactions whose chunks can be counted.
pub proof fn kept_data_can_be_proved<A, N: Numeral>(
    s: State<A, N>,
    located: Result<ChunkLocation, DispatchError>,
    i: int,
    data: Seq<u8>,
)
    requires
        s.consistent(),
        !s.proof_checked,
        s.proof_due(),
        s.locates(Origin::Unsigned, located),
        ({
            let infos = s.transactions[s.proved_block()];
            &&& 0 <= i < infos.len()
            &&& found_at(infos, s.selected_chunk(), i)
            &&& chunks_stored(infos.take(i + 1)) <= u32::MAX
            &&& infos[i].size == data.len()
            &&& provable(infos[i].chunk_root, chunks_of(data))
        }),
    ensures
        located matches Ok(location) && {
            &&& location.chunk_index < chunks_of(data).len()
            &&& exists|nodes: Seq<Seq<u8>>|
                (#[trigger] s.checked(
                    located,
                    chunks_of(data)[location.chunk_index as int],
                    nodes,
                )).1 is Ok
        },
{
    let infos = s.transactions[s.proved_block()];
    let selected = s.selected_chunk();
    assert(s.chunk_count.dom().contains(s.proved_block()));
    assert(s.transactions.contains_key(s.proved_block()));
    let expected: Result<ChunkLocation, DispatchError> = Ok(location_in(infos[i], selected));
    assert(s.locates(Origin::Unsigned, expected));
    proofs_can_be_checked(s, Origin::Unsigned, located, expected);
    the_selected_chunk_is_sought_in_its_transaction(s.config, infos, selected, i);
    let location = location_in(infos[i], selected);
    let chunk = chunks_of(data)[location.chunk_index as int];
    assert(has_proof(location.chunk_root, location.chunk_index, chunk));
    let nodes = choose|nodes: Seq<Seq<u8>>|
        proof_verifies(
            location.chunk_root,
            nodes,
            compact_encoding(location.chunk_index),
            chunk,
        );
    assert(s.checked(located, chunk, nodes).1 is Ok);
}

/// A proof is unexpected exactly where the block can end without one.
pub proof fn a_proof_is_unexpected_where_none_is_due<A, N: Numeral>(
    s: State<A, N>,
    located: Result<ChunkLocation, DispatchError>,
)
    requires
        !s.proof_checked,
        s.locates(Origin::Unsigned, located),
    ensures
        located == Err::<ChunkLocation, _>(DispatchError::Module(Error::UnexpectedProof))
            <==> s.proof_settled(),
{
}

/// After a proof was accepted the block can end, and no other proof is accepted before it ends.
pub proof fn a_proof_is_accepted_once<A, N: Numeral>(
    s: State<A, N>,
    located: Result<ChunkLocation, DispatchError>,
    chunk: Seq<u8>,
    nodes: Seq<Seq<u8>>,
    operations: Seq<Operation<A, N>>,
    again: Result<ChunkLocation, DispatchError>,
)
    requires
        s.locates(Origin::Unsigned, located),
        s.checked(located, chunk, nodes).1 is Ok,
        forall|i: int| 0 <= i < operations.len() ==> !(#[trigger] operations[i] is Finalize),
        s.checked(located, chunk, nodes).0.after_all(operations).locates(Origin::Unsigned, again),
    ensures
        !s.proof_checked,
        s.proof_due(),
        s.checked(located, chunk, nodes).0.after_all(operations).proof_settled(),
        again == Err::<ChunkLocation, _>(DispatchError::Module(Error::DoubleCheck)),
{
    let checked = s.checked(located, chunk, nodes).0;
    lemma_proof_stays_checked(checked, operations);
}

proof fn lemma_proof_stays_checked<A, N: Numeral>(
    s: State<A, N>,
    operations: Seq<Operation<A, N>>,
)
    requires
        s.proof_checked,
        forall|i: int| 0 <= i < operations.len() ==> !(#[trigger] operations[i] is Finalize),
    ensures
        s.after_all(operations).proof_checked,
    decreases operations.len(),
{
    if operations.len() > 0 {
        let earlier = operations.drop_last();
        assert forall|i: int| 0 <= i < earlier.len() implies !(
        #[trigger] earlier[i] is Finalize) by {
            assert(operations[i] == earlier[i]);
        }
        assert(!(operations[operations.len() - 1] is Finalize));
        lemma_proof_stays_checked(s, earlier);
    }
}

/// The next block needs a proof of its own.
pub proof fn every_block_needs_its_own_proof<A, N: Numeral>(s: State<A, N>, n: N)
    ensures
        !s.finalized(n).proof_checked,
        s.finalized(n).proof_settled() == !s.finalized(n).proof_due(),
{
}

// What was stored.

proof fn lemma_block_grows<A, N: Numeral>(s: State<A, N>, operations: Seq<Operation<A, N>>)
    requires
        forall|i: int| 0 <= i < operations.len() ==> !(#[trigger] operations[i] is Finalize),
    ensures
        s.block_transactions.is_prefix_of(s.after_all(operations).block_transactions),
    decreases operations.len(),
{
    if operations.len() > 0 {
        let earlier = operations.drop_last();
        assert forall|i: int| 0 <= i < earlier.len() implies !(
        #[trigger] earlier[i] is Finalize) by {
            assert(operations[i] == earlier[i]);
        }
        assert(!(operations[operations.len() - 1] is Finalize));
        lemma_block_grows(s, earlier);
        let before = s.after_all(earlier);
        let after = before.after(operations.last());
        assert(before.block_transactions.is_prefix_of(after.block_transactions));
    }
}

proof fn lemma_after_all_is_consistent<A, N: Numeral>(
    s: State<A, N>,
    operations: Seq<Operation<A, N>>,
)
    requires
        s.consistent(),
    ensures
        s.after_all(operations).consistent(),
    decreases operations.len(),
{
    if operations.len() > 0 {
        lemma_after_all_is_consistent(s, operations.drop_last());
        consistency_is_kept(s.after_all(operations.drop_last()), operations.last());
    }
}

/// What is in the block when it ends is found under the block's number and its place in the block.
proof fn lemma_found_after_the_block<A, N: Numeral>(
    s: State<A, N>,
    operations: Seq<Operation<A, N>>,
    n: N,
    index: u32,
)
    requires
        s.consistent(),
        index < s.block_transactions.len(),
        forall|i: int| 0 <= i < operations.len() ==> !(#[trigger] operations[i] is Finalize),
    ensures
        s.after_all(operations).finalized(n).lookup(n, index) == Some(
            s.block_transactions[index as int],
        ),
{
    lemma_block_grows(s, operations);
    lemma_after_all_is_consistent(s, operations);
    let last = s.after_all(operations);
    lemma_well_kept_is_in_order(last.config, last.block_transactions);
    assert(last.block_transactions[index as int] == s.block_transactions[index as int]);
}

/// Data that was stored is found, when the block has ended, under the number of the block and the
/// index that was reported, with its hash, its size and the root of its chunks.
pub proof fn stored_data_is_found_under_its_index<A, N: Numeral>(
    s: State<A, N>,
    origin: Origin<A>,
    len: nat,
    content_hash: [u8; 32],
    chunk_root: [u8; 32],
    operations: Seq<Operation<A, N>>,
    n: N,
)
    requires
        s.consistent(),
        s.store_result(origin, len, content_hash) is Ok,
        forall|i: int| 0 <= i < operations.len() ==> !(#[trigger] operations[i] is Finalize),
    ensures
        ({
            let stored = s.stored(origin, len, content_hash, chunk_root);
            &&& stored.events.len() == s.events.len() + 1
            &&& stored.events.last() matches Event::Stored { index } && {
                &&& stored.after_all(operations).finalized(n).lookup(n, index) matches Some(info)
                &&& info.chunk_root == chunk_root
                &&& info.content_hash == content_hash
                &&& info.size == len
            }
        }),
{
    let stored = s.stored(origin, len, content_hash, chunk_root);
    consistency_is_kept(s, Operation::Store { origin, len, content_hash, chunk_root });
    lemma_found_after_the_block(stored, operations, n, s.block_transactions.len() as u32);
}

/// Data that was renewed is found, when the block has ended, under the number of the block and the
/// index that was reported, as it was stored.
pub proof fn renewed_data_is_found_under_its_index<A, N: Numeral>(
    s: State<A, N>,
    origin: Origin<A>,
    block: N,
    index: u32,
    operations: Seq<Operation<A, N>>,
    n: N,
)
    requires
        s.consistent(),
        s.renew_result(origin, block, index) is Ok,
        forall|i: int| 0 <= i < operations.len() ==> !(#[trigger] operations[i] is Finalize),
    ensures
        ({
            let renewed = s.renewed(origin, block, index);
            &&& renewed.events.len() == s.events.len() + 1
            &&& s.lookup(block, index) matches Some(old_info) && {
                &&& renewed.events.last() matches Event::Renewed { index: new_index } && {
                    &&& renewed.after_all(operations).finalized(n).lookup(
                        n,
                        new_index,
                    ) matches Some(info)
                    &&& info.chunk_root == old_info.chunk_root
                    &&& info.content_hash == old_info.content_hash
                    &&& info.size == old_info.size
                }
            }
        }),
{
    let renewed = s.renewed(origin, block, index);
    consistency_is_kept(s, Operation::Renew { origin, block, index });
    lemma_found_after_the_block(renewed, operations, n, s.block_transactions.len() as u32);
}

/// What was stored in a block stays as it is until the block is dropped, `storage_period` + 1
/// blocks later, unless a block with the same number ends.
pub proof fn stored_data_is_kept<A, N: Numeral>(
    s: State<A, N>,
    operation: Operation<A, N>,
    block: N,
)
    requires
        operation matches Operation::Finalize { n } ==> n != block,
        operation matches Operation::Initialize { n } ==> n.value() != block.value()
            + s.config.storage_period.value() + 1,
    ensures
        s.after(operation).transactions.contains_key(block) == s.transactions.contains_key(block),
        s.transactions.contains_key(block) ==> s.after(operation).transactions[block]
            == s.transactions[block],
        s.after(operation).chunks_at(block) == s.chunks_at(block),
{
    if operation is Initialize {
        let n = operation->Initialize_n;
        lemma_obsolete_block(s, n);
    }
}

proof fn lemma_obsolete_block<A, N: Numeral>(s: State<A, N>, n: N)
    ensures
        s.obsolete_block(n).value() == if n.value() > s.config.storage_period.value() + 1 {
            (n.value() - s.config.storage_period.value() - 1) as nat
        } else {
            0
        },
{
    let period = s.config.storage_period;
    N::of(1).lemma_value_of(1);
    period.lemma_value_of(period.value() + 1);
    period.lemma_value_of(N::max_value());
    n.lemma_value_of(0);
    let total = sum_or_max(period, N::of(1));
    if n.value() >= total.value() {
        n.lemma_value_of((n.value() - total.value()) as nat);
    }
}

/// What was stored in a block, other than the very first, is removed `storage_period` + 1 blocks
/// later.
pub proof fn stored_data_is_removed<A, N: Numeral>(s: State<A, N>, block: N, n: N)
    requires
        block.value() > 0,
        n.value() == block.value() + s.config.storage_period.value() + 1,
    ensures
        !s.initialized(n).transactions.contains_key(block),
        s.initialized(n).chunks_at(block) == 0,
{
    lemma_obsolete_block(s, n);
    block.lemma_value_of(0);
    s.obsolete_block(n).lemma_value_of(0);
    assert(s.obsolete_block(n) == block);
}

/// Data that was stored in a block, other than the very first, has to be proved `storage_period`
/// blocks later: that block does not end without a proof.
pub proof fn stored_data_has_to_be_proved<A, N: Numeral>(s: State<A, N>, block: N)
    requires
        s.consistent(),
        s.transactions.contains_key(block),
        block.value() > 0,
        s.block_number.value() == block.value() + s.config.storage_period.value(),
    ensures
        s.proved_block() == block,
        s.proof_due(),
        s.proof_settled() == s.proof_checked,
{
    block.lemma_value_of(0);
    lemma_well_kept_is_in_order(s.config, s.transactions[block]);
    assert(s.chunk_count.dom().contains(block));
}

/// What has to be proved in a block is still there after the block started.
pub proof fn the_proved_block_is_kept<A, N: Numeral>(s: State<A, N>)
    ensures
        s.initialized(s.block_number).chunks_at(s.proved_block()) == s.chunks_at(s.proved_block()),
        s.transactions.contains_key(s.proved_block()) ==> {
            &&& s.initialized(s.block_number).transactions.contains_key(s.proved_block())
            &&& s.initialized(s.block_number).transactions[s.proved_block()]
                == s.transactions[s.proved_block()]
        },
{
    let n = s.block_number;
    let period = s.config.storage_period;
    lemma_obsolete_block(s, n);
    n.lemma_value_of(0);
    if n.value() >= period.value() {
        n.lemma_value_of((n.value() - period.value()) as nat);
    }
}

impl<A, N: Numeral> State<A, N> {
    /// Nothing is kept of blocks that are more than `storage_period` blocks older than block `n`,
    /// apart from the very first block.
    pub open spec fn keeps_recent_data_only(self, n: N) -> bool {
        forall|block: N| #[trigger]
            self.transactions.contains_key(block) && block.value() > 0 ==> block.value()
                + self.config.storage_period.value() >= n.value()
    }
}

/// Where every block starts and ends in its turn, nothing is kept of blocks that are more than
/// `storage_period` blocks older than the current block, `n`, apart from the very first block.
pub proof fn only_recent_data_is_kept<A, N: Numeral>(
    s: State<A, N>,
    operation: Operation<A, N>,
    n: N,
)
    requires
        s.keeps_recent_data_only(n),
        operation matches Operation::Finalize { n: ended } ==> ended.value() >= n.value(),
    ensures
        s.after(operation).keeps_recent_data_only(n),
        operation matches Operation::Initialize { n: next } ==> (next.value() == n.value() + 1
            ==> s.after(operation).keeps_recent_data_only(next)),
{
    if operation is Initialize {
        let next = operation->Initialize_n;
        if next.value() == n.value() + 1 {
            let after = s.after(operation);
            lemma_obsolete_block(s, next);
            assert forall|block: N| #[trigger]
                after.transactions.contains_key(block) && block.value() > 0 implies block.value()
                + s.config.storage_period.value() >= next.value() by {
                assert(s.transactions.contains_key(block));
                block.lemma_value_of(0);
                s.obsolete_block(next).lemma_value_of(0);
            }
        }
    }
}

// Authorizations.

/// Authorizations are additive: giving two is giving one of their sum.
pub proof fn authorizations_are_additive<A, N: Numeral>(
    s: State<A, N>,
    scope: AuthorizationScope<A>,
    first: AuthorizationExtent,
    second: AuthorizationExtent,
)
    ensures
        s.authorized(scope, first.transactions, first.bytes).authorized(
            scope,
            second.transactions,
            second.bytes,
        ) == s.authorized(
            scope,
            extent_sum(first, second).transactions,
            extent_sum(first, second).bytes,
        ),
{
    if s.expiration_from_now() is Some {
        let both = s.authorized(scope, first.transactions, first.bytes).authorized(
            scope,
            second.transactions,
            second.bytes,
        );
        let at_once = s.authorized(
            scope,
            extent_sum(first, second).transactions,
            extent_sum(first, second).bytes,
        );
        assert(both.authorizations =~= at_once.authorizations);
    }
}

/// An authorization can be used in the block in which it is given and in as many blocks after it
/// as are configured. After that nothing is left of it, and data that needs it is refused.
pub proof fn authorizations_expire<A, N: Numeral>(
    s: State<A, N>,
    scope: AuthorizationScope<A>,
    transactions: u32,
    bytes: u64,
    later: N,
    origin: Origin<A>,
    hash: PreimageHash,
    size: u32,
)
    requires
        s.authorize_result() is Ok,
    ensures
        ({
            let then = State {
                block_number: later,
                ..s.authorized(scope, transactions, bytes)
            };
            if later.value() <= s.block_number.value() + s.config.authorization_period.value() {
                then.unused_extent(scope) == extent_sum(
                    s.authorization(scope).extent,
                    AuthorizationExtent { transactions, bytes },
                )
            } else {
                &&& then.unused_extent(scope) == no_extent()
                &&& scope_used(origin, hash) == Some(scope) ==> then.use_result(origin, hash, size)
                    == refused(Error::NotAuthorized)
            }
        }),
{
    s.block_number.lemma_value_of(
        s.block_number.value() + s.config.authorization_period.value(),
    );
}

/// Data may be stored, and stored data renewed, exactly where the unused extent of the account that
/// signed the call, or of the hash of the data if nobody signed it, covers one transaction of that
/// size. Any other origin is a bad one.
pub proof fn the_unused_extent_is_what_can_be_used<A, N: Numeral>(
    s: State<A, N>,
    origin: Origin<A>,
    hash: PreimageHash,
    size: u32,
)
    ensures
        s.use_result(origin, hash, size) is Ok <==> {
            let left = match origin {
                Origin::Signed(who) => s.unused_extent(AuthorizationScope::Account(who)),
                Origin::Unsigned => s.unused_extent(AuthorizationScope::Preimage(hash)),
                _ => no_extent(),
            };
            left.transactions >= 1 && left.bytes >= size
        },
        s.use_result(origin, hash, size) == Err::<(), _>(DispatchError::BadOrigin)
            <==> !(origin is Signed || origin is Unsigned),
{
}

/// What one scope is given or uses leaves every other scope as it is.
pub proof fn scopes_are_independent<A, N: Numeral>(
    s: State<A, N>,
    scope: AuthorizationScope<A>,
    other: AuthorizationScope<A>,
    transactions: u32,
    bytes: u64,
    size: u32,
)
    requires
        scope != other,
    ensures
        s.authorized(scope, transactions, bytes).authorization(other) == s.authorization(other),
        s.used(scope, size).authorization(other) == s.authorization(other),
{
}

impl<A, N: Numeral> State<A, N> {
    /// All of these sizes, one after the other, are covered by the authorization of a scope.
    pub open spec fn permits_all(self, scope: AuthorizationScope<A>, sizes: Seq<u32>) -> bool
        decreases sizes.len(),
    {
        sizes.len() > 0 ==> {
            &&& self.permits_all(scope, sizes.drop_last())
            &&& self.used_for_all(scope, sizes.drop_last()).permits(scope, sizes.last())
        }
    }

    /// After the authorization of a scope was used for these sizes, one after the other.
    pub open spec fn used_for_all(self, scope: AuthorizationScope<A>, sizes: Seq<u32>) -> Self
        decreases sizes.len(),
    {
        if sizes.len() == 0 {
            self
        } else {
            self.used_for_all(scope, sizes.drop_last()).used(scope, sizes.last())
        }
    }
}

/// The sizes together.
pub open spec fn total_size(sizes: Seq<u32>) -> nat
    decreases sizes.len(),
{
    if sizes.len() == 0 {
        0
    } else {
        total_size(sizes.drop_last()) + sizes.last() as nat
    }
}

/// Every transaction that uses an authorization takes from it one transaction and its size in
/// bytes, so that the transactions together stay within what was unused before them.
pub proof fn usage_stays_within_the_unused_extent<A, N: Numeral>(
    s: State<A, N>,
    scope: AuthorizationScope<A>,
    sizes: Seq<u32>,
)
    requires
        s.permits_all(scope, sizes),
    ensures
        sizes.len() <= s.unused_extent(scope).transactions,
        total_size(sizes) <= s.unused_extent(scope).bytes,
        s.used_for_all(scope, sizes).unused_extent(scope) == (AuthorizationExtent {
            transactions: (s.unused_extent(scope).transactions - sizes.len()) as u32,
            bytes: (s.unused_extent(scope).bytes - total_size(sizes)) as u64,
        }),
        s.used_for_all(scope, sizes).block_number == s.block_number,
    decreases sizes.len(),
{
    if sizes.len() > 0 {
        usage_stays_within_the_unused_extent(s, scope, sizes.drop_last());
    }
}

/// A preimage that had no authorization, and is authorized with a maximum size, can be uploaded by
/// anyone, within the time that is configured, if it is not larger than that; and only once.
pub proof fn an_authorized_preimage_is_uploaded_once<A, N: Numeral>(
    s: State<A, N>,
    hash: PreimageHash,
    max_size: u64,
    later: N,
    size: u32,
    again: u32,
)
    requires
        s.authorize_preimage_result(true, max_size) is Ok,
        !s.authorizations.contains_key(AuthorizationScope::Preimage(hash)),
        later.value() <= s.block_number.value() + s.config.authorization_period.value(),
    ensures
        ({
            let then = State {
                block_number: later,
                ..s.authorized(AuthorizationScope::Preimage(hash), 1, max_size)
            };
            &&& then.use_result(Origin::Unsigned, hash, size) == if size <= max_size {
                Ok(())
            } else {
                refused(Error::NotAuthorized)
            }
            &&& size <= max_size ==> then.used_by(Origin::Unsigned, hash, size).use_result(
                Origin::Unsigned,
                hash,
                again,
            ) == refused(Error::NotAuthorized)
        }),
{
    s.block_number.lemma_value_of(
        s.block_number.value() + s.config.authorization_period.value(),
    );
}

// Refusals.

/// A refused `store` changes nothing, unless it is refused for want of room in the block: then the
/// node has been asked to index the data.
pub proof fn a_refused_store_changes_nothing<A, N: Numeral>(
    s: State<A, N>,
    origin: Origin<A>,
    len: nat,
    content_hash: [u8; 32],
    chunk_root: [u8; 32],
)
    requires
        s.store_result(origin, len, content_hash) is Err,
    ensures
        s.stored(origin, len, content_hash, chunk_root) == if s.store_result(
            origin,
            len,
            content_hash,
        ) == refused(Error::TooManyTransactions) {
            s.requested(content_hash, len as u32, false)
        } else {
            s
        },
{
}

/// A refused `renew` changes nothing, unless it is refused for want of room in the block: then the
/// node has been asked to keep the data.
pub proof fn a_refused_renew_changes_nothing<A, N: Numeral>(
    s: State<A, N>,
    origin: Origin<A>,
    block: N,
    index: u32,
)
    requires
        s.renew_result(origin, block, index) is Err,
    ensures
        if s.renew_result(origin, block, index) == refused(Error::TooManyTransactions) {
            &&& s.lookup(block, index) matches Some(info)
            &&& s.renewed(origin, block, index) == s.requested(info.content_hash, info.size, true)
        } else {
            s.renewed(origin, block, index) == s
        },
{
}

/// A refused proof changes nothing.
pub proof fn a_refused_proof_changes_nothing<A, N: Numeral>(
    s: State<A, N>,
    located: Result<ChunkLocation, DispatchError>,
    chunk: Seq<u8>,
    nodes: Seq<Seq<u8>>,
)
    requires
        s.checked(located, chunk, nodes).1 is Err,
    ensures
        s.checked(located, chunk, nodes).0 == s,
{
}

/// Renewing stored data requires the same authorization as storing it.
pub proof fn renewing_requires_what_storing_requires<A, N: Numeral>(
    s: State<A, N>,
    origin: Origin<A>,
    block: N,
    index: u32,
)
    requires
        s.consistent(),
        s.lookup(block, index) is Some,
    ensures
        ({
            let info = s.lookup(block, index)->0;
            s.renew_result(origin, block, index) == s.store_result(
                origin,
                info.size as nat,
                info.content_hash,
            )
        }),
{
    assert(s.transactions.contains_key(block));
}

} // verus!
