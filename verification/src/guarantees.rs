//! What each operation does to each part of the state, and when it is refused, said of the parts
//! themselves.

use crate::chunks::{chunks_in, chunks_of, found_at, saturating_u32, total_chunks};
use crate::laws::{
    chunks_before, chunks_stored, lemma_chunks_stored_grows, lemma_counts_are_exact, well_kept,
};
use crate::number::{Numeral, difference_or_zero, sum_if_fits, sum_or_max};
use crate::pallet::Pallet;
use crate::primitives::{
    big_endian, compact_encoding, decoded_proof, inherent_entries, proof_verifies, provides,
};
use crate::state::{
    ChunkLocation, State, extent_sum, initialization_weight, location_in, refused, scope_used,
};
use crate::types::{
    ArithmeticError, Authorization, AuthorizationExtent, AuthorizationScope, Config, DispatchError,
    Error, Event, IndexOperation, IntegrityError, Origin, PreimageHash, TransactionInfo,
};
use frame_support::inherent::InherentData;
use vstd::prelude::*;

verus! {

// Numbers.

/// Saturating and checked arithmetic on block numbers is that on the numbers they stand for.
pub proof fn arithmetic_is_on_the_numbers<N: Numeral>(a: N, b: N)
    ensures
        a.value() + b.value() <= N::max_value() ==> {
            &&& sum_or_max(a, b).value() == a.value() + b.value()
            &&& sum_if_fits(a, b) matches Some(sum) && sum.value() == a.value() + b.value()
        },
        a.value() + b.value() > N::max_value() ==> {
            &&& sum_or_max(a, b).value() == N::max_value()
            &&& sum_if_fits(a, b) is None
        },
        a.value() >= b.value() ==> difference_or_zero(a, b).value() == a.value() - b.value(),
        a.value() < b.value() ==> difference_or_zero(a, b).value() == 0,
{
    a.lemma_value_of(a.value() + b.value());
    a.lemma_value_of(N::max_value());
    a.lemma_value_of(0);
    if a.value() >= b.value() {
        a.lemma_value_of((a.value() - b.value()) as nat);
    }
}

/// Machine integers stand for themselves.
pub proof fn machine_integers_stand_for_themselves(a: u32, b: u64)
    ensures
        a.value() == a,
        b.value() == b,
        <u32 as Numeral>::max_value() == 0xffff_ffff,
        <u64 as Numeral>::max_value() == 0xffff_ffff_ffff_ffff,
        <u32 as Numeral>::of(a as nat) == a,
        <u64 as Numeral>::of(b as nat) == b,
{
}

/// Two numerals that stand for the same number are equal.
proof fn lemma_same_value<N: Numeral>(a: N, b: N)
    requires
        a.value() == b.value(),
    ensures
        a == b,
{
    a.lemma_value_of(0);
    b.lemma_value_of(0);
}

/// The nearest `u32` is the number itself where it fits, and a bound of the type elsewhere.
pub proof fn the_nearest_number(a: int)
    ensures
        0 <= a <= 0xffff_ffff ==> saturating_u32(a) == a,
        a > 0xffff_ffff ==> saturating_u32(a) == 0xffff_ffff,
        a < 0 ==> saturating_u32(a) == 0,
{
}

/// A big endian number is the sum of its bytes, each eight bits above the one after it.
pub proof fn eight_bytes_make_a_number(bytes: Seq<u8>)
    requires
        bytes.len() == 8,
    ensures
        big_endian(bytes) == 0x100_0000_0000_0000 * bytes[0] + 0x1_0000_0000_0000 * bytes[1]
            + 0x100_0000_0000 * bytes[2] + 0x1_0000_0000 * bytes[3] + 0x100_0000 * bytes[4]
            + 0x1_0000 * bytes[5] + 0x100 * bytes[6] + bytes[7],
{
    reveal_with_fuel(big_endian, 9);
}

// Chunks.

/// Data of any size has the least number of chunks of 256 bytes that hold it.
pub proof fn chunks_are_as_few_as_hold_the_bytes(bytes: nat)
    ensures
        bytes <= 256 * chunks_in(bytes) < bytes + 256,
        chunks_in(bytes) == (bytes + 255) / 256,
{
}

/// Data is cut every 256 bytes: the byte in place `256 * i + k` is byte `k` of chunk `i`, and no
/// chunk holds anything else.
pub proof fn data_is_cut_every_256_bytes(data: Seq<u8>, i: int, k: int)
    ensures
        data.len() <= 256 * chunks_of(data).len() < data.len() + 256,
        0 <= i < chunks_of(data).len() ==> {
            &&& 256 * (i + 1) <= data.len() ==> chunks_of(data)[i].len() == 256
            &&& 256 * (i + 1) > data.len() ==> chunks_of(data)[i].len() == data.len() - 256 * i
            &&& 0 <= k < chunks_of(data)[i].len() ==> chunks_of(data)[i][k] == data[256 * i + k]
        },
{
}

/// The chunks of a block are as many as its last transaction counts.
pub proof fn the_last_transaction_counts_the_chunks(infos: Seq<TransactionInfo>)
    ensures
        infos.len() == 0 ==> total_chunks(infos) == 0,
        infos.len() > 0 ==> total_chunks(infos) == infos[infos.len() - 1].block_chunks,
{
}

/// Of the transactions, the one in place `i`, if there is one, counts past `chunk`, and the one
/// before it, if there is one, does not.
pub open spec fn passes_at(infos: Seq<TransactionInfo>, chunk: nat, i: int) -> bool {
    &&& 0 <= i <= infos.len()
    &&& i > 0 ==> infos[i - 1].block_chunks <= chunk
    &&& i < infos.len() ==> infos[i].block_chunks > chunk
}

/// A chunk is found in a transaction that counts past it and follows one that does not; and past
/// the last one only if that does not. Where the counts never go down, there is one such place
/// only, and the chunk is found there.
pub proof fn a_chunk_is_found_where_the_count_passes_it(
    infos: Seq<TransactionInfo>,
    chunk: u32,
    i: int,
    j: int,
)
    ensures
        found_at(infos, chunk, i) ==> passes_at(infos, chunk as nat, i),
        (forall|a: int, b: int|
            0 <= a <= b < infos.len() ==> infos[a].block_chunks <= infos[b].block_chunks) ==> {
            &&& passes_at(infos, chunk as nat, i) ==> found_at(infos, chunk, i)
            &&& passes_at(infos, chunk as nat, i) && passes_at(infos, chunk as nat, j) ==> i == j
        },
{
    if passes_at(infos, chunk as nat, i) && (forall|a: int, b: int|
        0 <= a <= b < infos.len() ==> infos[a].block_chunks <= infos[b].block_chunks) {
        assert forall|k: int| 0 <= k < i implies infos[k].block_chunks <= chunk by {
            assert(infos[k].block_chunks <= infos[i - 1].block_chunks);
        }
        assert forall|k: int| i <= k < infos.len() implies infos[k].block_chunks > chunk by {
            assert(infos[i].block_chunks <= infos[k].block_chunks);
        }
        if passes_at(infos, chunk as nat, j) {
            if i < j {
                assert(infos[i].block_chunks <= infos[j - 1].block_chunks);
            } else if j < i {
                assert(infos[j].block_chunks <= infos[i - 1].block_chunks);
            }
        }
    }
}

/// A chunk is sought in the trie of its transaction, at its distance from the transaction's first
/// chunk.
pub proof fn a_chunk_is_sought_at_its_distance(info: TransactionInfo, selected: u32)
    ensures
        ({
            let own = (info.size + 255) / 256;
            let first = info.block_chunks - own;
            let location = location_in(info, selected);
            &&& location.chunk_root == info.chunk_root
            &&& 0 <= first <= selected ==> first + location.chunk_index == selected
            &&& first < 0 ==> location.chunk_index == selected
            &&& selected < first ==> location.chunk_index == 0
        }),
{
}

// Proofs.

/// The counts of chunks add up: each transaction counts its own chunks, which are at least one, on
/// top of those of the transactions before it.
pub open spec fn counts_add_up(infos: Seq<TransactionInfo>) -> bool {
    forall|i: int|
        0 <= i < infos.len() ==> {
            let own = infos[i].block_chunks - #[trigger] chunks_before(infos, i);
            infos[i].size >= 1 && infos[i].size <= 256 * own < infos[i].size + 256
        }
}

/// The counts that the operations keep add up, as far as the chunks can be counted.
pub proof fn kept_counts_add_up<N>(config: Config<N>, infos: Seq<TransactionInfo>)
    requires
        well_kept(config, infos),
        chunks_stored(infos) <= u32::MAX,
    ensures
        counts_add_up(infos),
{
    assert forall|i: int| 0 <= i < infos.len() implies {
        let own = infos[i].block_chunks - #[trigger] chunks_before(infos, i);
        infos[i].size >= 1 && infos[i].size <= 256 * own < infos[i].size + 256
    } by {
        lemma_chunks_stored_grows(infos, i + 1);
        lemma_counts_are_exact(config, infos, i);
        assert(infos.take(i + 1).drop_last() =~= infos.take(i));
    }
}

/// `block` is the one whose data has to be proved, it is not the very first, and data was stored in
/// it.
pub open spec fn has_to_prove<A, N: Numeral>(s: State<A, N>, block: N) -> bool {
    &&& s.block_number.value() == block.value() + s.config.storage_period.value()
    &&& block.value() > 0
    &&& s.chunk_count.contains_key(block)
    &&& s.chunk_count[block] > 0
}

proof fn lemma_has_to_prove<A, N: Numeral>(s: State<A, N>, block: N)
    requires
        has_to_prove(s, block),
    ensures
        s.proved_block() == block,
        s.proof_due(),
        s.chunks_at(block) == s.chunk_count[block],
{
    block.lemma_value_of(0);
}

/// A proof is due exactly where data was stored in the block that is `storage_period` blocks older,
/// if there is one after the very first.
pub proof fn a_proof_is_due_for_stored_data<A, N: Numeral>(s: State<A, N>)
    ensures
        s.proof_due() <==> exists|block: N| has_to_prove(s, block),
        s.proof_settled() <==> s.proof_checked || forall|block: N| !has_to_prove(s, block),
{
    let block = s.proved_block();
    arithmetic_is_on_the_numbers(s.block_number, s.config.storage_period);
    if s.proof_due() {
        assert(has_to_prove(s, block));
    }
    if exists|b: N| has_to_prove(s, b) {
        let b = choose|b: N| has_to_prove(s, b);
        lemma_has_to_prove(s, b);
    }
}

/// The block that is to be proved is `storage_period` blocks older.
pub proof fn the_proved_block_is_a_period_older<A, N: Numeral>(s: State<A, N>)
    ensures
        s.block_number.value() >= s.config.storage_period.value() ==> s.proved_block().value()
            + s.config.storage_period.value() == s.block_number.value(),
        s.block_number.value() < s.config.storage_period.value() ==> s.proved_block().value() == 0,
{
    arithmetic_is_on_the_numbers(s.block_number, s.config.storage_period);
}

/// The number of chunks of a block is what is kept of it, and zero where nothing is.
pub proof fn chunks_of_a_block<A, N: Numeral>(s: State<A, N>, block: N)
    ensures
        s.chunk_count.contains_key(block) ==> s.chunks_at(block) == s.chunk_count[block],
        !s.chunk_count.contains_key(block) ==> s.chunks_at(block) == 0,
{
}

/// The place that `location` names is that of `chunk`, an index among the chunks of a block with
/// these transactions: it is in the trie of a transaction that counts past the chunk, and its index
/// there is what is left of `chunk` when the chunks of the transactions before it are taken off.
pub open spec fn answers_for(
    infos: Seq<TransactionInfo>,
    location: ChunkLocation,
    chunk: nat,
) -> bool {
    exists|i: int|
        {
            &&& 0 <= i < infos.len()
            &&& location.chunk_root == (#[trigger] infos[i]).chunk_root
            &&& chunks_before(infos, i) + location.chunk_index == chunk
            &&& chunk < infos[i].block_chunks
        }
}

/// Where the counts of chunks of the proved block add up, the chunk that has to be proved, counted
/// among all chunks of the block, is the number that the first eight bytes of the parent hash make
/// up, modulo the number of chunks.
pub proof fn the_parent_hash_picks_the_chunk<A, N: Numeral>(
    s: State<A, N>,
    block: N,
    located: Result<ChunkLocation, DispatchError>,
)
    requires
        !s.proof_checked,
        has_to_prove(s, block),
        s.transactions.contains_key(block),
        s.transactions[block].len() > 0,
        counts_add_up(s.transactions[block]),
        s.transactions[block].last().block_chunks == s.chunk_count[block],
        s.locates(Origin::Unsigned, located),
    ensures
        located matches Ok(location) && answers_for(
            s.transactions[block],
            location,
            big_endian(s.parent_hash.subrange(0, 8)) % (s.chunk_count[block] as nat),
        ),
{
    let infos = s.transactions[block];
    let picked = big_endian(s.parent_hash.subrange(0, 8)) % (s.chunk_count[block] as nat);
    the_picked_chunk_is_in_a_transaction_that_counts_past_it(s, block, located);
    let i = choose|i: int| #[trigger]
        passes_at(infos, picked, i) && picks(infos, picked, i, located);
    assert(i < infos.len());
    let own = infos[i].block_chunks - chunks_before(infos, i);
    assert(own == (infos[i].size + 255) / 256);
    assert(located->Ok_0.chunk_root == infos[i].chunk_root);
}

/// In a consistent state, as every state is, whose chunks can be counted, the chunk that has to be
/// proved, counted among all chunks of the proved block, is the number that the first eight bytes
/// of the parent hash make up, modulo the number of chunks.
pub proof fn the_parent_hash_picks_the_chunk_in_every_state<A, N: Numeral>(
    s: State<A, N>,
    block: N,
    located: Result<ChunkLocation, DispatchError>,
)
    requires
        s.consistent(),
        !s.proof_checked,
        has_to_prove(s, block),
        chunks_stored(s.transactions[block]) <= u32::MAX,
        s.locates(Origin::Unsigned, located),
    ensures
        located matches Ok(location) && answers_for(
            s.transactions[block],
            location,
            big_endian(s.parent_hash.subrange(0, 8)) % (s.chunk_count[block] as nat),
        ),
{
    assert(s.chunk_count.dom().contains(block));
    assert(s.transactions.contains_key(block));
    kept_counts_add_up(s.config, s.transactions[block]);
    the_parent_hash_picks_the_chunk(s, block, located);
}

/// `located` names `chunk` in the transaction in place `i`, by its distance from the first chunk of
/// the transaction, or says that there is no such transaction.
pub open spec fn picks(
    infos: Seq<TransactionInfo>,
    chunk: nat,
    i: int,
    located: Result<ChunkLocation, DispatchError>,
) -> bool {
    if i == infos.len() {
        located == Err::<ChunkLocation, _>(DispatchError::Module(Error::MissingStateData))
    } else {
        let first = infos[i].block_chunks - (infos[i].size + 255) / 256;
        &&& located matches Ok(location)
        &&& location.chunk_root == infos[i].chunk_root
        &&& 0 <= first <= chunk ==> first + location.chunk_index == chunk
        &&& first < 0 ==> location.chunk_index == chunk
        &&& chunk < first ==> location.chunk_index == 0
    }
}

/// Whatever the counts of chunks of the proved block are, a proof has to be about the chunk that
/// the parent hash picks, in a transaction that counts past it and follows none that does.
pub proof fn the_picked_chunk_is_in_a_transaction_that_counts_past_it<A, N: Numeral>(
    s: State<A, N>,
    block: N,
    located: Result<ChunkLocation, DispatchError>,
)
    requires
        !s.proof_checked,
        has_to_prove(s, block),
        s.transactions.contains_key(block),
        s.locates(Origin::Unsigned, located),
    ensures
        ({
            let infos = s.transactions[block];
            let picked = big_endian(s.parent_hash.subrange(0, 8)) % (s.chunk_count[block] as nat);
            exists|i: int| #[trigger]
                passes_at(infos, picked, i) && picks(infos, picked, i, located)
        }),
{
    lemma_has_to_prove(s, block);
    let infos = s.transactions[block];
    let picked = big_endian(s.parent_hash.subrange(0, 8)) % (s.chunk_count[block] as nat);
    let selected = s.selected_chunk();
    assert(selected == picked);
    let i = choose|i: int| #[trigger]
        found_at(infos, selected, i) && located == if i < infos.len() {
            Ok(location_in(infos[i], selected))
        } else {
            Err(DispatchError::Module(Error::MissingStateData))
        };
    assert(passes_at(infos, picked, i));
    if i < infos.len() {
        a_chunk_is_sought_at_its_distance(infos[i], selected);
    }
}

/// A proof is looked at only if nobody signed it, none was accepted in the block, one is due, and
/// the transactions of the proved block are there; in this order.
pub proof fn proofs_are_turned_away_in_order<A, N: Numeral>(
    s: State<A, N>,
    origin: Origin<A>,
    located: Result<ChunkLocation, DispatchError>,
)
    requires
        s.locates(origin, located),
    ensures
        !(origin is Unsigned) <==> located == Err::<ChunkLocation, _>(DispatchError::BadOrigin),
        origin is Unsigned && s.proof_checked <==> located == Err::<ChunkLocation, _>(
            DispatchError::Module(Error::DoubleCheck),
        ),
        origin is Unsigned && !s.proof_checked && (forall|block: N| !has_to_prove(s, block))
            <==> located == Err::<ChunkLocation, _>(DispatchError::Module(Error::UnexpectedProof)),
        forall|block: N| #[trigger]
            has_to_prove(s, block) && origin is Unsigned && !s.proof_checked
                && !s.transactions.contains_key(block) ==> located == Err::<ChunkLocation, _>(
                DispatchError::Module(Error::MissingStateData),
            ),
        located matches Err(error) ==> error == DispatchError::BadOrigin || error
            == DispatchError::Module(Error::DoubleCheck) || error == DispatchError::Module(
            Error::UnexpectedProof,
        ) || error == DispatchError::Module(Error::MissingStateData),
{
    a_proof_is_due_for_stored_data(s);
    assert forall|block: N| #[trigger]
        has_to_prove(s, block) && origin is Unsigned && !s.proof_checked
            && !s.transactions.contains_key(block) implies located == Err::<ChunkLocation, _>(
        DispatchError::Module(Error::MissingStateData),
    ) by {
        lemma_has_to_prove(s, block);
    }
    if s.proof_due() && s.transactions.contains_key(s.proved_block()) && origin is Unsigned
        && !s.proof_checked {
        let infos = s.transactions[s.proved_block()];
        let i = choose|i: int| #[trigger]
            found_at(infos, s.selected_chunk(), i) && located == if i < infos.len() {
                Ok(location_in(infos[i], s.selected_chunk()))
            } else {
                Err(DispatchError::Module(Error::MissingStateData))
            };
        assert(located is Ok || located == Err::<ChunkLocation, _>(
            DispatchError::Module(Error::MissingStateData),
        ));
    }
}

/// A proof is accepted exactly if it shows the chunk at its place in its trie. This is noted and
/// reported, and nothing else changes. Any other proof is refused, and changes nothing.
pub proof fn a_proof_is_accepted_if_it_verifies<A, N: Numeral>(
    s: State<A, N>,
    located: Result<ChunkLocation, DispatchError>,
    chunk: Seq<u8>,
    nodes: Seq<Seq<u8>>,
)
    ensures
        ({
            let (after, answer) = s.checked(located, chunk, nodes);
            &&& located matches Err(error) ==> answer == Err::<(), _>(error) && after == s
            &&& located matches Ok(location) ==> {
                let shown = proof_verifies(
                    location.chunk_root,
                    nodes,
                    compact_encoding(location.chunk_index),
                    chunk,
                );
                &&& shown ==> answer == Ok::<(), DispatchError>(())
                &&& !shown ==> answer == Err::<(), _>(DispatchError::Module(Error::InvalidProof))
            }
            &&& answer is Err ==> after == s
            &&& answer is Ok ==> {
                &&& after.proof_checked
                &&& after.events == s.events.push(Event::ProofChecked)
                &&& after == State { proof_checked: true, events: after.events, ..s }
            }
        }),
{
}

/// What is noted of a proof is whether it verified.
pub proof fn a_verified_proof_is_noted<A, N: Numeral>(s: State<A, N>, verified: bool)
    ensures
        ({
            let (after, answer) = s.concluded(verified);
            &&& verified ==> answer == Ok::<(), DispatchError>(()) && after == State {
                proof_checked: true,
                events: s.events.push(Event::ProofChecked),
                ..s
            }
            &&& !verified ==> answer == Err::<(), _>(DispatchError::Module(Error::InvalidProof))
                && after == s
        }),
{
}

// Authorizations.

/// What can still be used is the whole extent of an authorization up to the block in which it
/// expires, and nothing after that or without an authorization.
pub proof fn what_can_still_be_used<A, N: Numeral>(s: State<A, N>, scope: AuthorizationScope<A>)
    ensures
        s.authorizations.contains_key(scope) && s.block_number.value()
            <= s.authorizations[scope].expiration.value() ==> s.unused_extent(scope)
            == s.authorizations[scope].extent,
        !s.authorizations.contains_key(scope) || s.block_number.value()
            > s.authorizations[scope].expiration.value() ==> s.unused_extent(scope).transactions
            == 0 && s.unused_extent(scope).bytes == 0,
{
}

/// Two extents together are the sum of their transactions and the sum of their bytes, or the most
/// that can be counted.
pub proof fn extents_are_added_up(a: AuthorizationExtent, b: AuthorizationExtent)
    ensures
        a.transactions + b.transactions <= 0xffff_ffff ==> extent_sum(a, b).transactions
            == a.transactions + b.transactions,
        a.transactions + b.transactions > 0xffff_ffff ==> extent_sum(a, b).transactions
            == 0xffff_ffff,
        a.bytes + b.bytes <= 0xffff_ffff_ffff_ffff ==> extent_sum(a, b).bytes == a.bytes + b.bytes,
        a.bytes + b.bytes > 0xffff_ffff_ffff_ffff ==> extent_sum(a, b).bytes
            == 0xffff_ffff_ffff_ffff,
{
}

/// An authorization is given exactly if the block in which it expires can be numbered.
pub proof fn an_authorization_needs_an_expiration<A, N: Numeral>(s: State<A, N>)
    ensures
        s.block_number.value() + s.config.authorization_period.value() <= N::max_value()
            ==> s.authorize_result() == Ok::<(), DispatchError>(()),
        s.block_number.value() + s.config.authorization_period.value() > N::max_value()
            ==> s.authorize_result() == Err::<(), _>(
            DispatchError::Arithmetic(ArithmeticError::Overflow),
        ),
{
}

/// Giving an authorization adds the transactions and the bytes that are given to those that the
/// scope has, expired or not, as far as they can be counted, and lets all of it expire
/// `authorization_period` blocks from now. No other scope and no other part of the state changes.
pub proof fn what_is_given_is_added<A, N: Numeral>(
    s: State<A, N>,
    scope: AuthorizationScope<A>,
    transactions: u32,
    bytes: u64,
)
    ensures
        ({
            let after = s.authorized(scope, transactions, bytes);
            let had_transactions: int = if s.authorizations.contains_key(scope) {
                s.authorizations[scope].extent.transactions as int
            } else {
                0
            };
            let had_bytes: int = if s.authorizations.contains_key(scope) {
                s.authorizations[scope].extent.bytes as int
            } else {
                0
            };
            let has = after.authorizations[scope];
            if s.block_number.value() + s.config.authorization_period.value() <= N::max_value() {
                &&& after.authorizations.contains_key(scope)
                &&& had_transactions + transactions <= 0xffff_ffff ==> has.extent.transactions
                    == had_transactions + transactions
                &&& had_transactions + transactions > 0xffff_ffff ==> has.extent.transactions
                    == 0xffff_ffff
                &&& had_bytes + bytes <= 0xffff_ffff_ffff_ffff ==> has.extent.bytes == had_bytes
                    + bytes
                &&& had_bytes + bytes > 0xffff_ffff_ffff_ffff ==> has.extent.bytes
                    == 0xffff_ffff_ffff_ffff
                &&& has.expiration.value() == s.block_number.value()
                    + s.config.authorization_period.value()
                &&& after.authorizations.remove(scope) == s.authorizations.remove(scope)
                &&& after == State { authorizations: after.authorizations, ..s }
            } else {
                after == s
            }
        }),
{
    let after = s.authorized(scope, transactions, bytes);
    arithmetic_is_on_the_numbers(s.block_number, s.config.authorization_period);
    assert(after.authorizations.remove(scope) =~= s.authorizations.remove(scope));
}

/// Only what the authorizer accepts is authorized; a preimage only if its maximum size fits in one
/// transaction; and both only if the block in which the authorization expires can be numbered.
pub proof fn who_and_what_is_authorized<A, N: Numeral>(
    s: State<A, N>,
    accepted: bool,
    max_size: u64,
)
    ensures
        ({
            let numbered = s.block_number.value() + s.config.authorization_period.value()
                <= N::max_value();
            let account = s.authorize_account_result(accepted);
            let preimage = s.authorize_preimage_result(accepted, max_size);
            let fits = max_size <= s.config.max_transaction_size;
            &&& !accepted ==> account == Err::<(), _>(DispatchError::BadOrigin) && preimage
                == Err::<(), _>(DispatchError::BadOrigin)
            &&& accepted && numbered ==> account == Ok::<(), DispatchError>(())
            &&& accepted && !numbered ==> account == Err::<(), _>(
                DispatchError::Arithmetic(ArithmeticError::Overflow),
            )
            &&& accepted && !fits ==> preimage == Err::<(), _>(
                DispatchError::Module(Error::Impossible),
            )
            &&& accepted && fits && numbered ==> preimage == Ok::<(), DispatchError>(())
            &&& accepted && fits && !numbered ==> preimage == Err::<(), _>(
                DispatchError::Arithmetic(ArithmeticError::Overflow),
            )
        }),
{
}

/// A report adds one event, and changes nothing else.
pub proof fn a_report_adds_one_event<A, N: Numeral>(s: State<A, N>, event: Event<A>)
    ensures
        s.reported(event).events == s.events.push(event),
        s.reported(event) == (State { events: s.reported(event).events, ..s }),
{
}

/// A call from `origin` that stores data with this hash draws on the authorization of `scope`: that
/// of the account that signed it, or that of the hash if nobody did.
pub open spec fn draws_on<A>(
    origin: Origin<A>,
    hash: PreimageHash,
    scope: AuthorizationScope<A>,
) -> bool {
    match scope {
        AuthorizationScope::Account(who) => origin == Origin::Signed(who),
        AuthorizationScope::Preimage(authorized) => origin is Unsigned && authorized == hash,
    }
}

/// The scope has an authorization that has not expired, with a transaction left and at least so
/// many bytes.
pub open spec fn covered<A, N: Numeral>(
    s: State<A, N>,
    scope: AuthorizationScope<A>,
    size: int,
) -> bool {
    &&& s.authorizations.contains_key(scope)
    &&& s.block_number.value() <= s.authorizations[scope].expiration.value()
    &&& s.authorizations[scope].extent.transactions >= 1
    &&& s.authorizations[scope].extent.bytes >= size
}

/// Exactly one transaction and so many bytes are taken from the scope, whose expiration stays; no
/// other scope changes.
pub open spec fn taken<A, N: Numeral>(
    before: Map<AuthorizationScope<A>, Authorization<N>>,
    after: Map<AuthorizationScope<A>, Authorization<N>>,
    scope: AuthorizationScope<A>,
    size: int,
) -> bool {
    &&& after.contains_key(scope)
    &&& after[scope].extent.transactions + 1 == before[scope].extent.transactions
    &&& after[scope].extent.bytes + size == before[scope].extent.bytes
    &&& after[scope].expiration == before[scope].expiration
    &&& after.remove(scope) == before.remove(scope)
}

/// Which scope a call draws on is decided by its origin and, if nobody signed it, by the hash.
pub proof fn what_a_call_draws_on<A>(
    origin: Origin<A>,
    hash: PreimageHash,
    scope: AuthorizationScope<A>,
)
    ensures
        scope_used(origin, hash) == Some(scope) <==> draws_on(origin, hash, scope),
        scope_used(origin, hash) is None <==> !(origin is Signed) && !(origin is Unsigned),
{
}

/// An authorization is used exactly if it covers the call, and then exactly what the call needs is
/// taken from it. Otherwise nothing changes.
pub proof fn what_is_used_is_taken<A, N: Numeral>(
    s: State<A, N>,
    origin: Origin<A>,
    hash: PreimageHash,
    size: u32,
    scope: AuthorizationScope<A>,
)
    ensures
        ({
            let answer = s.use_result(origin, hash, size);
            let after = s.used_by(origin, hash, size);
            &&& !(origin is Signed) && !(origin is Unsigned) ==> answer == Err::<(), _>(
                DispatchError::BadOrigin,
            )
            &&& draws_on(origin, hash, scope) ==> {
                &&& covered(s, scope, size as int) ==> answer == Ok::<(), DispatchError>(())
                    && taken(s.authorizations, after.authorizations, scope, size as int)
                &&& !covered(s, scope, size as int) ==> answer == Err::<(), _>(
                    DispatchError::Module(Error::NotAuthorized),
                )
            }
            &&& answer is Err ==> after == s
            &&& after == State { authorizations: after.authorizations, ..s }
        }),
{
    let after = s.used_by(origin, hash, size);
    assert(after.authorizations.remove(scope) =~= s.authorizations.remove(scope)
        || !draws_on(origin, hash, scope));
}

// Transactions.

/// From `before` to `after` one transaction was indexed: it is the last of the block, with its
/// chunks counted on top of those before it as far as they can be counted; the node was asked for
/// it; it was reported with its place in the block; what it needs was taken from the scope; and
/// nothing else changed.
pub open spec fn one_more_transaction<A, N: Numeral>(
    before: State<A, N>,
    after: State<A, N>,
    scope: AuthorizationScope<A>,
    chunk_root: [u8; 32],
    content_hash: [u8; 32],
    size: int,
    renewal: bool,
) -> bool {
    let place = before.block_transactions.len();
    let info = after.block_transactions[place as int];
    let counted: int = if place == 0 {
        0
    } else {
        before.block_transactions[place - 1].block_chunks as int
    };
    let count = counted + (size + 255) / 256;
    &&& after.block_transactions == before.block_transactions.push(info)
    &&& info.chunk_root == chunk_root
    &&& info.content_hash == content_hash
    &&& info.size == size
    &&& count <= 0xffff_ffff ==> info.block_chunks == count
    &&& count > 0xffff_ffff ==> info.block_chunks == 0xffff_ffff
    &&& asked_for(before, after, content_hash, size, renewal)
    &&& after.events.len() == before.events.len() + 1
    &&& after.events.drop_last() == before.events
    &&& renewal ==> (after.events.last() matches Event::Renewed { index } && index == place)
    &&& !renewal ==> (after.events.last() matches Event::Stored { index } && index == place)
    &&& taken(before.authorizations, after.authorizations, scope, size)
    &&& after == State {
        block_transactions: after.block_transactions,
        index_operations: after.index_operations,
        events: after.events,
        authorizations: after.authorizations,
        ..before
    }
}

/// From `before` to `after` the node was asked once: to index data of this size under its hash on
/// behalf of the current extrinsic, or to keep it.
pub open spec fn asked_for<A, N: Numeral>(
    before: State<A, N>,
    after: State<A, N>,
    content_hash: [u8; 32],
    asked_size: int,
    renewal: bool,
) -> bool {
    &&& before.extrinsic_index is Some
    &&& after.index_operations.len() == before.index_operations.len() + 1
    &&& after.index_operations.drop_last() == before.index_operations
    &&& renewal ==> (after.index_operations.last() matches IndexOperation::Renew { extrinsic, hash }
        && Some(extrinsic) == before.extrinsic_index && hash == content_hash)
    &&& !renewal ==> (after.index_operations.last() matches IndexOperation::Insert {
        extrinsic,
        size,
        hash,
    } && Some(extrinsic) == before.extrinsic_index && hash == content_hash && size == asked_size)
}

/// A transaction is indexed exactly if its authorization covers it, it is in an extrinsic, and
/// there is room in the block, which is found out in this order. A refused one changes nothing; but
/// where there is no room, the node has been asked.
pub proof fn what_is_indexed<A, N: Numeral>(
    s: State<A, N>,
    origin: Origin<A>,
    chunk_root: [u8; 32],
    content_hash: [u8; 32],
    size: u32,
    renewal: bool,
    scope: AuthorizationScope<A>,
)
    ensures
        ({
            let answer = s.index_result(origin, content_hash, size);
            let after = s.indexed(origin, chunk_root, content_hash, size, renewal);
            let room = s.block_transactions.len() < s.config.max_block_transactions;
            &&& !(origin is Signed) && !(origin is Unsigned) ==> answer == Err::<(), _>(
                DispatchError::BadOrigin,
            ) && after == s
            &&& draws_on(origin, content_hash, scope) ==> if !covered(s, scope, size as int) {
                answer == Err::<(), _>(DispatchError::Module(Error::NotAuthorized)) && after == s
            } else if s.extrinsic_index is None {
                answer == Err::<(), _>(DispatchError::Module(Error::BadContext)) && after == s
            } else if !room {
                &&& answer == Err::<(), _>(DispatchError::Module(Error::TooManyTransactions))
                &&& asked_for(s, after, content_hash, size as int, renewal)
                &&& after == State { index_operations: after.index_operations, ..s }
            } else {
                &&& answer == Ok::<(), DispatchError>(())
                &&& one_more_transaction(
                    s,
                    after,
                    scope,
                    chunk_root,
                    content_hash,
                    size as int,
                    renewal,
                )
            }
        }),
{
    let answer = s.index_result(origin, content_hash, size);
    let after = s.indexed(origin, chunk_root, content_hash, size, renewal);
    what_is_used_is_taken(s, origin, content_hash, size, scope);
    if answer is Ok {
        assert(after.events.drop_last() =~= s.events);
        assert(after.index_operations.drop_last() =~= s.index_operations);
    } else if answer == refused(Error::TooManyTransactions) {
        assert(after.index_operations.drop_last() =~= s.index_operations);
    }
}

/// Data is stored exactly if it is not empty, is not larger than a transaction may be, is covered
/// by the authorization of the account that signed the call, or of its hash if nobody did, and
/// there are an extrinsic and room in the block for it. Then the block has one more transaction,
/// and exactly one transaction and the size of the data are taken from that authorization.
pub proof fn what_is_stored<A, N: Numeral>(
    s: State<A, N>,
    origin: Origin<A>,
    len: nat,
    content_hash: [u8; 32],
    chunk_root: [u8; 32],
    scope: AuthorizationScope<A>,
)
    ensures
        ({
            let answer = s.store_result(origin, len, content_hash);
            let after = s.stored(origin, len, content_hash, chunk_root);
            let room = s.block_transactions.len() < s.config.max_block_transactions;
            if len == 0 {
                answer == Err::<(), _>(DispatchError::Module(Error::EmptyTransaction)) && after == s
            } else if len > s.config.max_transaction_size {
                answer == Err::<(), _>(DispatchError::Module(Error::TransactionTooLarge)) && after
                    == s
            } else {
                &&& !(origin is Signed) && !(origin is Unsigned) ==> answer == Err::<(), _>(
                    DispatchError::BadOrigin,
                ) && after == s
                &&& draws_on(origin, content_hash, scope) ==> if !covered(s, scope, len as int) {
                    answer == Err::<(), _>(DispatchError::Module(Error::NotAuthorized)) && after
                        == s
                } else if s.extrinsic_index is None {
                    answer == Err::<(), _>(DispatchError::Module(Error::BadContext)) && after == s
                } else if !room {
                    &&& answer == Err::<(), _>(DispatchError::Module(Error::TooManyTransactions))
                    &&& asked_for(s, after, content_hash, len as int, false)
                    &&& after == State { index_operations: after.index_operations, ..s }
                } else {
                    &&& answer == Ok::<(), DispatchError>(())
                    &&& one_more_transaction(
                        s,
                        after,
                        scope,
                        chunk_root,
                        content_hash,
                        len as int,
                        false,
                    )
                }
            }
        }),
{
    if 0 < len <= s.config.max_transaction_size {
        what_is_indexed(s, origin, chunk_root, content_hash, len as u32, false, scope);
    }
}

/// What is renewed is what the transactions of the block have under the index: its root, its hash
/// and its size. There is nothing to renew exactly where there is no such block or index. Otherwise
/// the data is renewed exactly if it is covered as if it were stored again, and then the block has
/// one more transaction, and exactly one transaction and the size of the data are taken.
pub proof fn what_is_renewed<A, N: Numeral>(
    s: State<A, N>,
    origin: Origin<A>,
    block: N,
    index: u32,
    scope: AuthorizationScope<A>,
)
    ensures
        ({
            let answer = s.renew_result(origin, block, index);
            let after = s.renewed(origin, block, index);
            let room = s.block_transactions.len() < s.config.max_block_transactions;
            let info = s.transactions[block][index as int];
            let there = s.transactions.contains_key(block) && index < s.transactions[block].len();
            &&& !there <==> answer == Err::<(), _>(DispatchError::Module(Error::RenewedNotFound))
            &&& !there ==> after == s
            &&& there && !(origin is Signed) && !(origin is Unsigned) ==> answer == Err::<(), _>(
                DispatchError::BadOrigin,
            ) && after == s
            &&& there && draws_on(origin, info.content_hash, scope) ==> if !covered(
                s,
                scope,
                info.size as int,
            ) {
                answer == Err::<(), _>(DispatchError::Module(Error::NotAuthorized)) && after == s
            } else if s.extrinsic_index is None {
                answer == Err::<(), _>(DispatchError::Module(Error::BadContext)) && after == s
            } else if !room {
                &&& answer == Err::<(), _>(DispatchError::Module(Error::TooManyTransactions))
                &&& asked_for(s, after, info.content_hash, info.size as int, true)
                &&& after == State { index_operations: after.index_operations, ..s }
            } else {
                &&& answer == Ok::<(), DispatchError>(())
                &&& one_more_transaction(
                    s,
                    after,
                    scope,
                    info.chunk_root,
                    info.content_hash,
                    info.size as int,
                    true,
                )
            }
        }),
{
    if s.transactions.contains_key(block) && index < s.transactions[block].len() {
        let info = s.transactions[block][index as int];
        what_is_indexed(
            s,
            origin,
            info.chunk_root,
            info.content_hash,
            info.size,
            true,
            scope,
        );
        if origin is Signed {
            what_is_indexed(
                s,
                origin,
                info.chunk_root,
                info.content_hash,
                info.size,
                true,
                AuthorizationScope::Account(origin->Signed_0),
            );
        } else if origin is Unsigned {
            what_is_indexed(
                s,
                origin,
                info.chunk_root,
                info.content_hash,
                info.size,
                true,
                AuthorizationScope::Preimage(info.content_hash),
            );
        }
    }
}

/// Without an authorization that covers it nothing is ever stored or renewed.
pub proof fn nothing_is_indexed_uncovered<A, N: Numeral>(
    s: State<A, N>,
    origin: Origin<A>,
    len: nat,
    content_hash: [u8; 32],
    chunk_root: [u8; 32],
    block: N,
    index: u32,
)
    ensures
        s.store_result(origin, len, content_hash) is Ok || s.stored(
            origin,
            len,
            content_hash,
            chunk_root,
        ).block_transactions != s.block_transactions ==> exists|scope: AuthorizationScope<A>|
            draws_on(origin, content_hash, scope) && covered(s, scope, len as int),
        s.renew_result(origin, block, index) is Ok || s.renewed(
            origin,
            block,
            index,
        ).block_transactions != s.block_transactions ==> exists|scope: AuthorizationScope<A>|
            draws_on(origin, s.transactions[block][index as int].content_hash, scope) && covered(
                s,
                scope,
                s.transactions[block][index as int].size as int,
            ),
{
    let renewed_hash = s.transactions[block][index as int].content_hash;
    let (scope, renewed_scope): (AuthorizationScope<A>, AuthorizationScope<A>) = match origin {
        Origin::Signed(who) => (AuthorizationScope::Account(who), AuthorizationScope::Account(who)),
        _ => (
            AuthorizationScope::Preimage(content_hash),
            AuthorizationScope::Preimage(renewed_hash),
        ),
    };
    what_is_stored(s, origin, len, content_hash, chunk_root, scope);
    what_is_renewed(s, origin, block, index, renewed_scope);
    assert(draws_on(origin, content_hash, scope) <==> origin is Signed || origin is Unsigned);
    assert(draws_on(origin, renewed_hash, renewed_scope) <==> origin is Signed
        || origin is Unsigned);
}

/// What is kept of a block under an index is what its transactions have there.
pub proof fn what_is_found_under_an_index<A, N: Numeral>(s: State<A, N>, block: N, index: u32)
    ensures
        s.transactions.contains_key(block) && index < s.transactions[block].len() ==> s.lookup(
            block,
            index,
        ) == Some(s.transactions[block][index as int]),
        !s.transactions.contains_key(block) || index >= s.transactions[block].len() ==> s.lookup(
            block,
            index,
        ) is None,
{
}

// Blocks.

/// The start of block `n` drops what is kept of the block that is `storage_period` + 1 blocks
/// older, unless that is the very first block, and nothing else.
pub proof fn what_a_start_drops<A, N: Numeral>(s: State<A, N>, n: N, block: N)
    ensures
        ({
            let after = s.initialized(n);
            let dropped = block.value() > 0 && n.value() == block.value()
                + s.config.storage_period.value() + 1;
            &&& dropped ==> !after.transactions.contains_key(block)
                && !after.chunk_count.contains_key(block)
            &&& !dropped ==> {
                &&& after.transactions.contains_key(block) == s.transactions.contains_key(block)
                &&& s.transactions.contains_key(block) ==> after.transactions[block]
                    == s.transactions[block]
                &&& after.chunk_count.contains_key(block) == s.chunk_count.contains_key(block)
                &&& s.chunk_count.contains_key(block) ==> after.chunk_count[block]
                    == s.chunk_count[block]
            }
            &&& after == State {
                transactions: after.transactions,
                chunk_count: after.chunk_count,
                ..s
            }
        }),
{
    the_obsolete_block_is_older_than_the_period(s, n);
    if s.obsolete_block(n).value() == block.value() {
        lemma_same_value(s.obsolete_block(n), block);
    }
}

/// The block that is dropped at the start of block `n` is `storage_period` + 1 blocks older.
pub proof fn the_obsolete_block_is_older_than_the_period<A, N: Numeral>(s: State<A, N>, n: N)
    ensures
        n.value() > s.config.storage_period.value() ==> s.obsolete_block(n).value()
            + s.config.storage_period.value() + 1 == n.value(),
        n.value() <= s.config.storage_period.value() ==> s.obsolete_block(n).value() == 0,
{
    let period = s.config.storage_period;
    n.lemma_value_of(1);
    period.lemma_value_of(0);
    arithmetic_is_on_the_numbers(period, N::of(1));
    arithmetic_is_on_the_numbers(n, sum_or_max(period, N::of(1)));
}

/// The start of a block costs three reads and two writes, and two more writes where something is
/// dropped, or the most that can be counted.
pub proof fn what_a_start_costs<A, N: Numeral>(s: State<A, N>, n: N)
    ensures
        ({
            let cost = initialization_weight(
                s.config.db_weight,
                s.obsolete_block(n).value() > 0,
            );
            let read = s.config.db_weight.read;
            let write = s.config.db_weight.write;
            let sum = if n.value() > s.config.storage_period.value() + 1 {
                3 * read + 4 * write
            } else {
                3 * read + 2 * write
            };
            &&& sum <= 0xffff_ffff_ffff_ffff ==> cost.ref_time == sum
            &&& sum > 0xffff_ffff_ffff_ffff ==> cost.ref_time == 0xffff_ffff_ffff_ffff
            &&& cost.proof_size == 0
        }),
{
    the_obsolete_block_is_older_than_the_period(s, n);
}

/// The end of block `n` leaves no transactions in the block and no proof checked. If the last
/// transaction of the block counts chunks, the transactions are kept, as they are and in their
/// order, under the number of the block, with that count. Nothing else changes.
pub proof fn what_an_end_keeps<A, N: Numeral>(s: State<A, N>, n: N)
    ensures
        ({
            let after = s.finalized(n);
            let infos = s.block_transactions;
            &&& after.block_transactions.len() == 0
            &&& !after.proof_checked
            &&& if infos.len() > 0 && infos[infos.len() - 1].block_chunks > 0 {
                &&& after.transactions.contains_key(n)
                &&& after.transactions[n] == infos
                &&& after.chunk_count.contains_key(n)
                &&& after.chunk_count[n] == infos[infos.len() - 1].block_chunks
                &&& after.transactions.remove(n) == s.transactions.remove(n)
                &&& after.chunk_count.remove(n) == s.chunk_count.remove(n)
            } else {
                &&& after.transactions == s.transactions
                &&& after.chunk_count == s.chunk_count
            }
            &&& after == State {
                block_transactions: after.block_transactions,
                proof_checked: after.proof_checked,
                transactions: after.transactions,
                chunk_count: after.chunk_count,
                ..s
            }
        }),
{
    let after = s.finalized(n);
    assert(after.transactions.remove(n) =~= s.transactions.remove(n));
    assert(after.chunk_count.remove(n) =~= s.chunk_count.remove(n));
}

/// The first transaction that is indexed after the end of a block, whatever was before it, has the
/// first place in its block, and counts its own chunks only.
pub proof fn every_block_counts_from_its_start<A, N: Numeral>(
    s: State<A, N>,
    n: N,
    block_number: N,
    parent_hash: Seq<u8>,
    extrinsic_index: Option<u32>,
    origin: Origin<A>,
    chunk_root: [u8; 32],
    content_hash: [u8; 32],
    size: u32,
    renewal: bool,
)
    ensures
        ({
            let next = State {
                block_number,
                parent_hash,
                extrinsic_index,
                ..s.finalized(n)
            };
            let after = next.indexed(origin, chunk_root, content_hash, size, renewal);
            next.index_result(origin, content_hash, size) is Ok ==> {
                &&& after.block_transactions.len() == 1
                &&& after.block_transactions[0].block_chunks == (size + 255) / 256
                &&& after.events.last() == if renewal {
                    Event::<A>::Renewed { index: 0 }
                } else {
                    Event::<A>::Stored { index: 0 }
                }
            }
        }),
{
    let next = State { block_number, parent_hash, extrinsic_index, ..s.finalized(n) };
    what_an_end_keeps(s, n);
    let scope: AuthorizationScope<A> = match origin {
        Origin::Signed(who) => AuthorizationScope::Account(who),
        _ => AuthorizationScope::Preimage(content_hash),
    };
    what_is_indexed(next, origin, chunk_root, content_hash, size, renewal, scope);
}

/// At genesis nothing is authorized, stored, counted, checked, asked for or reported.
pub proof fn nothing_is_there_at_genesis<A, N: Numeral>(config: Config<N>)
    ensures
        ({
            let s = State::<A, N>::genesis(config);
            &&& s.config == config
            &&& s.block_number.value() == 0
            &&& s.parent_hash.len() == 0
            &&& s.extrinsic_index is None
            &&& forall|scope: AuthorizationScope<A>|
                !#[trigger] s.authorizations.contains_key(scope)
            &&& forall|block: N| !#[trigger] s.transactions.contains_key(block)
            &&& forall|block: N| !#[trigger] s.chunk_count.contains_key(block)
            &&& s.block_transactions.len() == 0
            &&& !s.proof_checked
            &&& s.index_operations.len() == 0
            &&& s.events.len() == 0
        }),
{
    config.storage_period.lemma_value_of(0);
}

/// A configuration makes sense exactly if none of its periods and limits is zero, and the first
/// that is zero is named.
pub proof fn what_a_configuration_needs<N: Numeral>(config: Config<N>)
    ensures
        config.flaw() is None <==> config.authorization_period.value() > 0
            && config.storage_period.value() > 0 && config.max_block_transactions > 0
            && config.max_transaction_size > 0,
        config.flaw() == Some(IntegrityError::NoAuthorizationPeriod)
            <==> config.authorization_period.value() == 0,
        config.flaw() == Some(IntegrityError::NoStoragePeriod)
            <==> config.authorization_period.value() > 0 && config.storage_period.value() == 0,
        config.flaw() == Some(IntegrityError::NoBlockTransactions)
            <==> config.authorization_period.value() > 0 && config.storage_period.value() > 0
            && config.max_block_transactions == 0,
        config.flaw() == Some(IntegrityError::NoTransactionSize)
            <==> config.authorization_period.value() > 0 && config.storage_period.value() > 0
            && config.max_block_transactions > 0 && config.max_transaction_size == 0,
{
}

/// A block author provides a proof exactly if what is under `tx_proof` decodes to it.
pub proof fn what_a_block_author_provides(
    data: InherentData,
    chunk: Seq<u8>,
    nodes: Seq<Seq<u8>>,
)
    ensures
        ({
            let identifier = seq![0x74u8, 0x78u8, 0x5fu8, 0x70u8, 0x72u8, 0x6fu8, 0x6fu8, 0x66u8];
            provides(data, chunk, nodes) <==> inherent_entries(data).contains_key(identifier)
                && decoded_proof(inherent_entries(data)[identifier]) == Some((chunk, nodes))
        }),
{
}

/// What is said of the state of a pallet is said of its fields.
pub proof fn the_state_shows_every_field<A, N>(p: Pallet<A, N>, block: N)
    ensures
        p@.config == p.config,
        p@.block_number == p.system.block_number,
        p@.parent_hash == p.system.parent_hash@,
        p@.extrinsic_index == p.system.extrinsic_index,
        p@.authorizations == p.authorizations@,
        p@.transactions.contains_key(block) == p.transactions@.contains_key(block),
        p.transactions@.contains_key(block) ==> p@.transactions[block] == p.transactions@[block]@,
        p@.chunk_count == p.chunk_count@,
        p@.block_transactions == p.block_transactions@,
        p@.proof_checked == p.proof_checked,
        p@.index_operations == p.index_operations@,
        p@.events == p.events@,
{
}

} // verus!
