//! What the pallet has from outside: hashing, tries, the choice of the chunk to prove, and the
//! data that a block author provides.

use frame_support::inherent::InherentData;
use vstd::prelude::*;

verus! {

/// A chunk of stored data, with the proof that it was stored.
#[derive(Clone, Debug, PartialEq, Eq)]
pub struct TransactionStorageProof {
    /// The chunk whose presence is proved.
    pub chunk: Vec<u8>,
    /// The trie nodes that make up the proof.
    pub proof: Vec<Vec<u8>>,
}

/// The BLAKE2b hash, with an output of 32 bytes, of `data`.
pub uninterp spec fn blake2_256_of(data: Seq<u8>) -> [u8; 32];

/// The root of the trie, in the layout of state version 1 and with BLAKE2b hashing, that maps the
/// compact SCALE encoding of the position of each item to the item.
pub uninterp spec fn ordered_root_of(items: Seq<Seq<u8>>) -> [u8; 32];

/// Whether `proof` shows that the trie with this `root`, in the layout of state version 1 and with
/// BLAKE2b hashing, maps `key` to `value`.
pub uninterp spec fn proof_verifies(
    root: [u8; 32],
    proof: Seq<Seq<u8>>,
    key: Seq<u8>,
    value: Seq<u8>,
) -> bool;

/// The entries of the data that a block author provides, by identifier.
pub uninterp spec fn inherent_entries(data: InherentData) -> Map<Seq<u8>, Seq<u8>>;

/// The chunk and the trie nodes of the storage proof that `bytes` encode, if they encode one.
pub uninterp spec fn decoded_proof(bytes: Seq<u8>) -> Option<(Seq<u8>, Seq<Seq<u8>>)>;

/// The number of bytes in every chunk of stored data but the last.
pub open spec fn chunk_bytes() -> nat {
    256
}

/// The identifier of storage proofs among what a block author provides: `tx_proof`.
pub open spec fn proof_identifier() -> Seq<u8> {
    seq![116u8, 120u8, 95u8, 112u8, 114u8, 111u8, 111u8, 102u8]
}

/// The number that `bytes` stand for, most significant byte first.
pub open spec fn big_endian(bytes: Seq<u8>) -> nat
    decreases bytes.len(),
{
    if bytes.len() == 0 {
        0
    } else {
        256 * big_endian(bytes.drop_last()) + bytes.last() as nat
    }
}

/// The `len` least significant bytes of `n`, least significant byte first.
pub open spec fn little_endian(n: nat, len: nat) -> Seq<u8>
    decreases len,
{
    if len == 0 {
        Seq::empty()
    } else {
        seq![(n % 256) as u8] + little_endian(n / 256, (len - 1) as nat)
    }
}

/// The compact SCALE encoding of `n`: the two low bits of the first byte tell how many bytes
/// follow.
pub open spec fn compact_encoding(n: u32) -> Seq<u8> {
    if n < 0x40 {
        little_endian((4 * n) as nat, 1)
    } else if n < 0x4000 {
        little_endian((4 * n + 1) as nat, 2)
    } else if n < 0x4000_0000 {
        little_endian((4 * n + 2) as nat, 4)
    } else {
        seq![3u8] + little_endian(n as nat, 4)
    }
}

/// The chunk, of `total_chunks`, that the random bytes `random` pick: the first eight of them, as
/// a big endian number, modulo the number of chunks.
pub open spec fn chosen_chunk(random: Seq<u8>, total_chunks: u32) -> u32 {
    (big_endian(random.subrange(0, 8)) % (total_chunks as nat)) as u32
}

/// There is a proof that the trie with this root maps the encoding of `index` to `item`.
pub open spec fn has_proof(root: [u8; 32], index: u32, item: Seq<u8>) -> bool {
    exists|nodes: Seq<Seq<u8>>| proof_verifies(root, nodes, compact_encoding(index), item)
}

/// For each of the items there is a proof that the trie with this root has it in its position.
pub open spec fn provable(root: [u8; 32], items: Seq<Seq<u8>>) -> bool {
    forall|i: int| 0 <= i < items.len() ==> has_proof(root, i as u32, #[trigger] items[i])
}

/// The data that a block author provides for the block.
#[verifier::external_type_specification]
#[verifier::external_body]
pub struct ExInherentData(frame_support::inherent::InherentData);

/// What is wrong with a storage proof that a block author provides.
#[verifier::external_type_specification]
#[verifier::external_body]
pub struct ExInherentError(sp_transaction_storage_proof::InherentError);

/// Calls `sp_io::hashing::blake2_256`. The result is a function of `data` alone.
#[verifier::external_body]
pub(crate) fn blake2_256(data: &[u8]) -> (r: [u8; 32])
    ensures
        r == blake2_256_of(data@),
{
    sp_io::hashing::blake2_256(data)
}

/// Calls `sp_io::trie::blake2_256_ordered_root` for state version 1. The result is a function of
/// the items, in their order, alone. It is the root of a trie in which the key of an item is the
/// compact SCALE encoding of its position, and for each key in a trie `sp_trie` generates a proof
/// of inclusion that verifies. This is claimed for items that are not empty, and as many of them
/// as have positions of their own among 32 bit numbers.
#[verifier::external_body]
pub(crate) fn blake2_256_ordered_root(items: Vec<Vec<u8>>) -> (r: [u8; 32])
    ensures
        r == ordered_root_of(items.deep_view()),
        items@.len() <= u32::MAX && (forall|i: int|
            0 <= i < items@.len() ==> (#[trigger] items@[i])@.len() > 0) ==> provable(
            r,
            items.deep_view(),
        ),
{
    sp_io::trie::blake2_256_ordered_root(items, sp_runtime::StateVersion::V1).into()
}

/// Calls `sp_io::trie::blake2_256_verify_proof` for state version 1. The result is a function of
/// the arguments alone.
#[verifier::external_body]
pub(crate) fn blake2_256_verify_proof(
    root: [u8; 32],
    proof: &Vec<Vec<u8>>,
    key: &Vec<u8>,
    value: &Vec<u8>,
) -> (r: bool)
    ensures
        r == proof_verifies(root, proof.deep_view(), key@, value@),
{
    sp_io::trie::blake2_256_verify_proof(
        root.into(),
        proof,
        key,
        value,
        sp_runtime::StateVersion::V1,
    )
}

/// Calls `sp_transaction_storage_proof::random_chunk`, which reads the first eight bytes of
/// `random_hash` as a big endian number and reduces it modulo `total_chunks`. It panics where
/// there are fewer than eight bytes, or no chunk.
#[verifier::external_body]
pub(crate) fn random_chunk(random_hash: &Vec<u8>, total_chunks: u32) -> (r: u32)
    requires
        random_hash@.len() >= 8,
        total_chunks > 0,
    ensures
        r == chosen_chunk(random_hash@, total_chunks),
{
    sp_transaction_storage_proof::random_chunk(random_hash, total_chunks)
}

/// Calls `sp_transaction_storage_proof::encode_index`, which gives the compact SCALE encoding of
/// its argument.
#[verifier::external_body]
pub(crate) fn encode_index(index: u32) -> (r: Vec<u8>)
    ensures
        r@ == compact_encoding(index),
{
    sp_transaction_storage_proof::encode_index(index)
}

/// Reads the constant `sp_transaction_storage_proof::CHUNK_SIZE`, which is 256.
#[verifier::external_body]
pub(crate) fn chunk_size() -> (r: usize)
    ensures
        r == chunk_bytes(),
{
    sp_transaction_storage_proof::CHUNK_SIZE
}

/// The block author provides a storage proof, of this chunk and with these trie nodes.
pub open spec fn provides(data: InherentData, chunk: Seq<u8>, nodes: Seq<Seq<u8>>) -> bool {
    &&& inherent_entries(data).contains_key(proof_identifier())
    &&& decoded_proof(inherent_entries(data)[proof_identifier()]) == Some((chunk, nodes))
}

/// Calls `InherentData::get_data` for the storage proof, with the identifier
/// `sp_transaction_storage_proof::INHERENT_IDENTIFIER`, which is `tx_proof`. There is no proof
/// where no entry has that identifier, and an error where the entry does not decode; otherwise
/// the result is what the entry decodes to, a function of its bytes alone.
#[verifier::external_body]
pub(crate) fn provided_proof(data: &InherentData) -> (r: Result<
    Option<TransactionStorageProof>,
    (),
>)
    ensures
        match r {
            Ok(None) => !inherent_entries(*data).contains_key(proof_identifier()),
            Ok(Some(p)) => {
                &&& inherent_entries(*data).contains_key(proof_identifier())
                &&& decoded_proof(inherent_entries(*data)[proof_identifier()]) == Some(
                    (p.chunk@, p.proof.deep_view()),
                )
            },
            Err(_) => {
                &&& inherent_entries(*data).contains_key(proof_identifier())
                &&& decoded_proof(inherent_entries(*data)[proof_identifier()]) is None
            },
        },
{
    data.get_data::<sp_transaction_storage_proof::TransactionStorageProof>(
        &sp_transaction_storage_proof::INHERENT_IDENTIFIER,
    )
        .map(|found| found.map(|p| TransactionStorageProof { chunk: p.chunk, proof: p.proof }))
        .map_err(|_| ())
}

} // verus!
