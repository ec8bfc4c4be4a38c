//! How data is cut into chunks, and how the chunks of a block are counted.

use crate::primitives::{chunk_bytes, chunk_size};
use crate::types::TransactionInfo;
use vstd::prelude::*;
use vstd::slice::{slice_subrange, slice_to_vec};

verus! {

/// The number of chunks that data of this size is cut into: the size divided by the size of a
/// chunk, rounded up.
pub open spec fn chunks_in(bytes: nat) -> nat {
    (bytes + chunk_bytes() - 1) as nat / chunk_bytes()
}

/// The smaller of two numbers.
pub open spec fn smaller(a: int, b: int) -> int {
    if a <= b {
        a
    } else {
        b
    }
}

/// `data`, cut into chunks: each holds `chunk_bytes()` bytes, the last one what is left.
pub open spec fn chunks_of(data: Seq<u8>) -> Seq<Seq<u8>> {
    Seq::new(
        chunks_in(data.len()),
        |i: int|
            data.subrange(
                chunk_bytes() * i,
                smaller(chunk_bytes() * (i + 1), data.len() as int),
            ),
    )
}

/// The `u32` that is nearest to `a`.
pub open spec fn saturating_u32(a: int) -> u32 {
    if a > u32::MAX {
        u32::MAX
    } else if a < 0 {
        0
    } else {
        a as u32
    }
}

/// The number of chunks in a block with these transactions, as the last of them has it.
pub open spec fn total_chunks(infos: Seq<TransactionInfo>) -> u32 {
    if infos.len() == 0 {
        0
    } else {
        infos.last().block_chunks
    }
}

/// The counts of chunks never go down from one transaction to the next.
pub open spec fn in_order(infos: Seq<TransactionInfo>) -> bool {
    forall|i: int, j: int|
        0 <= i <= j < infos.len() ==> infos[i].block_chunks <= infos[j].block_chunks
}

/// The search for `chunk`, an index among the chunks of the block, may end in `i`: the count of the
/// transaction there is greater than `chunk`, and that of the one before it is not. Where the
/// counts of chunks are in order, this is the first transaction whose count is greater than
/// `chunk`, or the number of transactions if there is none.
pub open spec fn found_at(infos: Seq<TransactionInfo>, chunk: u32, i: int) -> bool {
    &&& 0 <= i <= infos.len()
    &&& i > 0 ==> infos[i - 1].block_chunks <= chunk
    &&& i < infos.len() ==> infos[i].block_chunks > chunk
    &&& in_order(infos) ==> {
        &&& forall|j: int| 0 <= j < i ==> infos[j].block_chunks <= chunk
        &&& forall|j: int| i <= j < infos.len() ==> infos[j].block_chunks > chunk
    }
}

/// Where the counts of chunks are in order, the place that `found_at` describes is unique.
pub proof fn lemma_found_at_is_unique(infos: Seq<TransactionInfo>, chunk: u32, i: int, j: int)
    requires
        in_order(infos),
        found_at(infos, chunk, i),
        found_at(infos, chunk, j),
    ensures
        i == j,
{
    if i < j {
        assert(infos[i].block_chunks <= chunk);
    } else if j < i {
        assert(infos[j].block_chunks <= chunk);
    }
}

/// The number of chunks that data of this size is cut into.
pub fn num_chunks(bytes: u32) -> (r: u32)
    ensures
        r == chunks_in(bytes as nat),
{
    let size: u64 = chunk_size() as u64;
    ((bytes as u64).saturating_add(size).saturating_sub(1) / size) as u32
}

/// Cuts `data` into chunks.
pub fn split_chunks(data: &Vec<u8>) -> (r: Vec<Vec<u8>>)
    ensures
        r.deep_view() == chunks_of(data@),
{
    let size: usize = chunk_size();
    let mut chunks: Vec<Vec<u8>> = Vec::new();
    let mut start: usize = 0;
    while start < data.len()
        invariant
            size == chunk_bytes(),
            0 <= start <= data.len(),
            start == chunk_bytes() * chunks.len() || start == data.len(),
            chunks.len() == chunks_in(start as nat),
            forall|i: int|
                0 <= i < chunks.len() ==> (#[trigger] chunks[i])@ == chunks_of(data@)[i],
        decreases data.len() - start,
    {
        let end: usize = if data.len() - start > size {
            start + size
        } else {
            data.len()
        };
        let chunk: Vec<u8> = slice_to_vec(slice_subrange(data.as_slice(), start, end));
        chunks.push(chunk);
        start = end;
    }
    proof {
        assert forall|i: int| 0 <= i < chunks.len() implies #[trigger] chunks.deep_view()[i]
            == chunks_of(data@)[i] by {
            assert(chunks[i].deep_view() =~= chunks[i]@);
        }
        assert(chunks.deep_view() =~= chunks_of(data@));
    }
    chunks
}

/// The total number of chunks added in the block up to the last of these transactions.
pub fn chunks_so_far(infos: &Vec<TransactionInfo>) -> (r: u32)
    ensures
        r == total_chunks(infos@),
{
    if infos.len() == 0 {
        0
    } else {
        infos[infos.len() - 1].block_chunks
    }
}

/// Finds the transaction that holds a chunk, by the index of the chunk in the block, by binary
/// search.
pub fn find_transaction(infos: &Vec<TransactionInfo>, chunk: u32) -> (r: usize)
    ensures
        found_at(infos@, chunk, r as int),
{
    let mut low: usize = 0;
    let mut high: usize = infos.len();
    while low < high
        invariant
            0 <= low <= high <= infos.len(),
            low > 0 ==> infos[low - 1].block_chunks <= chunk,
            high < infos.len() ==> infos[high as int].block_chunks > chunk,
            in_order(infos@) ==> {
                &&& forall|j: int| 0 <= j < low ==> infos[j].block_chunks <= chunk
                &&& forall|j: int| high <= j < infos.len() ==> infos[j].block_chunks > chunk
            },
        decreases high - low,
    {
        let middle: usize = low + (high - low) / 2;
        if infos[middle].block_chunks <= chunk {
            low = middle + 1;
        } else {
            high = middle;
        }
    }
    low
}

} // verus!
