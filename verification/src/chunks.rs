//! Partitioning a resource of known size into contiguous byte-range chunks.
//!
//! Every chunk is an inclusive range `[start_offset, end_offset]`. The chunks
//! of one task are contiguous, disjoint, and cover `[0, file_size - 1]`
//! exactly; all but the last have the effective chunk size.

use vstd::prelude::*;

verus! {

/// Chunks never shrink below 1 MiB when the partition is rebalanced.
pub const MIN_CHUNK_SIZE: i64 = 1048576;

/// A byte range `[start_offset, end_offset]`, inclusive at both ends,
/// fetched by a single worker.
#[derive(Debug, Clone)]
pub struct DownloadChunk {
    pub start_offset: i64,
    pub end_offset: i64,
    pub done: bool,
}

impl DownloadChunk {
    /// Number of bytes covered by this chunk.
    pub open spec fn spec_len(self) -> int {
        self.end_offset - self.start_offset + 1
    }

    /// Whether byte offset `o` lies inside this chunk.
    pub open spec fn covers(self, o: int) -> bool {
        self.start_offset <= o <= self.end_offset
    }
}

/// The chunk size actually used: the requested size, enlarged so that at most
/// `2 * thread_count` chunks are produced, but never below 1 MiB.
pub open spec fn spec_effective_chunk_size(
    file_size: int,
    chunk_size: int,
    thread_count: int,
) -> int {
    let min_chunks = 2 * thread_count;
    if file_size / min_chunks > chunk_size {
        if file_size / min_chunks < MIN_CHUNK_SIZE as int {
            MIN_CHUNK_SIZE as int
        } else {
            file_size / min_chunks
        }
    } else {
        chunk_size
    }
}

/// The chunks are contiguous from offset 0 to `file_size - 1`: the first
/// starts at 0, each next one starts right after its predecessor, and the
/// last ends at `file_size - 1`. No chunk is marked done yet.
pub open spec fn is_chunk_partition(chunks: Seq<DownloadChunk>, file_size: int) -> bool {
    &&& chunks.len() > 0
    &&& chunks[0].start_offset == 0
    &&& chunks[chunks.len() - 1].end_offset == file_size - 1
    &&& forall|i: int| 0 <= i < chunks.len() ==> chunks[i].start_offset <= chunks[i].end_offset
    &&& forall|i: int|
        1 <= i < chunks.len() ==> chunks[i].start_offset == chunks[i - 1].end_offset + 1
    &&& forall|i: int| 0 <= i < chunks.len() ==> !chunks[i].done
}

/// Every chunk ends either a full effective chunk size after its start or at
/// the end of the file, whichever comes first.
pub open spec fn chunk_sizes_exact(chunks: Seq<DownloadChunk>, file_size: int, ecs: int) -> bool {
    forall|i: int|
        0 <= i < chunks.len() ==> chunks[i].end_offset == spec_min_i64(
            chunks[i].start_offset + ecs - 1,
            file_size - 1,
        )
}

pub open spec fn spec_min_i64(a: int, b: int) -> int {
    if a < b {
        a
    } else {
        b
    }
}

/// Split `[0, file_size - 1]` into contiguous chunks of the effective chunk
/// size (the last one truncated to the end of the file).
pub fn create_chunks(file_size: i64, chunk_size: i64, thread_count: usize) -> (chunks: Vec<
    DownloadChunk,
>)
    requires
        0 < file_size <= 0x4000_0000_0000_0000,
        0 < chunk_size <= 0x4000_0000_0000_0000,
        0 < thread_count <= 0x3FFF_FFFF,
    ensures
        is_chunk_partition(chunks@, file_size as int),
        chunk_sizes_exact(
            chunks@,
            file_size as int,
            spec_effective_chunk_size(file_size as int, chunk_size as int, thread_count as int),
        ),
{
    let min_chunks: i64 = thread_count as i64 * 2;
    let mut chunk_size = chunk_size;

    if file_size / min_chunks > chunk_size {
        chunk_size = file_size / min_chunks;
        if chunk_size < MIN_CHUNK_SIZE {
            chunk_size = MIN_CHUNK_SIZE;
        }
    }

    let ghost ecs = chunk_size as int;

    let mut chunks: Vec<DownloadChunk> = Vec::new();
    let mut offset: i64 = 0;

    while offset < file_size
        invariant
            0 < chunk_size <= 0x4000_0000_0000_0000,
            0 < file_size <= 0x4000_0000_0000_0000,
            ecs == chunk_size as int,
            0 <= offset <= file_size,
            chunks@.len() > 0 ==> chunks@[0].start_offset == 0,
            chunks@.len() > 0 ==> chunks@[chunks@.len() - 1].end_offset == offset - 1,
            chunks@.len() == 0 ==> offset == 0,
            forall|i: int|
                0 <= i < chunks@.len() ==> chunks@[i].start_offset <= chunks@[i].end_offset,
            forall|i: int|
                1 <= i < chunks@.len() ==> chunks@[i].start_offset == chunks@[i
                    - 1].end_offset + 1,
            forall|i: int| 0 <= i < chunks@.len() ==> !chunks@[i].done,
            chunk_sizes_exact(chunks@, file_size as int, ecs),
        decreases file_size - offset,
    {
        let end = if offset + chunk_size - 1 < file_size - 1 {
            offset + chunk_size - 1
        } else {
            file_size - 1
        };
        chunks.push(DownloadChunk { start_offset: offset, end_offset: end, done: false });
        offset = end + 1;
    }

    chunks
}

/// Within a partition the chunk starts grow strictly: an earlier chunk ends
/// before a later one begins.
pub proof fn lemma_chunks_ordered(chunks: Seq<DownloadChunk>, file_size: int, i: int, j: int)
    requires
        is_chunk_partition(chunks, file_size),
        0 <= i < j < chunks.len(),
    ensures
        chunks[i].end_offset < chunks[j].start_offset,
    decreases j - i,
{
    if j == i + 1 {
    } else {
        lemma_chunks_ordered(chunks, file_size, i, j - 1);
    }
}

/// A prefix of a partition is itself a partition of the bytes up to the end
/// of its last chunk.
proof fn lemma_prefix_partition(chunks: Seq<DownloadChunk>, file_size: int, k: int)
    requires
        is_chunk_partition(chunks, file_size),
        1 <= k < chunks.len(),
    ensures
        is_chunk_partition(chunks.take(k), chunks[k - 1].end_offset + 1),
{
    assert forall|i: int| 1 <= i < k implies chunks.take(k)[i].start_offset == chunks.take(k)[i
        - 1].end_offset + 1 by {
        assert(chunks.take(k)[i] == chunks[i]);
        assert(chunks.take(k)[i - 1] == chunks[i - 1]);
    }
}

/// Every offset of `[0, file_size - 1]` lies in some chunk of a partition.
pub proof fn lemma_partition_covers(chunks: Seq<DownloadChunk>, file_size: int, o: int)
    requires
        is_chunk_partition(chunks, file_size),
        0 <= o < file_size,
    ensures
        exists|i: int| 0 <= i < chunks.len() && chunks[i].covers(o),
    decreases chunks.len(),
{
    let last = chunks.len() - 1;
    if chunks[last].start_offset <= o {
        assert(chunks[last].covers(o));
    } else {
        assert(chunks.len() >= 2);
        lemma_prefix_partition(chunks, file_size, last);
        lemma_partition_covers(chunks.take(last), chunks[last - 1].end_offset + 1, o);
        let i = choose|i: int| 0 <= i < chunks.take(last).len() && chunks.take(last)[i].covers(o);
        assert(chunks[i].covers(o));
    }
}

/// Chunks of a partition are pairwise disjoint: no offset lies in two of them.
pub proof fn lemma_partition_disjoint(
    chunks: Seq<DownloadChunk>,
    file_size: int,
    i: int,
    j: int,
    o: int,
)
    requires
        is_chunk_partition(chunks, file_size),
        0 <= i < chunks.len(),
        0 <= j < chunks.len(),
        i != j,
        chunks[i].covers(o),
    ensures
        !chunks[j].covers(o),
{
    if i < j {
        lemma_chunks_ordered(chunks, file_size, i, j);
    } else {
        lemma_chunks_ordered(chunks, file_size, j, i);
    }
}

/// Some chunk of the partition contains offset `o`.
pub open spec fn covered_by_some(chunks: Seq<DownloadChunk>, o: int) -> bool {
    exists|i: int| 0 <= i < chunks.len() && chunks[i].covers(o)
}

/// The chunk partition is a total, disjoint cover of `[0, file_size - 1]`:
/// every byte offset of the file lies in exactly one chunk.
pub proof fn lemma_partition_total_disjoint_cover(chunks: Seq<DownloadChunk>, file_size: int)
    requires
        is_chunk_partition(chunks, file_size),
    ensures
        forall|o: int| 0 <= o < file_size ==> #[trigger] covered_by_some(chunks, o),
        forall|i: int, j: int, o: int|
            0 <= i < chunks.len() && 0 <= j < chunks.len() && i != j && #[trigger] chunks[i].covers(
                o,
            ) ==> !(#[trigger] chunks[j].covers(o)),
{
    assert forall|o: int| 0 <= o < file_size implies #[trigger] covered_by_some(chunks, o) by {
        lemma_partition_covers(chunks, file_size, o);
    }
    assert forall|i: int, j: int, o: int|
        0 <= i < chunks.len() && 0 <= j < chunks.len() && i != j && #[trigger] chunks[i].covers(
            o,
        ) implies !(#[trigger] chunks[j].covers(o)) by {
        lemma_partition_disjoint(chunks, file_size, i, j, o);
    }
}

} // verus!
