use tthsd::chunks::{create_chunks, MIN_CHUNK_SIZE};

fn assert_partition(chunks: &[tthsd::chunks::DownloadChunk], file_size: i64) {
    assert!(!chunks.is_empty());
    assert_eq!(chunks[0].start_offset, 0);
    assert_eq!(chunks[chunks.len() - 1].end_offset, file_size - 1);
    for c in chunks {
        assert!(c.start_offset <= c.end_offset);
        assert!(!c.done);
    }
    for w in chunks.windows(2) {
        assert_eq!(w[1].start_offset, w[0].end_offset + 1);
    }
}

#[test]
fn ten_mib_four_workers_one_mib_chunks() {
    // 10 MiB file, 4 workers, 1 MiB requested chunks: the partition is
    // rebalanced to 8 chunks of 1,310,720 bytes.
    let file_size: i64 = 10 * 1024 * 1024;
    let chunks = create_chunks(file_size, 1024 * 1024, 4);
    assert_partition(&chunks, file_size);
    assert_eq!(chunks.len(), 8);
    assert_eq!(chunks[0].end_offset, 1310719);
}

#[test]
fn single_byte_file_is_one_chunk() {
    let chunks = create_chunks(1, 1024 * 1024, 4);
    assert_partition(&chunks, 1);
    assert_eq!(chunks.len(), 1);
    assert_eq!(chunks[0].end_offset, 0);
}

#[test]
fn small_file_one_chunk_per_request() {
    // The file fits in one requested chunk.
    let chunks = create_chunks(1000, 4096, 2);
    assert_partition(&chunks, 1000);
    assert_eq!(chunks.len(), 1);
}

#[test]
fn rebalance_respects_min_chunk_size() {
    // file / (2 * threads) would give chunks under 1 MiB; the floor holds.
    let file_size: i64 = 1_572_864;
    let chunks = create_chunks(file_size, 1, 1);
    assert_partition(&chunks, file_size);
    assert_eq!(chunks.len(), 2);
    assert_eq!(chunks[0].end_offset - chunks[0].start_offset + 1, MIN_CHUNK_SIZE);
}

#[test]
fn uneven_tail_chunk() {
    let file_size: i64 = 2_500_000;
    let chunk: i64 = 1_000_000;
    let chunks = create_chunks(file_size, chunk, 2);
    assert_partition(&chunks, file_size);
    assert_eq!(chunks.len(), 3);
    assert_eq!(chunks[2].end_offset - chunks[2].start_offset + 1, 500_000);
}

#[test]
fn partition_covers_every_offset_once() {
    let file_size: i64 = 777;
    let chunks = create_chunks(file_size, 100, 1);
    for o in 0..file_size {
        let covering = chunks
            .iter()
            .filter(|c| c.start_offset <= o && o <= c.end_offset)
            .count();
        assert_eq!(covering, 1, "offset {} covered {} times", o, covering);
    }
}
