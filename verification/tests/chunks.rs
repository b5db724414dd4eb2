use nitro::chunks::{can_divide, chunk_range, pending_chunks, ChunkRange};

const MIB: u64 = 1024 * 1024;

#[test]
fn a_gibibyte_is_divided_among_eight_workers() {
    let chunks = pending_chunks(1024 * MIB, &vec![false; 8]);
    assert_eq!(chunks.len(), 8);
    for (i, chunk) in chunks.iter().enumerate() {
        let i = i as u64;
        assert_eq!(chunk.id as u64, i);
        assert_eq!(chunk.start, i * 128 * MIB);
        assert_eq!(chunk.end, (i + 1) * 128 * MIB - 1);
    }
}

#[test]
fn the_last_chunk_takes_the_remainder() {
    let chunks = pending_chunks(10, &vec![false; 3]);
    assert_eq!(
        chunks,
        vec![
            ChunkRange { id: 0, start: 0, end: 2 },
            ChunkRange { id: 1, start: 3, end: 5 },
            ChunkRange { id: 2, start: 6, end: 9 },
        ]
    );
}

#[test]
fn one_worker_gets_the_whole_file() {
    assert_eq!(chunk_range(12345, 1, 0), ChunkRange { id: 0, start: 0, end: 12344 });
    assert_eq!(chunk_range(u64::MAX, 1, 0).end, u64::MAX - 1);
}

#[test]
fn every_byte_lies_in_one_chunk() {
    for total in 1..60u64 {
        for workers in 1..=total as usize {
            let chunks = pending_chunks(total, &vec![false; workers]);
            for byte in 0..total {
                let holders = chunks.iter().filter(|c| c.start <= byte && byte <= c.end).count();
                assert_eq!(holders, 1, "byte {} of {} by {}", byte, total, workers);
            }
            assert_eq!(chunks[workers - 1].end, total - 1);
        }
    }
}

#[test]
fn only_unfinished_chunks_are_fetched() {
    let done = vec![true, true, false, false, true, false, true, false];
    let chunks = pending_chunks(1073741824, &done);
    let ids: Vec<usize> = chunks.iter().map(|c| c.id).collect();
    assert_eq!(ids, vec![2, 3, 5, 7]);
    for c in &chunks {
        assert_eq!(*c, chunk_range(1073741824, 8, c.id));
    }
    assert!(pending_chunks(1073741824, &vec![true; 8]).is_empty());
}

#[test]
fn a_file_must_have_a_byte_for_each_worker() {
    assert!(can_divide(8, 8));
    assert!(!can_divide(7, 8));
    assert!(!can_divide(8, 0));
    assert!(!can_divide(0, 1));
}
