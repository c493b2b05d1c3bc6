use chunk_locker::chunker::{ChunkStep, Normalization, StreamCdcFactory};
use chunk_locker::memory::{MemoryConfig, MemoryManager};
use md5::{Digest, Md5};

/// One emitted chunk: hash, offset and bytes.
type Record = (u64, u64, Vec<u8>);

/// Runs a cutter over `source`, handing it at most `read_size` bytes per read, and gives each
/// chunk's buffer back to the pool as soon as it is recorded.
fn run(factory: &StreamCdcFactory, source: &[u8], read_size: usize) -> Vec<Record> {
    let size = std::cmp::max(factory.max_size(), 1024) * 2;
    let mut pool = MemoryManager::new(&MemoryConfig { buffer_count: 3, buffer_size: size });
    let mut chunker = factory.make(pool.try_alloc().unwrap());
    let mut pos = 0;
    let mut out = Vec::new();
    loop {
        match chunker.step() {
            ChunkStep::Fill => {
                while !chunker.is_eof() && chunker.room() > 0 {
                    let n = read_size.min(chunker.room()).min(source.len() - pos);
                    chunker.fill_buffer(&source[pos..pos + n]);
                    pos += n;
                }
            }
            ChunkStep::Emit(hash, count) => {
                let fresh = pool.try_alloc().expect("a free buffer");
                let chunk = chunker.emit_chunk(hash, count, fresh);
                assert_eq!(chunk.hash, hash);
                assert_eq!(chunk.data.len(), count);
                out.push((chunk.hash, chunk.offset, chunk.data.as_slice().to_vec()));
                assert!(pool.dealloc(chunk.data));
            }
            ChunkStep::Done => break,
        }
    }
    assert!(pool.dealloc(chunker.into_buffer()));
    assert_eq!(pool.allocations(), 0);
    out
}

/// Deterministic pseudo-random bytes.
fn noise(len: usize, seed: u64) -> Vec<u8> {
    let mut x = seed ^ 0x9e37_79b9_7f4a_7c15;
    (0..len)
        .map(|_| {
            x ^= x << 13;
            x ^= x >> 7;
            x ^= x << 17;
            (x >> 24) as u8
        })
        .collect()
}

fn oracle(source: &[u8], min: u32, avg: u32, max: u32, level: fastcdc::v2020::Normalization) -> Vec<(u64, usize, usize)> {
    fastcdc::v2020::FastCDC::with_level(source, min, avg, max, level)
        .map(|c| (c.hash, c.offset, c.length))
        .collect()
}

fn summary(records: &[Record]) -> Vec<(u64, usize, usize)> {
    records.iter().map(|(h, o, d)| (*h, *o as usize, d.len())).collect()
}

#[test]
fn test_cut_all_zeros() {
    let array = [0u8; 10240];
    let factory = StreamCdcFactory::new(64, 256, 1024);
    let records = run(&factory, &array, 4096);
    assert_eq!(records.len(), 10);
    let mut cursor: usize = 0;
    for (hash, offset, data) in records.iter() {
        let pos = *offset as usize + data.len();
        assert_eq!(*hash, 14169102344523991076);
        assert_eq!(pos, cursor + 1024);
        cursor = pos;
    }
}

#[test]
fn all_zeros_ends_with_done() {
    let array = [0u8; 10240];
    let factory = StreamCdcFactory::new(64, 256, 1024);
    let mut pool = MemoryManager::new(&MemoryConfig { buffer_count: 2, buffer_size: 16384 });
    let mut chunker = factory.make(pool.try_alloc().unwrap());
    assert!(matches!(chunker.step(), ChunkStep::Fill));
    chunker.fill_buffer(&array);
    for i in 0..10u64 {
        match chunker.step() {
            ChunkStep::Emit(hash, count) => {
                assert_eq!((hash, count), (14169102344523991076, 1024));
                let chunk = chunker.emit_chunk(hash, count, pool.try_alloc().unwrap());
                assert_eq!(chunk.offset, i * 1024);
                assert!(chunk.data.as_slice().iter().all(|&b| b == 0));
                assert!(pool.dealloc(chunk.data));
            }
            _ => panic!("expected a chunk"),
        }
    }
    // the buffer is empty but the source has not said it is exhausted
    assert!(matches!(chunker.step(), ChunkStep::Fill));
    chunker.fill_buffer(&[]);
    assert!(chunker.is_eof());
    assert!(matches!(chunker.step(), ChunkStep::Done));
    assert_eq!(chunker.processed(), 10240);
}

#[test]
fn empty_source_gives_no_chunk() {
    let factory = StreamCdcFactory::new(64, 256, 1024);
    assert!(run(&factory, &[], 100).is_empty());
}

#[test]
fn short_source_is_one_trailing_chunk() {
    let factory = StreamCdcFactory::new(64, 256, 1024);
    let source = noise(50, 1);
    let records = run(&factory, &source, 7);
    assert_eq!(records, vec![(0, 0, source.clone())]);
}

#[test]
fn matches_reference_level1_16k() {
    let source = noise(300_000, 2);
    let factory = StreamCdcFactory::new(4096, 16384, 65535);
    let mine = summary(&run(&factory, &source, 10_000));
    let theirs = oracle(&source, 4096, 16384, 65535, fastcdc::v2020::Normalization::Level1);
    assert!(mine.len() > 3);
    assert_eq!(mine, theirs);
}

#[test]
fn matches_reference_level1_32k_and_64k() {
    let source = noise(400_000, 3);
    let factory = StreamCdcFactory::new(8192, 32768, 131072);
    let theirs = oracle(&source, 8192, 32768, 131072, fastcdc::v2020::Normalization::Level1);
    assert_eq!(summary(&run(&factory, &source, 65536)), theirs);
    let factory = StreamCdcFactory::new(16384, 65536, 262144);
    let theirs = oracle(&source, 16384, 65536, 262144, fastcdc::v2020::Normalization::Level1);
    assert_eq!(summary(&run(&factory, &source, 1 << 20)), theirs);
}

#[test]
fn matches_reference_level0_and_level3() {
    let source = noise(250_000, 4);
    let factory = StreamCdcFactory::with_level(4096, 16384, 65535, Normalization::Level0);
    let theirs = oracle(&source, 4096, 16384, 65535, fastcdc::v2020::Normalization::Level0);
    assert_eq!(summary(&run(&factory, &source, 3333)), theirs);
    let factory = StreamCdcFactory::with_level(8192, 16384, 32768, Normalization::Level3);
    let theirs = oracle(&source, 8192, 16384, 32768, fastcdc::v2020::Normalization::Level3);
    assert_eq!(summary(&run(&factory, &source, 3333)), theirs);
}

#[test]
fn cut_matches_reference_cut_function() {
    let source = noise(70_000, 5);
    let factory = StreamCdcFactory::with_level(256, 1024, 4096, Normalization::Level2);
    let c = factory.config();
    for start in [0usize, 1, 17, 1000, 65_000, 69_900] {
        let w = &source[start..];
        let theirs = fastcdc::v2020::cut(w, 256, 1024, 4096, c.mask_s, c.mask_l, c.mask_s_ls, c.mask_l_ls);
        assert_eq!(chunk_locker::cdc::cut_window(&c, w), theirs);
    }
}

#[test]
fn chunks_cover_the_source() {
    let source = noise(200_000, 6);
    let factory = StreamCdcFactory::new(1024, 4096, 16384);
    let records = run(&factory, &source, 5000);
    let mut joined = Vec::new();
    let mut expected_offset = 0u64;
    for (_, offset, data) in records.iter() {
        assert_eq!(*offset, expected_offset);
        expected_offset += data.len() as u64;
        joined.extend_from_slice(data);
    }
    assert_eq!(expected_offset, source.len() as u64);
    assert_eq!(joined, source);
}

#[test]
fn chunk_lengths_within_bounds() {
    let source = noise(500_000, 7);
    for (min, avg, max) in [(64u32, 256u32, 1024u32), (1024, 4096, 16384), (4096, 4096, 4096)] {
        let factory = StreamCdcFactory::with_level(min, avg, max, Normalization::Level2);
        let records = run(&factory, &source, 9000);
        let last = records.len() - 1;
        for (i, (_, _, data)) in records.iter().enumerate() {
            assert!(data.len() >= 1 && data.len() <= max as usize);
            if i < last {
                assert!(data.len() >= (min as usize / 2) * 2);
            }
        }
    }
}

#[test]
fn runs_with_different_reads_agree() {
    let source = noise(150_000, 8);
    let factory = StreamCdcFactory::new(2048, 8192, 32768);
    let a = run(&factory, &source, 1);
    let b = run(&factory, &source, 4097);
    let c = run(&factory, &source, 1 << 20);
    assert_eq!(a, b);
    assert_eq!(a, c);
}

#[test]
fn splitting_at_a_cut_point_keeps_boundaries() {
    let source = noise(120_000, 9);
    let factory = StreamCdcFactory::new(1024, 4096, 16384);
    let whole = run(&factory, &source, 10_000);
    assert!(whole.len() > 4);
    for k in [1usize, 2, whole.len() / 2, whole.len() - 1] {
        let at = whole[k].1 as usize;
        let left = run(&factory, &source[..at], 10_000);
        let right = run(&factory, &source[at..], 10_000);
        let mut joined: Vec<Vec<u8>> = left.iter().map(|r| r.2.clone()).collect();
        joined.extend(right.iter().map(|r| r.2.clone()));
        let expected: Vec<Vec<u8>> = whole.iter().map(|r| r.2.clone()).collect();
        assert_eq!(joined, expected);
        // the chunks after the split point are the same, hashes included
        let tail: Vec<(u64, Vec<u8>)> = right.iter().map(|r| (r.0, r.2.clone())).collect();
        let expected_tail: Vec<(u64, Vec<u8>)> = whole[k..].iter().map(|r| (r.0, r.2.clone())).collect();
        assert_eq!(tail, expected_tail);
    }
}

#[test]
fn chunk_digests_match_source_slices() {
    let source = noise(100_000, 10);
    let factory = StreamCdcFactory::new(4096, 16384, 65535);
    for (_, offset, data) in run(&factory, &source, 8192) {
        let offset = offset as usize;
        let mut a = Md5::new();
        a.update(&source[offset..offset + data.len()]);
        let mut b = Md5::new();
        b.update(&data);
        assert_eq!(a.finalize(), b.finalize());
    }
}

#[test]
fn splitting_changes_only_the_hash_at_the_split() {
    let source = noise(120_000, 9);
    let factory = StreamCdcFactory::new(1024, 4096, 16384);
    let whole = run(&factory, &source, 10_000);
    let first = &whole[0];
    assert!(first.2.len() < 16384);
    let left = run(&factory, &source[..first.2.len()], 10_000);
    assert_eq!(left.len(), 1);
    assert_eq!(left[0].2, first.2);
    assert_ne!(left[0].0, first.0);
}
