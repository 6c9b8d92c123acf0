use lud::chunk::{optimal_chunk_size, MAX_CHUNK, MIN_CHUNK};

fn by_floats(file_size: u64) -> usize {
    let scaled = ((file_size as f64).log2() * 1024.0).clamp(16384.0, 1048576.0);
    scaled as usize
}

#[test]
fn empty_file_gets_the_least_chunk() {
    assert_eq!(optimal_chunk_size(0), 16384);
}

#[test]
fn small_files_get_the_least_chunk() {
    assert_eq!(optimal_chunk_size(1), MIN_CHUNK);
    assert_eq!(optimal_chunk_size(1000), MIN_CHUNK);
    assert_eq!(optimal_chunk_size(65535), MIN_CHUNK);
    assert_eq!(optimal_chunk_size(65536), 16384);
}

#[test]
fn chunk_grows_with_the_logarithm() {
    assert_eq!(optimal_chunk_size(65537), 16384);
    assert_eq!(optimal_chunk_size(100_000), 17008);
    assert_eq!(optimal_chunk_size(1 << 20), 20480);
    assert_eq!(optimal_chunk_size(1_048_577), 20480);
    assert_eq!(optimal_chunk_size(1 << 32), 32768);
    assert_eq!(optimal_chunk_size(u64::MAX), 65535);
}

#[test]
fn chunk_agrees_with_floating_point() {
    let mut size: u64 = 3;
    while size < u64::MAX / 3 {
        assert_eq!(optimal_chunk_size(size), by_floats(size));
        size = size * 3 - 1;
    }
}

#[test]
fn chunk_stays_within_bounds() {
    for shift in 0..64 {
        let size = optimal_chunk_size(1u64 << shift);
        assert!(MIN_CHUNK <= size && size <= MAX_CHUNK);
    }
}
