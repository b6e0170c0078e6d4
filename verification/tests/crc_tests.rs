use update_extractor::crc::{verify_checksum, Crc};

#[test]
fn empty_data_yields_no_digest() {
    let mut crc = Crc::new(16);
    assert_eq!(crc.compute_checksum(&[]), Vec::<u8>::new());
}

#[test]
fn single_block_digest() {
    let mut crc = Crc::new(16);
    assert_eq!(crc.compute_checksum(&[1, 2, 3, 4]), vec![145, 57]);
}

#[test]
fn all_zero_block_digest() {
    let mut crc = Crc::new(16);
    assert_eq!(crc.compute_checksum(&[0, 0, 0, 0]), vec![222, 252]);
}

#[test]
fn multi_block_digests_in_block_order() {
    // 9 bytes at block size 4: three blocks ("1234", "5678", "9"), the last
    // one shorter, each yielding one little-endian digest.
    let mut crc = Crc::new(4);
    assert_eq!(
        crc.compute_checksum(b"123456789"),
        vec![236, 116, 109, 200, 58, 92]
    );
}

#[test]
fn whole_input_as_one_block() {
    let mut crc = Crc::new(9);
    assert_eq!(crc.compute_checksum(b"123456789"), vec![110, 144]);
}

#[test]
fn deterministic_and_no_state_leak() {
    // The same data and block size give the same output twice in a row on one
    // engine: nothing leaks across calls.
    let mut crc = Crc::new(4);
    let first = crc.compute_checksum(b"123456789");
    let second = crc.compute_checksum(b"123456789");
    assert_eq!(first, second);
    // And a fresh engine agrees.
    let mut fresh = Crc::new(4);
    assert_eq!(fresh.compute_checksum(b"123456789"), first);
}

#[test]
fn block_count_is_length_ceiling() {
    for (len, bs) in [(0usize, 3usize), (1, 3), (3, 3), (4, 3), (9, 3), (10, 1), (5, 100)] {
        let data = vec![0xABu8; len];
        let mut crc = Crc::new(bs);
        let digests = crc.compute_checksum(&data);
        let expected_blocks = (len + bs - 1) / bs;
        assert_eq!(digests.len(), 2 * expected_blocks);
    }
}

#[test]
fn verify_checksum_accepts_and_rejects() {
    assert!(verify_checksum(&[1, 2, 3, 4], &[145, 57], 16));
    assert!(!verify_checksum(&[1, 2, 3, 4], &[145, 58], 16));
    assert!(!verify_checksum(&[1, 2, 3, 4], &[145], 16));
    assert!(!verify_checksum(&[1, 2, 3, 4, 5], &[145, 57], 16));
    assert!(verify_checksum(&[], &[], 16));
}
