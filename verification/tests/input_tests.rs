use update_extractor::crc::Crc;
use update_extractor::input::Input;
use update_extractor::local_error::FormatError;

fn build_chunk(name: &[u8], payload: &[u8], header_len: u32, blocksize: u32) -> Vec<u8> {
    let mut c = Vec::new();
    c.extend_from_slice(&[0x55, 0xAA, 0x5A, 0xA5]);
    c.extend_from_slice(&header_len.to_le_bytes());
    c.extend_from_slice(&[0u8; 4]); // unknown field
    c.extend_from_slice(&[0u8; 8]); // hardware id
    c.extend_from_slice(&1u32.to_le_bytes()); // file sequence
    c.extend_from_slice(&(payload.len() as u32).to_le_bytes());
    c.extend_from_slice(&[0u8; 16]); // file date
    c.extend_from_slice(&[0u8; 16]); // file time
    let mut nm = [0u8; 32];
    nm[..name.len()].copy_from_slice(name);
    c.extend_from_slice(&nm);
    c.extend_from_slice(&[0u8; 2]); // header checksum
    c.extend_from_slice(&blocksize.to_le_bytes());
    c.extend_from_slice(&vec![0u8; (header_len - 98) as usize]);
    c.extend_from_slice(payload);
    c
}

fn container(parts: &[Vec<u8>]) -> Vec<u8> {
    let mut data = vec![0u8; 92];
    for p in parts {
        data.extend_from_slice(p);
    }
    data
}

#[test]
fn validate_accepts_zero_preamble() {
    let input = Input::new(vec![0u8; 92], String::from("mem"));
    assert!(input.validate().is_ok());
}

#[test]
fn validate_rejects_nonzero_preamble() {
    let mut data = vec![0u8; 200];
    data[50] = 1;
    let input = Input::new(data, String::from("mem"));
    assert_eq!(input.validate(), Err(FormatError::InvalidPreamble));
}

#[test]
fn validate_rejects_short_container() {
    let input = Input::new(vec![0u8; 91], String::from("mem"));
    assert_eq!(input.validate(), Err(FormatError::InvalidPreamble));
}

#[test]
fn empty_container_yields_no_records() {
    let mut input = Input::new(vec![0u8; 92], String::from("mem"));
    assert!(input.validate().is_ok());
    assert!(input.parse().is_ok());
    assert_eq!(input.img_parts().len(), 0);
}

#[test]
fn round_trip_contiguous_chunks() {
    // Three well-formed chunks, no injected noise: exactly three records,
    // each with padding 0, at the built offsets, with the built names.
    let c1 = build_chunk(b"BOOT", &[1, 2, 3, 4], 98, 16);
    let c2 = build_chunk(b"SYSTEM", &[5, 6, 7, 8, 9], 100, 32);
    let c3 = build_chunk(b"RECOVERY", &[10, 11], 98, 16);
    let data = container(&[c1.clone(), c2.clone(), c3.clone()]);
    let mut input = Input::new(data, String::from("mem"));
    assert!(input.validate().is_ok());
    assert!(input.parse().is_ok());
    let parts = input.img_parts();
    assert_eq!(parts.len(), 3);

    assert_eq!(parts[0].offset, 92);
    assert_eq!(parts[1].offset, 92 + c1.len() as u64);
    assert_eq!(parts[2].offset, 92 + (c1.len() + c2.len()) as u64);

    assert_eq!(parts[0].padding, 0);
    assert_eq!(parts[1].padding, 0);
    assert_eq!(parts[2].padding, 0);

    assert_eq!(parts[0].header.filename_lossy(), "BOOT");
    assert_eq!(parts[1].header.filename_lossy(), "SYSTEM");
    assert_eq!(parts[2].header.filename_lossy(), "RECOVERY");

    assert_eq!(input.trailing_size(), 0);
}

#[test]
fn padding_between_chunks_is_attributed_to_the_next_record() {
    // A chunk, 5 garbage bytes that cannot start a header, then another
    // chunk: two records, the second one's padding is 5.
    let c1 = build_chunk(b"BOOT", &[1, 2, 3, 4], 98, 16);
    let c2 = build_chunk(b"SYSTEM", &[5, 6, 7, 8], 98, 16);
    let mut data = container(&[c1.clone()]);
    data.extend_from_slice(&[0xEE; 5]);
    data.extend_from_slice(&c2);
    let mut input = Input::new(data, String::from("mem"));
    assert!(input.parse().is_ok());
    let parts = input.img_parts();
    assert_eq!(parts.len(), 2);
    assert_eq!(parts[0].padding, 0);
    assert_eq!(parts[1].padding, 5);
    assert_eq!(parts[1].offset, 92 + c1.len() as u64 + 5);
}

#[test]
fn trailing_bytes_after_last_chunk_are_accounted() {
    let c1 = build_chunk(b"BOOT", &[1, 2, 3, 4], 98, 16);
    let mut data = container(&[c1]);
    data.extend_from_slice(&[0xEE; 7]);
    let mut input = Input::new(data, String::from("mem"));
    assert!(input.parse().is_ok());
    assert_eq!(input.img_parts().len(), 1);
    assert_eq!(input.trailing_size(), 7);
}

#[test]
fn end_to_end_single_chunk() {
    // Container: 92 zero bytes + one chunk with header length 98 (so a
    // checksum field of length 0), payload size 4, block size 16, file name
    // "a", payload [1,2,3,4]. The scanner yields one record; the payload
    // bytes sit right after the header; the verification checksum is one
    // 2-byte digest over those 4 bytes.
    let chunk = build_chunk(b"a", &[1, 2, 3, 4], 98, 16);
    let data = container(&[chunk]);
    assert_eq!(data.len(), 92 + 98 + 4);

    let mut input = Input::new(data.clone(), String::from("mem"));
    assert!(input.validate().is_ok());
    assert!(input.parse().is_ok());
    let parts = input.img_parts();
    assert_eq!(parts.len(), 1);
    let part = &parts[0];
    assert_eq!(part.offset, 92);
    assert_eq!(part.padding, 0);
    assert_eq!(part.header.filename().unwrap(), "a");
    assert_eq!(part.header.filesize(), 4);
    assert_eq!(part.header.headersize(), 98);
    assert_eq!(part.header.blocksize(), 16);
    assert_eq!(part.header.filechecksumsize(), 0);

    let payload_start = (part.offset + part.header.headersize()) as usize;
    let payload_end = payload_start + part.header.filesize() as usize;
    let payload = &data[payload_start..payload_end];
    assert_eq!(payload, &[1, 2, 3, 4]);

    assert_eq!(part.header_range(), (92, 98));
    assert_eq!(part.payload_range(), Some((92 + 98, 4)));
    assert_eq!(part.checksum_field_range(), Some((92 + 98, 0)));

    let mut crc = Crc::new(part.header.blocksize() as usize);
    let digest = crc.compute_checksum(payload);
    assert_eq!(digest.len(), 2);
    assert_eq!(digest, vec![145, 57]);
}

#[test]
fn garbage_only_tail_yields_no_records() {
    // Garbage after the preamble that never forms a header: no records.
    let mut data = vec![0u8; 92];
    data.extend_from_slice(&[0xEE; 300]);
    let mut input = Input::new(data, String::from("mem"));
    assert!(input.parse().is_ok());
    assert_eq!(input.img_parts().len(), 0);
}

#[test]
fn input_accessors() {
    let data = vec![0u8; 92];
    let input = Input::new(data.clone(), String::from("UPDATE.APP"));
    assert_eq!(input.size, 92);
    assert_eq!(input.filename(), "UPDATE.APP");
    assert_eq!(input.data().as_slice(), data.as_slice());
}
