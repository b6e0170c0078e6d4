use update_extractor::img_header::display::{CsvEntry, TableEntry};
use update_extractor::img_header::ImgHeader;
use update_extractor::local_error::Error;
use update_extractor::tabled_types::{ArrayValue, HexValue};
use update_extractor::utils::remove_null_bytes;

fn sample_header() -> ImgHeader {
    let mut data = Vec::new();
    data.extend_from_slice(&[0x55, 0xAA, 0x5A, 0xA5]);
    data.extend_from_slice(&100u32.to_le_bytes()); // header length
    data.extend_from_slice(&[0xDE, 0xAD, 0xBE, 0xEF]); // unknown field
    data.extend_from_slice(&0x1122334455667788u64.to_le_bytes()); // hardware id
    data.extend_from_slice(&7u32.to_le_bytes()); // file sequence
    data.extend_from_slice(&1234u32.to_le_bytes()); // payload size
    let mut date = [0u8; 16];
    date[..10].copy_from_slice(b"2024.01.31");
    data.extend_from_slice(&date);
    let mut time = [0u8; 16];
    time[..8].copy_from_slice(b"12:34:56");
    data.extend_from_slice(&time);
    let mut nm = [0u8; 32];
    nm[..6].copy_from_slice(b"KERNEL");
    data.extend_from_slice(&nm);
    data.extend_from_slice(&0xBEEFu16.to_le_bytes()); // header checksum
    data.extend_from_slice(&4096u32.to_le_bytes()); // block size
    ImgHeader::try_from(data.as_slice()).unwrap()
}

#[test]
fn table_entry_decodes_header_fields() {
    let h = sample_header();
    let e = TableEntry::from(&h);
    assert_eq!(e.header_len, 100);
    assert_eq!(e.unknown_field.0, vec![0xDE, 0xAD, 0xBE, 0xEF]);
    assert_eq!(e.hardware_id.0, 0x1122334455667788u64.to_le_bytes().to_vec());
    assert_eq!(e.file_sequence.0, 7u32.to_le_bytes().to_vec());
    assert_eq!(e.file_size, 1234);
    assert_eq!(e.file_type, "KERNEL");
    assert_eq!(e.header_checksum, HexValue::U16(0xBEEF));
    assert_eq!(e.blocksize_raw.0, 4096u32.to_le_bytes().to_vec());
    assert_eq!(e.blocksize, 4096);
    assert_eq!(e.file_checksum_size, 2);
}

#[test]
fn csv_entry_decodes_header_fields() {
    let h = sample_header();
    let e = CsvEntry::from(&h);
    assert_eq!(e.header_len, 100);
    assert_eq!(e.unknown_field, u32::from_le_bytes([0xDE, 0xAD, 0xBE, 0xEF]));
    assert_eq!(e.hardware_id, 0x1122334455667788);
    assert_eq!(e.file_sequence, 7);
    assert_eq!(e.file_size, 1234);
    assert_eq!(e.file_date, "2024.01.31");
    assert_eq!(e.file_time, "12:34:56");
    assert_eq!(e.file_type, "KERNEL");
    assert_eq!(e.header_checksum, 0xBEEF);
    assert_eq!(e.blocksize, 4096);
    assert_eq!(e.file_checksum_size, 2);
}

#[test]
fn hex_value_decodes_at_stored_width() {
    assert_eq!(HexValue::from(&[0xAB]), HexValue::U8(0xAB));
    assert_eq!(HexValue::from(&[0x34, 0x12]), HexValue::U16(0x1234));
    assert_eq!(
        HexValue::from(&[0x78, 0x56, 0x34, 0x12]),
        HexValue::U32(0x12345678)
    );
    assert_eq!(
        HexValue::from(&0x1122334455667788u64.to_le_bytes()),
        HexValue::U64(0x1122334455667788)
    );
    assert_eq!(
        HexValue::from(&0x00112233445566778899AABBCCDDEEFFu128.to_le_bytes()),
        HexValue::U128(0x00112233445566778899AABBCCDDEEFF)
    );
}

#[test]
fn array_value_copies_bytes() {
    let v = ArrayValue::from(&[1u8, 2, 3]);
    assert_eq!(v.0, vec![1, 2, 3]);
}

#[test]
fn remove_null_bytes_strips_only_trailing() {
    assert_eq!(remove_null_bytes(&[1, 2, 0, 0]), vec![1, 2]);
    assert_eq!(remove_null_bytes(&[1, 0, 2]), vec![1, 0, 2]);
    assert_eq!(remove_null_bytes(&[0, 0, 0]), Vec::<u8>::new());
    assert_eq!(remove_null_bytes(&[]), Vec::<u8>::new());
    assert_eq!(remove_null_bytes(&[5]), vec![5]);
}

#[test]
fn error_carries_its_message() {
    let e = Error::new(String::from("File x already exists"));
    assert_eq!(e.message(), "File x already exists");
}
