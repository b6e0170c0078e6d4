//! Header rows prepared for display collaborators: one entry shape for the
//! summary table, one for CSV export. The rendering itself is done outside
//! the library; these types carry the decoded values.

use crate::img_header::{le16_at, le32_at, le64_at, ImgHeader};
use crate::tabled_types::{ArrayValue, HexValue};
use crate::utils::{remove_null_bytes, string_from_utf8_lossy, strip_trailing_nulls, utf8_lossy};
use vstd::prelude::*;

verus! {

/// One chunk header prepared for the summary table: raw fields kept as
/// bytes, sizes decoded little-endian, the file name decoded lossily.
#[derive(Debug)]
pub struct TableEntry {
    pub header_len: u32,
    pub unknown_field: ArrayValue,
    pub hardware_id: ArrayValue,
    pub file_sequence: ArrayValue,
    pub file_size: u32,
    pub file_date: ArrayValue,
    pub file_time: ArrayValue,
    pub file_type: String,
    pub header_checksum: HexValue,
    pub blocksize_raw: ArrayValue,
    pub blocksize: u64,
    pub file_checksum_size: u32,
}

impl TableEntry {
    pub fn from(header: &ImgHeader) -> (r: TableEntry)
        requires
            header.wf(),
        ensures
            r.header_len as nat == le32_at(header.header_len@, 0),
            r.unknown_field.0@ == header.unknown_field@,
            r.hardware_id.0@ == header.hardware_id@,
            r.file_sequence.0@ == header.file_sequence@,
            r.file_size as nat == le32_at(header.file_size@, 0),
            r.file_date.0@ == header.file_date@,
            r.file_time.0@ == header.file_time@,
            r.file_type@ == utf8_lossy(strip_trailing_nulls(header.file_type@)),
            r.header_checksum == HexValue::U16(le16_at(header.header_checksum@, 0) as u16),
            r.blocksize_raw.0@ == header.blocksize@,
            r.blocksize as nat == le32_at(header.blocksize@, 0),
            r.file_checksum_size == header.file_checksum_size,
    {
        TableEntry {
            header_len: crate::img_header::read_le_u32(header.header_len.as_slice(), 0),
            unknown_field: ArrayValue::from(header.unknown_field.as_slice()),
            hardware_id: ArrayValue::from(header.hardware_id.as_slice()),
            file_sequence: ArrayValue::from(header.file_sequence.as_slice()),
            file_size: crate::img_header::read_le_u32(header.file_size.as_slice(), 0),
            file_date: ArrayValue::from(header.file_date.as_slice()),
            file_time: ArrayValue::from(header.file_time.as_slice()),
            file_type: header.filename_lossy(),
            header_checksum: HexValue::from(header.header_checksum.as_slice()),
            blocksize_raw: ArrayValue::from(header.blocksize.as_slice()),
            blocksize: header.blocksize(),
            file_checksum_size: header.file_checksum_size,
        }
    }
}

/// One chunk header prepared for CSV export: every field decoded to a plain
/// value, the text fields NUL-stripped and decoded lossily.
#[derive(Debug)]
pub struct CsvEntry {
    pub header_len: u32,
    pub unknown_field: u32,
    pub hardware_id: u64,
    pub file_sequence: u32,
    pub file_size: u32,
    pub file_date: String,
    pub file_time: String,
    pub file_type: String,
    pub header_checksum: u16,
    pub blocksize: u32,
    pub file_checksum_size: u32,
}

impl CsvEntry {
    pub fn from(header: &ImgHeader) -> (r: CsvEntry)
        requires
            header.wf(),
        ensures
            r.header_len as nat == le32_at(header.header_len@, 0),
            r.unknown_field as nat == le32_at(header.unknown_field@, 0),
            r.hardware_id as nat == le64_at(header.hardware_id@, 0),
            r.file_sequence as nat == le32_at(header.file_sequence@, 0),
            r.file_size as nat == le32_at(header.file_size@, 0),
            r.file_date@ == utf8_lossy(strip_trailing_nulls(header.file_date@)),
            r.file_time@ == utf8_lossy(strip_trailing_nulls(header.file_time@)),
            r.file_type@ == utf8_lossy(strip_trailing_nulls(header.file_type@)),
            r.header_checksum as nat == le16_at(header.header_checksum@, 0),
            r.blocksize as nat == le32_at(header.blocksize@, 0),
            r.file_checksum_size == header.file_checksum_size,
    {
        let date = remove_null_bytes(header.file_date.as_slice());
        let time = remove_null_bytes(header.file_time.as_slice());
        CsvEntry {
            header_len: crate::img_header::read_le_u32(header.header_len.as_slice(), 0),
            unknown_field: crate::img_header::read_le_u32(header.unknown_field.as_slice(), 0),
            hardware_id: crate::img_header::read_le_u64(header.hardware_id.as_slice(), 0),
            file_sequence: crate::img_header::read_le_u32(header.file_sequence.as_slice(), 0),
            file_size: crate::img_header::read_le_u32(header.file_size.as_slice(), 0),
            file_date: string_from_utf8_lossy(&date),
            file_time: string_from_utf8_lossy(&time),
            file_type: header.filename_lossy(),
            header_checksum: crate::img_header::read_le_u16(header.header_checksum.as_slice(), 0),
            blocksize: crate::img_header::read_le_u32(header.blocksize.as_slice(), 0),
            file_checksum_size: header.file_checksum_size,
        }
    }
}

} // verus!
