//! The fixed-layout header of one chunk of the container.
//!
//! Each chunk starts with the magic sequence `55 AA 5A A5`, followed by
//! - 4 bytes: header length (total header size including the checksum field),
//! - 4 bytes: unknown/reserved,
//! - 8 bytes: hardware id,
//! - 4 bytes: file sequence,
//! - 4 bytes: payload size,
//! - 16 bytes: file date text,
//! - 16 bytes: file time text,
//! - 32 bytes: file name text, NUL-padded,
//! - 2 bytes: header checksum,
//! - 4 bytes: block size,
//! - `header length - 98` bytes: stored checksum data,
//! - payload-size bytes of payload.
//!
//! All multi-byte integers are little-endian.

pub mod display;

use crate::local_error::{Error, FormatError};
use crate::utils::{remove_null_bytes, string_from_utf8, string_from_utf8_lossy, strip_trailing_nulls, utf8_lossy, utf8_seq};
use vstd::prelude::*;

verus! {

/// The smallest admissible header length: the fixed header layout without any
/// stored checksum data.
pub const MIN_HEADER_LEN: u32 = 98;

/// Offset of the stored checksum field from the start of a chunk.
pub const FILE_CHECKSUM_OFFSET: u64 = 98;

/// The little-endian value of the 2 bytes of `s` starting at `p`.
pub open spec fn le16_at(s: Seq<u8>, p: int) -> nat {
    (s[p] as nat) + 0x100 * (s[p + 1] as nat)
}

/// The little-endian value of the 4 bytes of `s` starting at `p`.
pub open spec fn le32_at(s: Seq<u8>, p: int) -> nat {
    (s[p] as nat) + 0x100 * (s[p + 1] as nat) + 0x1_0000 * (s[p + 2] as nat) + 0x100_0000 * (s[p
        + 3] as nat)
}

/// The little-endian value of the 8 bytes of `s` starting at `p`.
pub open spec fn le64_at(s: Seq<u8>, p: int) -> nat {
    le32_at(s, p) + 0x1_0000_0000 * le32_at(s, p + 4)
}

/// The little-endian value of the 16 bytes of `s` starting at `p`.
pub open spec fn le128_at(s: Seq<u8>, p: int) -> nat {
    le64_at(s, p) + 0x1_0000_0000_0000_0000 * le64_at(s, p + 8)
}

/// The 4-byte magic sequence `55 AA 5A A5` stands at position `p` of `s`.
pub open spec fn magic_at(s: Seq<u8>, p: int) -> bool {
    &&& s[p] == 0x55
    &&& s[p + 1] == 0xaa
    &&& s[p + 2] == 0x5a
    &&& s[p + 3] == 0xa5
}

pub fn read_le_u16(data: &[u8], pos: usize) -> (r: u16)
    requires
        pos + 2 <= data@.len(),
    ensures
        r as nat == le16_at(data@, pos as int),
{
    (data[pos] as u16) + 0x100 * (data[pos + 1] as u16)
}

pub fn read_le_u32(data: &[u8], pos: usize) -> (r: u32)
    requires
        pos + 4 <= data@.len(),
    ensures
        r as nat == le32_at(data@, pos as int),
{
    (data[pos] as u32) + 0x100 * (data[pos + 1] as u32) + 0x1_0000 * (data[pos + 2] as u32)
        + 0x100_0000 * (data[pos + 3] as u32)
}

pub fn read_le_u64(data: &[u8], pos: usize) -> (r: u64)
    requires
        pos + 8 <= data@.len(),
    ensures
        r as nat == le64_at(data@, pos as int),
{
    let n = data.len();
    let lo = read_le_u32(data, pos);
    let hi = read_le_u32(data, pos + 4);
    (lo as u64) + 0x1_0000_0000 * (hi as u64)
}

pub fn read_le_u128(data: &[u8], pos: usize) -> (r: u128)
    requires
        pos + 16 <= data@.len(),
    ensures
        r as nat == le128_at(data@, pos as int),
{
    let n = data.len();
    let lo = read_le_u64(data, pos);
    let hi = read_le_u64(data, pos + 8);
    (lo as u128) + 0x1_0000_0000_0000_0000 * (hi as u128)
}

/// A decoded chunk header. The raw bytes of each field are kept as read from
/// the container; the integer accessors decode them little-endian.
#[derive(Clone)]
pub struct ImgHeader {
    pub header_len: Vec<u8>,
    pub unknown_field: Vec<u8>,
    pub hardware_id: Vec<u8>,
    pub file_sequence: Vec<u8>,
    pub file_size: Vec<u8>,
    pub file_date: Vec<u8>,
    pub file_time: Vec<u8>,
    pub file_type: Vec<u8>,
    pub header_checksum: Vec<u8>,
    pub blocksize: Vec<u8>,
    /// Derived: `header length - 98`, the size of the stored checksum field.
    pub file_checksum_size: u32,
}

impl ImgHeader {
    /// Field widths as laid out in the container, a header length of at least
    /// the minimum, and the derived checksum-field size.
    pub open spec fn wf(self) -> bool {
        &&& self.header_len@.len() == 4
        &&& self.unknown_field@.len() == 4
        &&& self.hardware_id@.len() == 8
        &&& self.file_sequence@.len() == 4
        &&& self.file_size@.len() == 4
        &&& self.file_date@.len() == 16
        &&& self.file_time@.len() == 16
        &&& self.file_type@.len() == 32
        &&& self.header_checksum@.len() == 2
        &&& self.blocksize@.len() == 4
        &&& le32_at(self.header_len@, 0) >= MIN_HEADER_LEN
        &&& self.file_checksum_size as nat == le32_at(self.header_len@, 0) - MIN_HEADER_LEN
    }

    /// The header's fields are exactly the layout's subranges of `d`.
    pub open spec fn decodes_from(self, d: Seq<u8>) -> bool {
        &&& self.header_len@ == d.subrange(4, 8)
        &&& self.unknown_field@ == d.subrange(8, 12)
        &&& self.hardware_id@ == d.subrange(12, 20)
        &&& self.file_sequence@ == d.subrange(20, 24)
        &&& self.file_size@ == d.subrange(24, 28)
        &&& self.file_date@ == d.subrange(28, 44)
        &&& self.file_time@ == d.subrange(44, 60)
        &&& self.file_type@ == d.subrange(60, 92)
        &&& self.header_checksum@ == d.subrange(92, 94)
        &&& self.blocksize@ == d.subrange(94, 98)
        &&& self.file_checksum_size as nat == le32_at(d, 4) - MIN_HEADER_LEN
    }

    /// Decodes a header from the start of `data`. Fails when fewer than the
    /// minimum header size bytes are available, when the data does not start
    /// with the magic sequence, or when the decoded header length is below the
    /// minimum; succeeds on everything else.
    pub fn try_from(data: &[u8]) -> (r: Result<ImgHeader, FormatError>)
        ensures
            data@.len() < MIN_HEADER_LEN ==> r == Err::<ImgHeader, FormatError>(
                FormatError::NotEnoughData,
            ),
            data@.len() >= MIN_HEADER_LEN && !magic_at(data@, 0) ==> r == Err::<
                ImgHeader,
                FormatError,
            >(FormatError::NoMagicNumber),
            data@.len() >= MIN_HEADER_LEN && magic_at(data@, 0) && le32_at(data@, 4)
                < MIN_HEADER_LEN ==> r == Err::<ImgHeader, FormatError>(FormatError::HeaderTooSmall),
            data@.len() >= MIN_HEADER_LEN && magic_at(data@, 0) && le32_at(data@, 4)
                >= MIN_HEADER_LEN ==> {
                &&& r is Ok
                &&& r->Ok_0.wf()
                &&& r->Ok_0.decodes_from(data@)
            },
    {
        if data.len() < 98 {
            return Err(FormatError::NotEnoughData);
        }
        if !(data[0] == 0x55 && data[1] == 0xaa && data[2] == 0x5a && data[3] == 0xa5) {
            return Err(FormatError::NoMagicNumber);
        }
        let header_len_value = read_le_u32(data, 4);
        if header_len_value < 98 {
            return Err(FormatError::HeaderTooSmall);
        }
        let img = ImgHeader {
            header_len: vstd::slice::slice_to_vec(&data[4..8]),
            unknown_field: vstd::slice::slice_to_vec(&data[8..12]),
            hardware_id: vstd::slice::slice_to_vec(&data[12..20]),
            file_sequence: vstd::slice::slice_to_vec(&data[20..24]),
            file_size: vstd::slice::slice_to_vec(&data[24..28]),
            file_date: vstd::slice::slice_to_vec(&data[28..44]),
            file_time: vstd::slice::slice_to_vec(&data[44..60]),
            file_type: vstd::slice::slice_to_vec(&data[60..92]),
            header_checksum: vstd::slice::slice_to_vec(&data[92..94]),
            blocksize: vstd::slice::slice_to_vec(&data[94..98]),
            file_checksum_size: header_len_value - 98,
        };
        proof {
            assert(le32_at(img.header_len@, 0) == le32_at(data@, 4));
        }
        Ok(img)
    }

    /// The file name: the NUL-stripped name bytes, strictly decoded as UTF-8;
    /// fails exactly when they are not valid UTF-8.
    pub fn filename(&self) -> (r: Result<String, Error>)
        requires
            self.wf(),
        ensures
            r is Ok <==> utf8_seq(strip_trailing_nulls(self.file_type@)) is Some,
            r is Ok ==> r->Ok_0@ == utf8_seq(strip_trailing_nulls(self.file_type@))->0,
    {
        let stripped = remove_null_bytes(self.file_type.as_slice());
        match string_from_utf8(stripped) {
            Some(s) => Ok(s),
            None => Err(Error::new("file name is not valid utf-8".to_owned())),
        }
    }

    /// The file name, decoded with lossy replacement of invalid sequences;
    /// when the name bytes are valid UTF-8 it equals the strict decode.
    pub fn filename_lossy(&self) -> (r: String)
        requires
            self.wf(),
        ensures
            r@ == utf8_lossy(strip_trailing_nulls(self.file_type@)),
            utf8_seq(strip_trailing_nulls(self.file_type@)) is Some ==> r@ == utf8_seq(
                strip_trailing_nulls(self.file_type@),
            )->0,
    {
        let stripped = remove_null_bytes(self.file_type.as_slice());
        string_from_utf8_lossy(&stripped)
    }

    /// The payload size in bytes.
    pub fn filesize(&self) -> (r: u64)
        requires
            self.wf(),
        ensures
            r as nat == le32_at(self.file_size@, 0),
    {
        read_le_u32(self.file_size.as_slice(), 0) as u64
    }

    /// The full span of the chunk in bytes: header plus payload.
    pub fn offset(&self) -> (r: u64)
        requires
            self.wf(),
        ensures
            r as nat == le32_at(self.file_size@, 0) + le32_at(self.header_len@, 0),
    {
        self.filesize() + self.headersize()
    }

    /// The length of the header in bytes, including the stored checksum field.
    pub fn headersize(&self) -> (r: u64)
        requires
            self.wf(),
        ensures
            r as nat == le32_at(self.header_len@, 0),
            r >= MIN_HEADER_LEN,
    {
        read_le_u32(self.header_len.as_slice(), 0) as u64
    }

    /// The block size granularity for the checksum engine.
    pub fn blocksize(&self) -> (r: u64)
        requires
            self.wf(),
        ensures
            r as nat == le32_at(self.blocksize@, 0),
    {
        read_le_u32(self.blocksize.as_slice(), 0) as u64
    }

    /// The size of the stored checksum field: `header length - 98`.
    pub fn filechecksumsize(&self) -> (r: usize)
        requires
            self.wf(),
        ensures
            r == self.file_checksum_size as usize,
            r as nat == le32_at(self.header_len@, 0) - MIN_HEADER_LEN,
    {
        self.file_checksum_size as usize
    }
}

} // verus!
