//! One located chunk of the container: its decoded header, the absolute
//! offset of the header, and the padding accounted to the chunk.

use crate::img_header::{le32_at, ImgHeader, FILE_CHECKSUM_OFFSET, MIN_HEADER_LEN};
use vstd::prelude::*;

verus! {

/// A chunk record produced by the scanner.
#[derive(Clone)]
pub struct Img {
    pub header: ImgHeader,
    /// Absolute start of the chunk header in the container.
    pub offset: u64,
    /// Unrecognized bytes immediately preceding this chunk; 0 for the first.
    pub padding: u64,
}

impl Img {
    pub fn new(header: ImgHeader, offset: u64, padding: u64) -> (r: Self)
        ensures
            r.header == header,
            r.offset == offset,
            r.padding == padding,
    {
        Img { header, offset, padding }
    }

    /// The container range of this chunk's fixed header: its absolute offset
    /// and the fixed header size.
    pub fn header_range(&self) -> (r: (u64, u64))
        ensures
            r.0 == self.offset,
            r.1 == MIN_HEADER_LEN as u64,
    {
        (self.offset, MIN_HEADER_LEN as u64)
    }

    /// The container range of this chunk's stored checksum field: it follows
    /// the fixed header region and runs for `header length - 98` bytes.
    /// `None` only when the start would not fit in a byte offset.
    pub fn checksum_field_range(&self) -> (r: Option<(u64, u64)>)
        requires
            self.header.wf(),
        ensures
            r is Some <==> self.offset + FILE_CHECKSUM_OFFSET <= u64::MAX,
            r is Some ==> (r->0).0 == self.offset + FILE_CHECKSUM_OFFSET,
            r is Some ==> (r->0).1 as nat == le32_at(self.header.header_len@, 0) - MIN_HEADER_LEN,
    {
        if self.offset <= u64::MAX - FILE_CHECKSUM_OFFSET {
            Some((self.offset + FILE_CHECKSUM_OFFSET, self.header.filechecksumsize() as u64))
        } else {
            None
        }
    }

    /// The container range of this chunk's payload: it follows the whole
    /// header (fixed region plus stored checksum field) and runs for the
    /// declared payload size. `None` only when the start would not fit in a
    /// byte offset.
    pub fn payload_range(&self) -> (r: Option<(u64, u64)>)
        requires
            self.header.wf(),
        ensures
            r is Some <==> self.offset + le32_at(self.header.header_len@, 0) <= u64::MAX,
            r is Some ==> (r->0).0 == self.offset + le32_at(self.header.header_len@, 0),
            r is Some ==> (r->0).1 as nat == le32_at(self.header.file_size@, 0),
    {
        let hs = self.header.headersize();
        if self.offset <= u64::MAX - hs {
            Some((self.offset + hs, self.header.filesize()))
        } else {
            None
        }
    }
}

} // verus!
