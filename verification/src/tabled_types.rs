//! Glue types consumed by display collaborators: values kept at their stored
//! width for hexadecimal rendering, and raw byte arrays.

use crate::img_header::{le128_at, le16_at, le32_at, le64_at, read_le_u128, read_le_u16, read_le_u32, read_le_u64};
use vstd::prelude::*;

verus! {

/// A little-endian value at its stored width, for hexadecimal rendering.
#[derive(Debug, Clone, Copy, PartialEq, Eq, Structural)]
pub enum HexValue {
    U8(u8),
    U16(u16),
    U32(u32),
    U64(u64),
    U128(u128),
}

impl HexValue {
    /// Decodes a little-endian value at the width of the slice; only the
    /// stored field widths are admissible.
    pub fn from(values: &[u8]) -> (r: HexValue)
        requires
            values@.len() == 1 || values@.len() == 2 || values@.len() == 4 || values@.len() == 8
                || values@.len() == 16,
        ensures
            values@.len() == 1 ==> r == HexValue::U8(values@[0]),
            values@.len() == 2 ==> r == HexValue::U16(le16_at(values@, 0) as u16),
            values@.len() == 4 ==> r == HexValue::U32(le32_at(values@, 0) as u32),
            values@.len() == 8 ==> r == HexValue::U64(le64_at(values@, 0) as u64),
            values@.len() == 16 ==> r == HexValue::U128(le128_at(values@, 0) as u128),
    {
        let n = values.len();
        if n == 1 {
            HexValue::U8(*vstd::slice::slice_index_get(values, 0))
        } else if n == 2 {
            HexValue::U16(read_le_u16(values, 0))
        } else if n == 4 {
            HexValue::U32(read_le_u32(values, 0))
        } else if n == 8 {
            HexValue::U64(read_le_u64(values, 0))
        } else {
            HexValue::U128(read_le_u128(values, 0))
        }
    }
}

/// A raw run of bytes, kept for byte-by-byte hexadecimal rendering.
#[derive(Debug, Clone)]
pub struct ArrayValue(pub Vec<u8>);

impl ArrayValue {
    /// Copies the bytes of the slice.
    pub fn from(slice: &[u8]) -> (r: ArrayValue)
        ensures
            r.0@ == slice@,
    {
        ArrayValue(vstd::slice::slice_to_vec(slice))
    }
}

} // verus!
