//! The container scanner: a resynchronizing linear walk over the input bytes.
//!
//! The container starts with a fixed-length run of zero bytes (the validation
//! preamble); after it, chunks interleaved with padding bytes. The scanner
//! tries to decode a chunk header at the cursor; on success it records the
//! chunk and jumps over header and payload, on failure it advances one byte
//! and counts the byte as padding for the chunk that is found next.

use crate::img::Img;
use crate::img_header::{le32_at, magic_at, ImgHeader, MIN_HEADER_LEN};
use crate::local_error::FormatError;
use vstd::prelude::*;

verus! {

/// Length in bytes of the all-zero validation preamble.
pub const PREAMBLE_LEN: usize = 92;

/// A located chunk in the spec-level scan: the absolute offset of its header
/// and the padding accounted to it.
pub struct ChunkRec {
    pub offset: nat,
    pub padding: nat,
}

/// The header length stored at position `p`.
pub open spec fn header_len_at(data: Seq<u8>, p: int) -> nat {
    le32_at(data, p + 4)
}

/// The payload size stored at position `p`.
pub open spec fn payload_size_at(data: Seq<u8>, p: int) -> nat {
    le32_at(data, p + 24)
}

/// The full span in bytes of the chunk whose header stands at `p`: header
/// (including the stored checksum field) plus payload.
pub open spec fn chunk_span(data: Seq<u8>, p: int) -> nat {
    header_len_at(data, p) + payload_size_at(data, p)
}

/// A decodable chunk header stands at `p`: the magic sequence followed by an
/// admissible header length.
pub open spec fn header_at(data: Seq<u8>, p: int) -> bool {
    magic_at(data, p) && header_len_at(data, p) >= MIN_HEADER_LEN
}

/// The cursor position after the chunk at `p`, clamped to the container end.
pub open spec fn next_cursor(data: Seq<u8>, p: nat) -> nat {
    if p + chunk_span(data, p as int) >= data.len() {
        data.len()
    } else {
        p + chunk_span(data, p as int)
    }
}

/// The records the scan emits from `cursor` on, with `pad` padding bytes
/// accumulated since the previous record; `first` marks that no record has
/// been emitted yet (the first chunk's padding is 0 by definition).
pub open spec fn scan_from(data: Seq<u8>, cursor: nat, pad: nat, first: bool) -> Seq<ChunkRec>
    decreases data.len() - cursor,
{
    if cursor + MIN_HEADER_LEN < data.len() {
        if header_at(data, cursor as int) {
            seq![ChunkRec { offset: cursor, padding: if first { 0nat } else { pad } }]
                + scan_from(data, next_cursor(data, cursor), 0, false)
        } else {
            scan_from(data, cursor + 1, pad + 1, first)
        }
    } else {
        Seq::empty()
    }
}

/// The records of the full scan, starting right after the preamble.
pub open spec fn scan_spec(data: Seq<u8>) -> Seq<ChunkRec> {
    scan_from(data, PREAMBLE_LEN as nat, 0, true)
}

/// The abstract record carried by an exec chunk record.
pub open spec fn rec_of(im: Img) -> ChunkRec {
    ChunkRec { offset: im.offset as nat, padding: im.padding as nat }
}

/// The abstract records carried by a sequence of exec chunk records.
pub open spec fn recs_of(parts: Seq<Img>) -> Seq<ChunkRec> {
    parts.map_values(|im: Img| rec_of(im))
}

/// Every header of `parts` is well-formed and decoded from the 98-byte window
/// at its record's offset in `data`.
pub open spec fn headers_match(parts: Seq<Img>, data: Seq<u8>) -> bool {
    forall|i: int| 0 <= i < parts.len() ==> {
        &&& (#[trigger] parts[i]).offset + MIN_HEADER_LEN < data.len()
        &&& parts[i].header.wf()
        &&& parts[i].header.decodes_from(
            data.subrange(parts[i].offset as int, parts[i].offset + MIN_HEADER_LEN),
        )
    }
}

/// The chunk records are exactly those of the spec-level scan of `data`, and
/// each carries the header decoded at its offset.
pub open spec fn parts_match(parts: Seq<Img>, data: Seq<u8>) -> bool {
    &&& recs_of(parts) == scan_spec(data)
    &&& headers_match(parts, data)
}

/// The bytes left after the last located chunk's declared payload end, or 0
/// when no chunk was located or the last chunk claims past the container end.
pub open spec fn spec_trailing(data: Seq<u8>) -> nat {
    let rs = scan_spec(data);
    if rs.len() == 0 {
        0
    } else {
        let last_end = rs.last().offset + chunk_span(data, rs.last().offset as int);
        if last_end <= data.len() {
            (data.len() - last_end) as nat
        } else {
            0
        }
    }
}

/// The container being scanned: the raw bytes, the located chunks, the input
/// size, and the name the bytes came from.
pub struct Input {
    data: Vec<u8>,
    img_parts: Vec<Img>,
    /// Size of the input data in bytes.
    pub size: u64,
    filename: String,
}

impl Input {
    pub closed spec fn spec_data(&self) -> Seq<u8> {
        self.data@
    }

    pub closed spec fn spec_parts(&self) -> Seq<Img> {
        self.img_parts@
    }

    pub closed spec fn spec_filename(&self) -> Seq<char> {
        self.filename@
    }

    pub closed spec fn spec_size(&self) -> u64 {
        self.size
    }

    /// The recorded size is the length of the data.
    pub closed spec fn wf(&self) -> bool {
        self.size == self.data@.len()
    }

    pub fn new(data: Vec<u8>, filename: String) -> (r: Self)
        ensures
            r.wf(),
            r.spec_data() == data@,
            r.spec_parts().len() == 0,
            r.spec_size() == data@.len(),
            r.spec_filename() == filename@,
    {
        let size = data.len() as u64;
        Input { data, img_parts: Vec::new(), size, filename }
    }

    /// The name the data came from.
    pub fn filename(&self) -> (r: &String)
        ensures
            r@ == self.spec_filename(),
    {
        &self.filename
    }

    /// The located chunks, in container order.
    pub fn img_parts(&self) -> (r: &Vec<Img>)
        ensures
            r@ == self.spec_parts(),
    {
        &self.img_parts
    }

    /// The raw container bytes.
    pub fn data(&self) -> (r: &Vec<u8>)
        ensures
            r@ == self.spec_data(),
    {
        &self.data
    }

    /// Validates the preamble: the container must start with `PREAMBLE_LEN`
    /// zero bytes; fails with `InvalidPreamble` otherwise.
    pub fn validate(&self) -> (r: Result<(), FormatError>)
        requires
            self.wf(),
        ensures
            r is Ok <==> (self.spec_data().len() >= PREAMBLE_LEN && (forall|i: int|
                0 <= i < PREAMBLE_LEN ==> self.spec_data()[i] == 0)),
            r is Err ==> r == Err::<(), FormatError>(FormatError::InvalidPreamble),
    {
        if self.data.len() < 92 {
            return Err(FormatError::InvalidPreamble);
        }
        let mut i: usize = 0;
        while i < 92
            invariant
                i <= 92,
                self.data@.len() >= 92,
                forall|j: int| 0 <= j < i as int ==> self.data@[j] == 0,
            decreases 92 - i,
        {
            if *vstd::slice::slice_index_get(self.data.as_slice(), i) != 0 {
                return Err(FormatError::InvalidPreamble);
            }
            i += 1;
        }
        Ok(())
    }

    /// Scans the whole container. Each decodable header found becomes one
    /// record holding its offset and the count of unrecognized bytes since
    /// the previous chunk (0 for the first chunk); a failed decode advances
    /// the cursor a single byte. In-memory scanning cannot fail: the result
    /// is always `Ok` and format errors only steer resynchronization.
    pub fn parse(&mut self) -> (r: Result<(), FormatError>)
        requires
            old(self).wf(),
            old(self).spec_parts().len() == 0,
        ensures
            r is Ok,
            final(self).wf(),
            final(self).spec_data() == old(self).spec_data(),
            final(self).spec_size() == old(self).spec_size(),
            final(self).spec_filename() == old(self).spec_filename(),
            parts_match(final(self).spec_parts(), final(self).spec_data()),
    {
        let end = self.data.len();
        let mut cursor: usize = 92;
        let mut padding: u64 = 0;
        while end > 98 && cursor < end - 98
            invariant
                self.wf(),
                end == self.data@.len(),
                self.data@ == old(self).data@,
                self.size == old(self).size,
                self.filename == old(self).filename,
                92 <= cursor,
                cursor <= end || cursor == 92,
                padding as nat <= cursor,
                scan_spec(self.data@) == recs_of(self.img_parts@) + scan_from(
                    self.data@,
                    cursor as nat,
                    padding as nat,
                    self.img_parts@.len() == 0,
                ),
                headers_match(self.img_parts@, self.data@),
            decreases end - cursor,
        {
            let ghost pre_parts = self.img_parts@;
            let ghost c0: int = cursor as int;
            let ghost p0 = padding as nat;
            let ghost first0 = self.img_parts@.len() == 0;
            let window = vstd::slice::slice_subrange(self.data.as_slice(), cursor, cursor + 98);
            let ghost w = window@;
            proof {
                assert(w == self.data@.subrange(c0, c0 + 98));
                assert(w.len() == 98);
                assert(w[0] == self.data@[c0]);
                assert(w[1] == self.data@[c0 + 1]);
                assert(w[2] == self.data@[c0 + 2]);
                assert(w[3] == self.data@[c0 + 3]);
                assert(magic_at(w, 0) == magic_at(self.data@, c0));
                assert(w[4] == self.data@[c0 + 4]);
                assert(w[5] == self.data@[c0 + 5]);
                assert(w[6] == self.data@[c0 + 6]);
                assert(w[7] == self.data@[c0 + 7]);
                assert(le32_at(w, 4) == le32_at(self.data@, c0 + 4));
            }
            match ImgHeader::try_from(window) {
                Ok(header) => {
                    proof {
                        assert(header_at(self.data@, c0));
                    }
                    let hs = header.headersize();
                    let fs = header.filesize();
                    proof {
                        assert(header.header_len@ == w.subrange(4, 8));
                        assert(w.subrange(4, 8)[0] == w[4]);
                        assert(w.subrange(4, 8)[1] == w[5]);
                        assert(w.subrange(4, 8)[2] == w[6]);
                        assert(w.subrange(4, 8)[3] == w[7]);
                        assert(le32_at(header.header_len@, 0) == le32_at(w, 4));
                        assert(hs as nat == header_len_at(self.data@, c0));
                        assert(header.file_size@ == w.subrange(24, 28));
                        assert(le32_at(header.file_size@, 0) == le32_at(w, 24));
                        assert(le32_at(w, 24) == le32_at(self.data@, c0 + 24));
                        assert(fs as nat == payload_size_at(self.data@, c0));
                    }
                    let span = hs + fs;
                    let pad_here = if self.img_parts.len() == 0 {
                        0u64
                    } else {
                        padding
                    };
                    let ghost rec = ChunkRec { offset: c0 as nat, padding: if first0 { 0nat } else { p0 } };
                    self.img_parts.push(Img::new(header, cursor as u64, pad_here));
                    let room = (end - cursor) as u64;
                    if span >= room {
                        cursor = end;
                    } else {
                        cursor = cursor + (span as usize);
                    }
                    padding = 0;
                    proof {
                        assert(span as nat == chunk_span(self.data@, c0));
                        assert(cursor as nat == next_cursor(self.data@, c0 as nat));
                        assert(scan_from(self.data@, c0 as nat, p0, first0) == seq![rec] + scan_from(
                            self.data@,
                            next_cursor(self.data@, c0 as nat),
                            0,
                            false,
                        ));
                        assert(rec_of(self.img_parts@.last()) == rec);
                        assert(recs_of(self.img_parts@) =~= recs_of(pre_parts) + seq![rec]);
                        assert(recs_of(pre_parts) + (seq![rec] + scan_from(
                            self.data@,
                            cursor as nat,
                            0,
                            false,
                        )) =~= (recs_of(pre_parts) + seq![rec]) + scan_from(
                            self.data@,
                            cursor as nat,
                            0,
                            false,
                        ));
                        assert(self.img_parts@.len() > 0);
                        assert(headers_match(self.img_parts@, self.data@));
                    }
                }
                Err(_) => {
                    proof {
                        assert(!header_at(self.data@, c0));
                        assert(scan_from(self.data@, c0 as nat, p0, first0) == scan_from(
                            self.data@,
                            (c0 + 1) as nat,
                            p0 + 1,
                            first0,
                        ));
                    }
                    padding = padding + 1;
                    cursor = cursor + 1;
                }
            }
        }
        proof {
            assert(scan_from(
                self.data@,
                cursor as nat,
                padding as nat,
                self.img_parts@.len() == 0,
            ) =~= Seq::<ChunkRec>::empty());
            assert(recs_of(self.img_parts@) + Seq::<ChunkRec>::empty() =~= recs_of(
                self.img_parts@,
            ));
        }
        Ok(())
    }

    /// The trailing size: bytes after the last located chunk's payload end,
    /// up to the container end, so that they are not left unaccounted; 0 when
    /// the container ends exactly at the last payload, when the last chunk
    /// claims more bytes than exist, or when no chunk was located.
    pub fn trailing_size(&self) -> (r: u64)
        requires
            self.wf(),
            parts_match(self.spec_parts(), self.spec_data()),
        ensures
            r as nat == spec_trailing(self.spec_data()),
    {
        let n = self.img_parts.len();
        if n == 0 {
            return 0;
        }
        let ghost rs = scan_spec(self.data@);
        let ghost off = self.img_parts@[n - 1].offset as int;
        proof {
            assert(rec_of(self.img_parts@[n - 1]) == rs[n - 1]);
            assert(rs.last() == rs[n - 1]);
        }
        let last = &self.img_parts[n - 1];
        let hs = last.header.headersize();
        let fs = last.header.filesize();
        proof {
            let w = self.data@.subrange(off, off + MIN_HEADER_LEN);
            assert(last.header.decodes_from(w));
            assert(last.header.header_len@ == w.subrange(4, 8));
            assert(w.subrange(4, 8)[0] == w[4] && w[4] == self.data@[off + 4]);
            assert(w.subrange(4, 8)[1] == w[5] && w[5] == self.data@[off + 5]);
            assert(w.subrange(4, 8)[2] == w[6] && w[6] == self.data@[off + 6]);
            assert(w.subrange(4, 8)[3] == w[7] && w[7] == self.data@[off + 7]);
            assert(le32_at(last.header.header_len@, 0) == le32_at(self.data@, off + 4));
            assert(hs as nat == header_len_at(self.data@, off));
            assert(last.header.file_size@ == w.subrange(24, 28));
            assert(w.subrange(24, 28)[0] == w[24] && w[24] == self.data@[off + 24]);
            assert(w.subrange(24, 28)[1] == w[25] && w[25] == self.data@[off + 25]);
            assert(w.subrange(24, 28)[2] == w[26] && w[26] == self.data@[off + 26]);
            assert(w.subrange(24, 28)[3] == w[27] && w[27] == self.data@[off + 27]);
            assert(le32_at(last.header.file_size@, 0) == le32_at(self.data@, off + 24));
            assert(fs as nat == payload_size_at(self.data@, off));
        }
        let span = hs + fs;
        let last_end = (last.offset as u128) + (span as u128);
        if (self.size as u128) > last_end {
            ((self.size as u128) - last_end) as u64
        } else {
            0
        }
    }
}

/// One stretch of a synthetically built container: a (possibly empty) run of
/// padding bytes, then one encoded chunk.
pub struct Segment {
    pub gap: Seq<u8>,
    pub chunk: Seq<u8>,
}

/// No byte of the gap can start a header: none equals the first magic byte.
pub open spec fn gap_ok(g: Seq<u8>) -> bool {
    forall|i: int| 0 <= i < g.len() ==> g[i] != 0x55
}

/// A well-formed encoded chunk: it starts with a decodable header, and its
/// length is exactly the header length plus the payload size it declares.
pub open spec fn chunk_ok(c: Seq<u8>) -> bool {
    &&& c.len() >= MIN_HEADER_LEN
    &&& header_at(c, 0)
    &&& chunk_span(c, 0) == c.len()
}

/// The bytes of a run of segments, concatenated in order.
pub open spec fn segs_bytes(segs: Seq<Segment>) -> Seq<u8>
    decreases segs.len(),
{
    if segs.len() == 0 {
        Seq::empty()
    } else {
        segs[0].gap + segs[0].chunk + segs_bytes(segs.drop_first())
    }
}

/// Every segment holds an impostor-free gap and a well-formed chunk, and the
/// last chunk is longer than the minimum header size, so the scan guard still
/// passes at its offset.
pub open spec fn segs_ok(segs: Seq<Segment>) -> bool {
    &&& forall|i: int|
        0 <= i < segs.len() ==> gap_ok((#[trigger] segs[i]).gap) && chunk_ok(segs[i].chunk)
    &&& segs.len() > 0 ==> segs.last().chunk.len() > MIN_HEADER_LEN
}

/// The records the scan must emit for `segs` laid out from `cursor` onward.
pub open spec fn expected_recs(segs: Seq<Segment>, cursor: nat, pad: nat, first: bool) -> Seq<
    ChunkRec,
>
    decreases segs.len(),
{
    if segs.len() == 0 {
        Seq::empty()
    } else {
        let p = cursor + segs[0].gap.len();
        seq![
            ChunkRec {
                offset: p,
                padding: if first {
                    0nat
                } else {
                    pad + segs[0].gap.len()
                },
            },
        ] + expected_recs(segs.drop_first(), p + segs[0].chunk.len(), 0, false)
    }
}

proof fn lemma_segs_bytes_min(segs: Seq<Segment>)
    requires
        forall|i: int| 0 <= i < segs.len() ==> chunk_ok((#[trigger] segs[i]).chunk),
        segs.len() > 0 ==> segs.last().chunk.len() > MIN_HEADER_LEN,
    ensures
        segs.len() > 0 ==> segs_bytes(segs).len() > MIN_HEADER_LEN,
    decreases segs.len(),
{
    if segs.len() == 1 {
        assert(segs.last() == segs[0]);
    } else if segs.len() > 1 {
        let rest = segs.drop_first();
        assert(forall|i: int| 0 <= i < rest.len() ==> chunk_ok((#[trigger] rest[i]).chunk));
        assert(rest.last() == segs.last());
        lemma_segs_bytes_min(rest);
    }
}

proof fn lemma_scan_step_gap(data: Seq<u8>, cursor: nat, pad: nat, first: bool, g: nat)
    requires
        cursor + g <= data.len(),
        forall|j: int| 0 <= j < g ==> #[trigger] data[cursor + j] != 0x55,
        data.len() > cursor + g + MIN_HEADER_LEN,
    ensures
        scan_from(data, cursor, pad, first) == scan_from(data, cursor + g, pad + g, first),
    decreases g,
{
    if g > 0 {
        assert(data[cursor as int + 0] != 0x55);
        assert(data[cursor as int] == data[cursor as int + 0]);
        assert(!header_at(data, cursor as int));
        assert(scan_from(data, cursor, pad, first) == scan_from(data, cursor + 1, pad + 1, first));
        assert forall|j: int| 0 <= j < g - 1 implies #[trigger] data[cursor + 1 + j] != 0x55 by {
            assert(data[cursor + (j + 1)] != 0x55);
        }
        lemma_scan_step_gap(data, cursor + 1, pad + 1, first, (g - 1) as nat);
    }
}

proof fn lemma_scan_segments_from(
    data: Seq<u8>,
    segs: Seq<Segment>,
    cursor: nat,
    pad: nat,
    first: bool,
)
    requires
        cursor <= data.len(),
        data.len() - cursor == segs_bytes(segs).len(),
        forall|j: int| 0 <= j < segs_bytes(segs).len() ==> data[cursor + j] == segs_bytes(segs)[j],
        forall|i: int|
            0 <= i < segs.len() ==> gap_ok((#[trigger] segs[i]).gap) && chunk_ok(segs[i].chunk),
        segs.len() > 0 ==> segs.last().chunk.len() > MIN_HEADER_LEN,
    ensures
        scan_from(data, cursor, pad, first) == expected_recs(segs, cursor, pad, first),
    decreases segs.len(),
{
    if segs.len() == 0 {
        assert(cursor == data.len());
        assert(scan_from(data, cursor, pad, first) =~= Seq::<ChunkRec>::empty());
    } else {
        let g = segs[0].gap;
        let c = segs[0].chunk;
        let rest = segs.drop_first();
        let sb = segs_bytes(segs);
        let sbr = segs_bytes(rest);
        let p = cursor + g.len();
        let p2 = p + c.len();
        let pi = p as int;
        let p2i = p2 as int;
        assert(sb == g + c + sbr);
        assert(gap_ok(g) && chunk_ok(c));
        assert forall|i: int| 0 <= i < rest.len() implies gap_ok((#[trigger] rest[i]).gap)
            && chunk_ok(rest[i].chunk) by {
            assert(rest[i] == segs[i + 1]);
        }
        if rest.len() > 0 {
            assert(rest.last() == segs.last());
        }
        lemma_segs_bytes_min(rest);
        // Byte correspondence for the three regions.
        assert forall|j: int| 0 <= j < g.len() implies #[trigger] data[cursor + j] != 0x55 by {
            assert(data[cursor + j] == sb[j]);
            assert(sb[j] == (g + c)[j]);
            assert((g + c)[j] == g[j]);
            assert(g[j] != 0x55);
        }
        assert forall|j: int| 0 <= j < c.len() implies data[pi + j] == c[j] by {
            let k = g.len() + j;
            assert(data[cursor + k] == sb[k]);
            assert(sb[k] == (g + c)[k]);
            assert((g + c)[k] == c[j]);
        }
        assert forall|j: int| 0 <= j < sbr.len() implies data[p2i + j] == sbr[j] by {
            let k = g.len() + c.len() + j;
            assert(data[cursor + k] == sb[k]);
            assert(sb[k] == sbr[j]);
        }
        // The scan guard holds throughout the gap: what follows it is longer
        // than the minimum header size.
        if rest.len() == 0 {
            assert(sbr.len() == 0);
            assert(c == segs.last().chunk);
            assert(data.len() - p == c.len());
            assert(data.len() > p + MIN_HEADER_LEN);
        } else {
            assert(data.len() - p == c.len() + sbr.len());
            assert(data.len() > p + MIN_HEADER_LEN);
        }
        lemma_scan_step_gap(data, cursor, pad, first, g.len());
        // A decodable header stands at the chunk offset.
        assert(magic_at(c, 0));
        assert(data[pi] == c[0] && data[pi + 1] == c[1] && data[pi + 2] == c[2] && data[pi + 3]
            == c[3]);
        assert(magic_at(data, pi));
        assert(data[pi + 4] == c[4] && data[pi + 5] == c[5] && data[pi + 6] == c[6] && data[pi + 7]
            == c[7]);
        assert(le32_at(data, pi + 4) == le32_at(c, 4));
        assert(header_len_at(data, pi) == header_len_at(c, 0));
        assert(header_at(data, pi));
        // The chunk's declared span is exactly its length, so the scan jumps
        // to the next segment.
        assert(data[pi + 24] == c[24] && data[pi + 25] == c[25] && data[pi + 26] == c[26] && data[pi
            + 27] == c[27]);
        assert(le32_at(data, pi + 24) == le32_at(c, 24));
        assert(chunk_span(data, pi) == chunk_span(c, 0));
        assert(chunk_span(data, pi) == c.len());
        assert(p + chunk_span(data, pi) == p2);
        assert(p2 <= data.len());
        assert(next_cursor(data, p) == p2);
        let rec = ChunkRec {
            offset: p,
            padding: if first {
                0nat
            } else {
                pad + g.len()
            },
        };
        assert(scan_from(data, p, pad + g.len(), first) == seq![rec] + scan_from(
            data,
            p2,
            0,
            false,
        ));
        lemma_scan_segments_from(data, rest, p2, 0, false);
        assert(expected_recs(segs, cursor, pad, first) == seq![rec] + expected_recs(
            rest,
            p2,
            0,
            false,
        ));
    }
}

proof fn lemma_expected_recs_index(segs: Seq<Segment>, cursor: nat, pad: nat, first: bool)
    ensures
        expected_recs(segs, cursor, pad, first).len() == segs.len(),
        forall|i: int|
            0 <= i < segs.len() ==> (#[trigger] expected_recs(segs, cursor, pad, first)[i]).offset
                == cursor + segs_bytes(segs.take(i)).len() + segs[i].gap.len(),
        forall|i: int|
            0 <= i < segs.len() ==> (#[trigger] expected_recs(segs, cursor, pad, first)[i]).padding
                == (if i == 0 {
                    if first {
                        0nat
                    } else {
                        pad + segs[0].gap.len()
                    }
                } else {
                    segs[i].gap.len()
                }),
    decreases segs.len(),
{
    if segs.len() > 0 {
        let g = segs[0].gap;
        let c = segs[0].chunk;
        let rest = segs.drop_first();
        let p = cursor + g.len();
        let p2 = p + c.len();
        lemma_expected_recs_index(rest, p2, 0, false);
        let er = expected_recs(segs, cursor, pad, first);
        let err = expected_recs(rest, p2, 0, false);
        assert(segs.take(0) =~= Seq::<Segment>::empty());
        assert(segs_bytes(segs.take(0)).len() == 0);
        assert(er[0].offset == p);
        assert forall|i: int| 1 <= i < segs.len() implies (#[trigger] er[i]).offset == cursor
            + segs_bytes(segs.take(i)).len() + segs[i].gap.len() && er[i].padding == segs[
            i
        ].gap.len() by {
            assert(er[i] == err[i - 1]);
            assert(rest[i - 1] == segs[i]);
            assert(segs.take(i)[0] == segs[0]);
            assert(segs.take(i).drop_first() =~= rest.take(i - 1));
            assert(segs_bytes(segs.take(i)) == g + c + segs_bytes(rest.take(i - 1)));
            assert(err[i - 1].offset == p2 + segs_bytes(rest.take(i - 1)).len() + rest[i
                - 1].gap.len());
        }
    }
}

/// Scanning a container built as the zero preamble followed by well-formed
/// chunks, each preceded by a (possibly empty) run of bytes that cannot start
/// a header, yields exactly one record per chunk: each offset is the built
/// position of its chunk, the first record's padding is 0, and every later
/// record's padding is the length of the gap before its chunk.
pub proof fn lemma_scan_segments(data: Seq<u8>, segs: Seq<Segment>)
    requires
        data.len() >= PREAMBLE_LEN,
        data.skip(PREAMBLE_LEN as int) == segs_bytes(segs),
        segs_ok(segs),
    ensures
        scan_spec(data).len() == segs.len(),
        forall|i: int|
            0 <= i < segs.len() ==> (#[trigger] scan_spec(data)[i]).offset == PREAMBLE_LEN
                + segs_bytes(segs.take(i)).len() + segs[i].gap.len(),
        segs.len() > 0 ==> scan_spec(data)[0].padding == 0,
        forall|i: int|
            1 <= i < segs.len() ==> (#[trigger] scan_spec(data)[i]).padding == segs[i].gap.len(),
{
    let sb = segs_bytes(segs);
    assert(data.len() - PREAMBLE_LEN == sb.len());
    assert forall|j: int| 0 <= j < sb.len() implies data[PREAMBLE_LEN + j] == sb[j] by {
        assert(data.skip(PREAMBLE_LEN as int)[j] == data[PREAMBLE_LEN + j]);
    }
    lemma_scan_segments_from(data, segs, PREAMBLE_LEN as nat, 0, true);
    lemma_expected_recs_index(segs, PREAMBLE_LEN as nat, 0, true);
}

/// The bytes of a run of chunks with no noise between them.
pub open spec fn chunks_bytes(chunks: Seq<Seq<u8>>) -> Seq<u8>
    decreases chunks.len(),
{
    if chunks.len() == 0 {
        Seq::empty()
    } else {
        chunks[0] + chunks_bytes(chunks.drop_first())
    }
}

/// The segments of a noise-free container: an empty gap before every chunk.
pub open spec fn gapless_segs(chunks: Seq<Seq<u8>>) -> Seq<Segment> {
    chunks.map_values(|c: Seq<u8>| Segment { gap: Seq::empty(), chunk: c })
}

proof fn lemma_gapless_segs_bytes(chunks: Seq<Seq<u8>>)
    ensures
        segs_bytes(gapless_segs(chunks)) == chunks_bytes(chunks),
        forall|i: int|
            0 <= i <= chunks.len() ==> segs_bytes(#[trigger] gapless_segs(chunks).take(i))
                == chunks_bytes(chunks.take(i)),
    decreases chunks.len(),
{
    let segs = gapless_segs(chunks);
    if chunks.len() == 0 {
        assert(segs.len() == 0);
        assert(segs.take(0) =~= Seq::<Segment>::empty());
        assert(chunks.take(0) =~= Seq::<Seq<u8>>::empty());
    } else {
        let rest = chunks.drop_first();
        lemma_gapless_segs_bytes(rest);
        assert(segs.drop_first() =~= gapless_segs(rest));
        assert(segs[0].gap + segs[0].chunk + segs_bytes(segs.drop_first()) =~= chunks[0]
            + chunks_bytes(rest));
        assert forall|i: int| 0 <= i <= chunks.len() implies segs_bytes(
            #[trigger] segs.take(i),
        ) == chunks_bytes(chunks.take(i)) by {
            if i == 0 {
                assert(segs.take(0) =~= Seq::<Segment>::empty());
                assert(chunks.take(0) =~= Seq::<Seq<u8>>::empty());
            } else {
                assert(segs.take(i)[0] == segs[0]);
                assert(segs.take(i).drop_first() =~= gapless_segs(rest).take(i - 1));
                assert(segs_bytes(gapless_segs(rest).take(i - 1)) == chunks_bytes(
                    rest.take(i - 1),
                ));
                assert(chunks.take(i)[0] == chunks[0]);
                assert(chunks.take(i).drop_first() =~= rest.take(i - 1));
                assert(segs_bytes(segs.take(i)) == segs[0].gap + segs[0].chunk + segs_bytes(
                    segs.take(i).drop_first(),
                ));
                assert(chunks_bytes(chunks.take(i)) == chunks[0] + chunks_bytes(
                    chunks.take(i).drop_first(),
                ));
                assert(segs[0].gap + segs[0].chunk + segs_bytes(gapless_segs(rest).take(i - 1))
                    =~= chunks[0] + chunks_bytes(rest.take(i - 1)));
            }
        }
    }
}

/// Scanning a container built as the zero preamble followed immediately by
/// `n` well-formed chunks and no injected noise yields exactly `n` records,
/// every record's padding 0, and each offset the built position of its chunk.
pub proof fn lemma_scan_contiguous_chunks(data: Seq<u8>, chunks: Seq<Seq<u8>>)
    requires
        data.len() >= PREAMBLE_LEN,
        data.skip(PREAMBLE_LEN as int) == chunks_bytes(chunks),
        forall|i: int| 0 <= i < chunks.len() ==> chunk_ok(#[trigger] chunks[i]),
        chunks.len() > 0 ==> chunks.last().len() > MIN_HEADER_LEN,
    ensures
        scan_spec(data).len() == chunks.len(),
        forall|i: int|
            0 <= i < chunks.len() ==> (#[trigger] scan_spec(data)[i]).offset == PREAMBLE_LEN
                + chunks_bytes(chunks.take(i)).len(),
        forall|i: int| 0 <= i < chunks.len() ==> (#[trigger] scan_spec(data)[i]).padding == 0,
{
    let segs = gapless_segs(chunks);
    lemma_gapless_segs_bytes(chunks);
    assert(forall|i: int|
        0 <= i < segs.len() ==> gap_ok((#[trigger] segs[i]).gap) && chunk_ok(segs[i].chunk));
    if segs.len() > 0 {
        assert(segs.last().chunk == chunks.last());
    }
    lemma_scan_segments(data, segs);
    assert forall|i: int| 0 <= i < chunks.len() implies (#[trigger] scan_spec(data)[i]).offset
        == PREAMBLE_LEN + chunks_bytes(chunks.take(i)).len() && scan_spec(data)[i].padding
        == 0 by {
        assert(segs[i].gap.len() == 0);
        assert(segs_bytes(segs.take(i)) == chunks_bytes(chunks.take(i)));
    }
}

} // verus!
