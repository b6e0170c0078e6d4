//! Block checksum engine: a CRC16 variant (polynomial 0x8408, reversed table
//! construction) computed per fixed-size block. Each block yields one 2-byte
//! little-endian digest, and the running value is reset between blocks.

use vstd::prelude::*;

verus! {

/// One shift-and-XOR round of the reversed-CRC table construction, iterated
/// `n` times.
pub open spec fn table_iter(value: u16, temp: u16, n: nat) -> u16
    decreases n,
{
    if n == 0 {
        value
    } else {
        table_iter(
            if (value ^ temp) & 0x0001 != 0 {
                (value >> 1) ^ 0x8408
            } else {
                value >> 1
            },
            temp >> 1,
            (n - 1) as nat,
        )
    }
}

/// The table entry for byte `i`: eight rounds of the construction.
pub open spec fn crc_table_entry(i: u8) -> u16 {
    table_iter(0, i as u16, 8)
}

/// One byte step of the running checksum.
pub open spec fn crc_update(sum: u16, b: u8) -> u16 {
    crc_table_entry(b ^ (sum % 0x100) as u8) ^ (sum >> 8)
}

/// The running checksum after feeding every byte of `s`, starting from `sum`.
pub open spec fn crc_fold(sum: u16, s: Seq<u8>) -> u16
    decreases s.len(),
{
    if s.len() == 0 {
        sum
    } else {
        crc_fold(crc_update(sum, s[0]), s.drop_first())
    }
}

/// A 2-byte little-endian encoding of `x`.
pub open spec fn le16_digest(x: u16) -> Seq<u8> {
    seq![(x % 0x100) as u8, (x / 0x100) as u8]
}

/// The digest of one block: fold from the initial sum 0xFFFF, then XOR with
/// 0xFFFF, emitted little-endian.
pub open spec fn block_digest(block: Seq<u8>) -> Seq<u8> {
    le16_digest(crc_fold(0xFFFF, block) ^ 0xFFFF)
}

/// The checksum of `data` in consecutive blocks of `bsize` bytes (the final
/// block may be shorter): the concatenation of the blocks' digests.
pub open spec fn spec_checksum(data: Seq<u8>, bsize: nat) -> Seq<u8>
    recommends
        bsize >= 1,
    decreases data.len(),
{
    if data.len() == 0 {
        Seq::empty()
    } else if bsize == 0 || data.len() <= bsize {
        block_digest(data)
    } else {
        block_digest(data.take(bsize as int)) + spec_checksum(data.skip(bsize as int), bsize)
    }
}

proof fn lemma_crc_fold_push(sum: u16, s: Seq<u8>, b: u8)
    ensures
        crc_fold(sum, s.push(b)) == crc_update(crc_fold(sum, s), b),
    decreases s.len(),
{
    let t = s.push(b);
    if s.len() == 0 {
        assert(t[0] == b);
        assert(t.drop_first() =~= Seq::<u8>::empty());
        assert(crc_fold(sum, t) == crc_fold(crc_update(sum, b), t.drop_first()));
        assert(crc_fold(crc_update(sum, b), t.drop_first()) == crc_update(sum, b));
        assert(crc_fold(sum, s) == sum);
    } else {
        assert(t[0] == s[0]);
        assert(t.drop_first() =~= s.drop_first().push(b));
        lemma_crc_fold_push(crc_update(sum, s[0]), s.drop_first(), b);
        assert(crc_fold(sum, t) == crc_fold(crc_update(sum, s[0]), t.drop_first()));
        assert(crc_fold(sum, s) == crc_fold(crc_update(sum, s[0]), s.drop_first()));
    }
}

/// Every call of `compute_checksum` yields exactly `ceil(L / B)` digests of
/// two bytes each for data of length `L` and block size `B`; zero-length data
/// yields zero digests.
pub proof fn lemma_checksum_block_count(data: Seq<u8>, bsize: nat)
    requires
        bsize >= 1,
    ensures
        spec_checksum(data, bsize).len() == 2 * ((data.len() + bsize - 1) as int / (bsize as int)),
    decreases data.len(),
{
    if data.len() == 0 {
        assert((bsize - 1) as int / (bsize as int) == 0) by (nonlinear_arith)
            requires
                bsize >= 1,
        ;
    } else if data.len() <= bsize {
        assert((data.len() + bsize - 1) as int / (bsize as int) == 1) by (nonlinear_arith)
            requires
                1 <= data.len() <= bsize,
        ;
    } else {
        lemma_checksum_block_count(data.skip(bsize as int), bsize);
        assert(data.skip(bsize as int).len() == data.len() - bsize);
        assert((data.len() + bsize - 1) as int / (bsize as int) == 1 + (data.len() - bsize + bsize
            - 1) as int / (bsize as int)) by (nonlinear_arith)
            requires
                bsize >= 1,
                data.len() > bsize,
        ;
    }
}

/// The checksum engine: a 256-entry table derived once from the polynomial, a
/// running value that never leaks across calls, and the block size.
pub struct Crc {
    table: Vec<u16>,
    hash_value: u16,
    blocksize: usize,
}

impl Crc {
    /// The table holds the entry for every byte value.
    pub closed spec fn table_ok(&self) -> bool {
        &&& self.table@.len() == 256
        &&& forall|k: int| 0 <= k < 256 ==> self.table@[k] == crc_table_entry(k as u8)
    }

    /// The engine is in its freshly-constructed state: correct table, running
    /// value at the initial sum.
    pub closed spec fn wf(&self) -> bool {
        self.table_ok() && self.hash_value == 0xFFFF
    }

    pub closed spec fn spec_blocksize(&self) -> usize {
        self.blocksize
    }

    pub fn new(blocksize: usize) -> (r: Self)
        ensures
            r.wf(),
            r.spec_blocksize() == blocksize,
    {
        let mut table: Vec<u16> = Vec::new();
        let mut i: usize = 0;
        while i < 256
            invariant
                i <= 256,
                table@.len() == i as int,
                forall|k: int| 0 <= k < i as int ==> table@[k] == crc_table_entry(k as u8),
            decreases 256 - i,
        {
            let mut value: u16 = 0;
            let mut temp: u16 = i as u16;
            let mut j: usize = 0;
            while j < 8
                invariant
                    j <= 8,
                    i < 256,
                    table_iter(value, temp, (8 - j) as nat) == crc_table_entry(i as u8),
                decreases 8 - j,
            {
                if (value ^ temp) & 0x0001 != 0 {
                    value = (value >> 1) ^ 0x8408;
                } else {
                    value = value >> 1;
                }
                temp = temp >> 1;
                j += 1;
            }
            table.push(value);
            i += 1;
        }
        Crc { table, hash_value: 0xFFFF, blocksize }
    }

    /// Feeds `count` bytes of `array`, starting at `start`, into the running
    /// value. The input is byte-oriented, so a block is always a whole number
    /// of bytes and no bit-serial tail step is ever reached.
    fn hash_core(&mut self, array: &[u8], start: usize, count: usize)
        requires
            old(self).table_ok(),
            start + count <= array@.len(),
        ensures
            final(self).table == old(self).table,
            final(self).blocksize == old(self).blocksize,
            final(self).hash_value == crc_fold(
                old(self).hash_value,
                array@.subrange(start as int, (start + count) as int),
            ),
    {
        let mut sum = self.hash_value;
        let mut i = start;
        let alen = array.len();
        let end = start + count;
        assert(array@.subrange(start as int, start as int) =~= Seq::<u8>::empty());
        while i < end
            invariant
                start <= i <= end,
                end <= array@.len(),
                *self == *old(self),
                old(self).table_ok(),
                sum == crc_fold(old(self).hash_value, array@.subrange(start as int, i as int)),
            decreases end - i,
        {
            let v = array[i];
            let low = (sum % 256) as u8;
            let idx = (v ^ low) as usize;
            proof {
                lemma_crc_fold_push(
                    old(self).hash_value,
                    array@.subrange(start as int, i as int),
                    array@[i as int],
                );
                assert(array@.subrange(start as int, (i + 1) as int) =~= array@.subrange(
                    start as int,
                    i as int,
                ).push(array@[i as int]));
            }
            sum = self.table[idx] ^ (sum >> 8);
            i += 1;
        }
        self.hash_value = sum;
    }

    /// Emits the digest of the block just fed in and resets the running value
    /// to the initial sum.
    fn hash_final(&mut self) -> (r: Vec<u8>)
        ensures
            final(self).table == old(self).table,
            final(self).blocksize == old(self).blocksize,
            final(self).hash_value == 0xFFFF,
            r@ == le16_digest(old(self).hash_value ^ 0xFFFF),
    {
        let result = self.hash_value ^ 0xFFFF;
        self.hash_value = 0xFFFF;
        let mut out: Vec<u8> = Vec::new();
        out.push((result % 256) as u8);
        out.push((result / 256) as u8);
        proof {
            assert(out@ =~= le16_digest(result));
        }
        out
    }

    /// Processes `data` in consecutive blocks of the configured block size
    /// (the final block may be shorter) and returns the concatenated 2-byte
    /// little-endian digests, one per block. The result depends only on the
    /// data and the block size, and the engine ends in the state it was
    /// constructed in: nothing leaks across calls.
    pub fn compute_checksum(&mut self, data: &[u8]) -> (checksum: Vec<u8>)
        requires
            old(self).wf(),
            old(self).spec_blocksize() >= 1,
        ensures
            *final(self) == *old(self),
            checksum@ == spec_checksum(data@, old(self).spec_blocksize() as nat),
    {
        let mut checksum: Vec<u8> = Vec::new();
        let size = data.len();
        let mut offset: usize = 0;
        assert(data@.skip(0) =~= data@);
        while offset < size
            invariant
                offset <= size,
                size == data@.len(),
                self.table == old(self).table,
                self.blocksize == old(self).blocksize,
                self.table_ok(),
                self.hash_value == 0xFFFF,
                self.blocksize >= 1,
                checksum@ + spec_checksum(data@.skip(offset as int), self.blocksize as nat)
                    == spec_checksum(data@, self.blocksize as nat),
            decreases size - offset,
        {
            let remaining = size - offset;
            let count = if remaining < self.blocksize {
                remaining
            } else {
                self.blocksize
            };
            let ghost rest = data@.skip(offset as int);
            self.hash_core(data, offset, count);
            let mut digest = self.hash_final();
            proof {
                let bs = self.blocksize as nat;
                let block = data@.subrange(offset as int, (offset + count) as int);
                assert(digest@ == block_digest(block));
                if remaining <= self.blocksize {
                    assert(rest =~= block);
                    assert(data@.skip((offset + count) as int) =~= Seq::<u8>::empty());
                    assert(spec_checksum(rest, bs) == block_digest(block));
                } else {
                    assert(rest.take(bs as int) =~= block);
                    assert(rest.skip(bs as int) =~= data@.skip((offset + count) as int));
                    assert(spec_checksum(rest, bs) == block_digest(block) + spec_checksum(
                        data@.skip((offset + count) as int),
                        bs,
                    ));
                }
                assert(checksum@ + digest@ + spec_checksum(
                    data@.skip((offset + count) as int),
                    bs,
                ) =~= checksum@ + (digest@ + spec_checksum(data@.skip((offset + count) as int), bs)));
            }
            checksum.append(&mut digest);
            offset = offset + count;
        }
        proof {
            assert(data@.skip(size as int) =~= Seq::<u8>::empty());
            assert(checksum@ + Seq::<u8>::empty() =~= checksum@);
        }
        checksum
    }
}

/// Recomputes the block checksum of `payload` with the given block size and
/// compares it against the stored checksum bytes.
pub fn verify_checksum(payload: &[u8], stored: &[u8], blocksize: usize) -> (r: bool)
    requires
        blocksize >= 1,
    ensures
        r == (stored@ == spec_checksum(payload@, blocksize as nat)),
{
    let mut crc = Crc::new(blocksize);
    let computed = crc.compute_checksum(payload);
    if computed.len() != stored.len() {
        return false;
    }
    let mut i: usize = 0;
    while i < stored.len()
        invariant
            i <= stored@.len(),
            stored@.len() == computed@.len(),
            computed@ == spec_checksum(payload@, blocksize as nat),
            forall|j: int| 0 <= j < i as int ==> stored@[j] == computed@[j],
        decreases stored@.len() - i,
    {
        if stored[i] != computed[i] {
            return false;
        }
        i += 1;
    }
    proof {
        assert(stored@ =~= computed@);
    }
    true
}

} // verus!
