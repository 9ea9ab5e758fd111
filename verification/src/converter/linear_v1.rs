//! The Linear (version 1) file taken apart into its superblock, its
//! compressed chunk data and its footer.

use vstd::prelude::*;
use vstd::string::StringSliceAdditionalSpecFns;
use crate::bytes::{
    append_be_i16, append_be_i32, append_be_u32, append_be_u64, append_bytes, be_u16_bytes,
    be_u16_value, be_u32_bytes, be_u32_value, be_u64_at, be_u64_bytes, be_u64_value,
    byteorder_read_i16, byteorder_read_u32, byteorder_read_u64, i16_as_u16, i32_as_u32, i8_as_u8,
    i8_to_u8, u16_as_i16, u8_as_i8, u8_to_i8, lemma_be_u16_bytes_of_value,
    lemma_be_u16_value_of_bytes, lemma_be_u32_bytes_of_value, lemma_be_u32_value_of_bytes,
    lemma_be_u64_bytes_of_value, lemma_be_u64_value_of_bytes, lemma_i16_u16_inverse,
    lemma_i8_u8_inverse,
};
use crate::compression::{zstd_decode_all, zstd_decoded};
use crate::error::{ConvertError, ConvertErrorOf, ErrorValue};
use super::{
    chunk_model, named_region_coords, read_chunk_data, read_chunk_table, record_size,
    record_timestamp, region_name_coords, region_result, sizes_total, stored_count,
    table_chunks, Region, RegionChunks, RegionValue, LINEAR_HEADER_SIZE, LINEAR_SIGNATURE,
    LINEAR_SUPERBLOCK_SIZE, MAX_REGION_CHUNKS,
};

verus! {

/// The 32 bytes that open a Linear file.
#[derive(Debug, Clone, Copy, PartialEq, Eq, Structural)]
pub struct LinearSuperblock {
    pub signature: u64,
    pub version: u8,
    pub newest_timestamp: u64,
    pub compression_level: i8,
    pub chunk_count: i16,
    pub compressed_len: u32,
    pub reserved: u64,
}

/// The superblock that the first 32 bytes of `b` write, fields in order and
/// most significant byte first.
pub open spec fn superblock_of(b: Seq<u8>) -> LinearSuperblock {
    LinearSuperblock {
        signature: be_u64_value(b.subrange(0, 8)),
        version: b[8],
        newest_timestamp: be_u64_value(b.subrange(9, 17)),
        compression_level: u8_as_i8(b[17]),
        chunk_count: u16_as_i16(be_u16_value(b.subrange(18, 20))),
        compressed_len: be_u32_value(b.subrange(20, 24)),
        reserved: be_u64_value(b.subrange(24, 32)),
    }
}

/// The 32 bytes that write the superblock `sb`.
pub open spec fn superblock_bytes(sb: LinearSuperblock) -> Seq<u8> {
    be_u64_bytes(sb.signature) + seq![sb.version] + be_u64_bytes(sb.newest_timestamp)
        + seq![i8_as_u8(sb.compression_level)] + be_u16_bytes(i16_as_u16(sb.chunk_count))
        + be_u32_bytes(sb.compressed_len) + be_u64_bytes(sb.reserved)
}

impl LinearSuperblock {
    /// Reads a superblock from the first 32 bytes of `bytes`.
    pub fn read_bytes(bytes: &[u8]) -> (r: Result<Self, ConvertError>)
        ensures
            bytes@.len() < LINEAR_SUPERBLOCK_SIZE ==> r == Err::<Self, ConvertError>(ConvertErrorOf::SuperblockTooShort),
            bytes@.len() >= LINEAR_SUPERBLOCK_SIZE ==> r == Ok::<Self, ConvertError>(superblock_of(bytes@)),
    {
        if bytes.len() < LINEAR_SUPERBLOCK_SIZE {
            return Err(ConvertErrorOf::SuperblockTooShort);
        }
        let signature = byteorder_read_u64(vstd::slice::slice_subrange(bytes, 0, 8));
        let version = bytes[8];
        let newest_timestamp = byteorder_read_u64(vstd::slice::slice_subrange(bytes, 9, 17));
        let compression_level = u8_to_i8(bytes[17]);
        let chunk_count = byteorder_read_i16(vstd::slice::slice_subrange(bytes, 18, 20));
        let compressed_len = byteorder_read_u32(vstd::slice::slice_subrange(bytes, 20, 24));
        let reserved = byteorder_read_u64(vstd::slice::slice_subrange(bytes, 24, 32));
        Ok(LinearSuperblock {
            signature,
            version,
            newest_timestamp,
            compression_level,
            chunk_count,
            compressed_len,
            reserved,
        })
    }

    /// The 32 bytes of this superblock.
    pub fn to_bytes(&self) -> (r: Vec<u8>)
        ensures
            r@ == superblock_bytes(*self),
    {
        let mut buffer: Vec<u8> = Vec::with_capacity(LINEAR_SUPERBLOCK_SIZE);
        append_be_u64(&mut buffer, self.signature);
        buffer.push(self.version);
        append_be_u64(&mut buffer, self.newest_timestamp);
        buffer.push(i8_to_u8(self.compression_level));
        append_be_i16(&mut buffer, self.chunk_count);
        append_be_u32(&mut buffer, self.compressed_len);
        append_be_u64(&mut buffer, self.reserved);
        assert(buffer@ =~= superblock_bytes(*self));
        buffer
    }
}

/// Reading the bytes of a superblock gives the superblock back.
pub proof fn lemma_superblock_read_of_written(sb: LinearSuperblock)
    ensures
        superblock_bytes(sb).len() == LINEAR_SUPERBLOCK_SIZE,
        superblock_of(superblock_bytes(sb)) == sb,
{
    let b = superblock_bytes(sb);
    lemma_be_u64_value_of_bytes(sb.signature);
    lemma_be_u64_value_of_bytes(sb.newest_timestamp);
    lemma_be_u16_value_of_bytes(i16_as_u16(sb.chunk_count));
    lemma_be_u32_value_of_bytes(sb.compressed_len);
    lemma_be_u64_value_of_bytes(sb.reserved);
    lemma_i8_u8_inverse(sb.compression_level, 0);
    lemma_i16_u16_inverse(sb.chunk_count, 0);
    assert(b.subrange(0, 8) =~= be_u64_bytes(sb.signature));
    assert(b.subrange(9, 17) =~= be_u64_bytes(sb.newest_timestamp));
    assert(b.subrange(18, 20) =~= be_u16_bytes(i16_as_u16(sb.chunk_count)));
    assert(b.subrange(20, 24) =~= be_u32_bytes(sb.compressed_len));
    assert(b.subrange(24, 32) =~= be_u64_bytes(sb.reserved));
}

/// Writing the superblock read from 32 bytes gives those bytes back.
pub proof fn lemma_superblock_written_of_read(b: Seq<u8>)
    requires
        b.len() >= LINEAR_SUPERBLOCK_SIZE,
    ensures
        superblock_bytes(superblock_of(b)) == b.take(LINEAR_SUPERBLOCK_SIZE as int),
{
    let sb = superblock_of(b);
    lemma_be_u64_bytes_of_value(b.subrange(0, 8));
    lemma_be_u64_bytes_of_value(b.subrange(9, 17));
    lemma_be_u16_bytes_of_value(b.subrange(18, 20));
    lemma_be_u32_bytes_of_value(b.subrange(20, 24));
    lemma_be_u64_bytes_of_value(b.subrange(24, 32));
    lemma_i8_u8_inverse(0, b[17]);
    lemma_i16_u16_inverse(0, be_u16_value(b.subrange(18, 20)));
    assert(b.subrange(0, 8).take(8) =~= b.subrange(0, 8));
    assert(b.subrange(9, 17).take(8) =~= b.subrange(9, 17));
    assert(b.subrange(18, 20).take(2) =~= b.subrange(18, 20));
    assert(b.subrange(20, 24).take(4) =~= b.subrange(20, 24));
    assert(b.subrange(24, 32).take(8) =~= b.subrange(24, 32));
    assert(superblock_bytes(sb) =~= b.take(LINEAR_SUPERBLOCK_SIZE as int));
}

/// One record of the chunk table: the size of a slot's data and its timestamp.
#[derive(Debug, Clone, Copy, PartialEq, Eq, Structural)]
pub struct ChunkHeader {
    pub size: u32,
    pub timestamp: u32,
}

impl Default for ChunkHeader {
    /// A record of an empty slot with timestamp 0.
    fn default() -> (r: Self)
        ensures
            r.size == 0,
            r.timestamp == 0,
    {
        ChunkHeader { size: 0, timestamp: 0 }
    }
}

/// The records of the chunk table, one per slot.
pub struct ChunkHeaders(pub [ChunkHeader; MAX_REGION_CHUNKS]);

impl ChunkHeaders {
    /// The records, as (size, timestamp) pairs.
    pub open spec fn model(&self) -> Seq<(u32, u32)> {
        self.0@.map_values(|h: ChunkHeader| (h.size, h.timestamp))
    }
}

impl core::ops::Deref for ChunkHeaders {
    type Target = [ChunkHeader; MAX_REGION_CHUNKS];

    /// The records.
    fn deref(&self) -> (r: &[ChunkHeader; MAX_REGION_CHUNKS])
        ensures
            *r == self.0,
    {
        &self.0
    }
}

impl Default for ChunkHeaders {
    /// A record of size 0 and timestamp 0 for every slot.
    fn default() -> (r: Self)
        ensures
            r.model() == Seq::new(MAX_REGION_CHUNKS as nat, |i: int| (0u32, 0u32)),
    {
        let r = ChunkHeaders([ChunkHeader { size: 0, timestamp: 0 }; 1024]);
        assert(r.model() =~= Seq::new(MAX_REGION_CHUNKS as nat, |i: int| (0u32, 0u32)));
        r
    }
}

/// The chunk table and chunks of a decompressed payload.
pub struct LinearChunkData {
    pub headers: ChunkHeaders,
    pub chunks: RegionChunks,
}

/// The records of the chunk table that opens `d`.
pub open spec fn table_headers(d: Seq<u8>) -> Seq<(u32, u32)> {
    Seq::new(MAX_REGION_CHUNKS as nat, |i: int| (record_size(d, i), record_timestamp(d, i)))
}

/// What `LinearChunkData::read_bytes` makes of the decompressed payload `d`:
/// a table too short, a count of stored chunks that disagrees with the
/// superblock, a total size (modulo 2^32) other than the table's size plus
/// the payload's length (modulo 2^32), or data cut off; else the records and
/// chunks.
pub open spec fn payload_chunk_data(
    d: Seq<u8>,
    chunk_count: i16,
    region_x: i32,
    region_z: i32,
) -> Result<(Seq<(u32, u32)>, Seq<Option<(i32, i32, Seq<u8>)>>), ErrorValue> {
    let total = sizes_total(d, MAX_REGION_CHUNKS as int);
    if d.len() < LINEAR_HEADER_SIZE {
        Err(ConvertErrorOf::HeadersTooShort)
    } else if stored_count(d, MAX_REGION_CHUNKS as int) != chunk_count {
        Err(ConvertErrorOf::InvalidChunkCount)
    } else if total % 0x1_0000_0000 != (LINEAR_HEADER_SIZE + d.len()) % 0x1_0000_0000 {
        Err(ConvertErrorOf::InvalidDecompressedSize)
    } else if LINEAR_HEADER_SIZE + total > d.len() {
        Err(ConvertErrorOf::ReadEof)
    } else {
        Ok((table_headers(d), table_chunks(d, region_x, region_z)))
    }
}

/// What a chunk-data reading gives: the records and chunks, or the error.
pub open spec fn chunk_data_result(
    r: Result<LinearChunkData, ConvertError>,
) -> Result<(Seq<(u32, u32)>, Seq<Option<(i32, i32, Seq<u8>)>>), ErrorValue> {
    match r {
        Ok(c) => Ok((c.headers.model(), c.chunks.model())),
        Err(e) => Err(e@),
    }
}

/// The bytes that `LinearChunkData::to_bytes` writes for the records `hs`:
/// size then timestamp, four bytes each.
pub open spec fn headers_bytes(hs: Seq<(u32, u32)>, n: int) -> Seq<u8>
    decreases n,
{
    if n <= 0 {
        Seq::empty()
    } else {
        headers_bytes(hs, n - 1) + be_u32_bytes(hs[n - 1].0) + be_u32_bytes(hs[n - 1].1)
    }
}

/// The bytes that `LinearChunkData::to_bytes` writes for the chunks `cm`:
/// the x and z coordinates of each stored chunk, four bytes each.
pub open spec fn coords_bytes(cm: Seq<Option<(i32, i32, Seq<u8>)>>, n: int) -> Seq<u8>
    decreases n,
{
    if n <= 0 {
        Seq::empty()
    } else {
        coords_bytes(cm, n - 1) + match cm[n - 1] {
            Some(c) => be_u32_bytes(i32_as_u32(c.0)) + be_u32_bytes(i32_as_u32(c.1)),
            None => Seq::empty(),
        }
    }
}

impl LinearChunkData {
    /// The chunk table and chunks of the decompressed payload `d`, checked
    /// against the superblock's chunk count.
    pub fn from_decompressed(
        d: &[u8],
        superblock: &LinearSuperblock,
        region_x: i32,
        region_z: i32,
    ) -> (r: Result<Self, ConvertError>)
        ensures
            chunk_data_result(r) == payload_chunk_data(d@, superblock.chunk_count, region_x, region_z),
            r is Ok ==> r->Ok_0.chunks.slots().len() == MAX_REGION_CHUNKS,
    {
        let len = d.len();
        if len < LINEAR_HEADER_SIZE {
            return Err(ConvertErrorOf::HeadersTooShort);
        }
        let (sizes, timestamps, total, count) = read_chunk_table(d);
        if count != superblock.chunk_count {
            return Err(ConvertErrorOf::InvalidChunkCount);
        }
        let total_mod: u64 = total % 0x1_0000_0000;
        let expected_mod: u64 = ((len as u64) % 0x1_0000_0000 + LINEAR_HEADER_SIZE as u64) % 0x1_0000_0000;
        proof {
            vstd::arithmetic::div_mod::lemma_add_mod_noop(len as int, LINEAR_HEADER_SIZE as int, 0x1_0000_0000);
            vstd::arithmetic::div_mod::lemma_small_mod(LINEAR_HEADER_SIZE as nat, 0x1_0000_0000);
        }
        if total_mod != expected_mod {
            return Err(ConvertErrorOf::InvalidDecompressedSize);
        }
        let mut headers: [ChunkHeader; MAX_REGION_CHUNKS] = [ChunkHeader { size: 0, timestamp: 0 }; 1024];
        let mut i: usize = 0;
        while i < MAX_REGION_CHUNKS
            invariant
                i <= MAX_REGION_CHUNKS,
                sizes@ == Seq::new(MAX_REGION_CHUNKS as nat, |k: int| record_size(d@, k)),
                timestamps@ == Seq::new(MAX_REGION_CHUNKS as nat, |k: int| record_timestamp(d@, k)),
                forall|k: int| 0 <= k < i ==> (#[trigger] headers@[k]).size == record_size(d@, k)
                    && headers@[k].timestamp == record_timestamp(d@, k),
            decreases MAX_REGION_CHUNKS - i,
        {
            headers[i] = ChunkHeader { size: sizes[i], timestamp: timestamps[i] };
            i = i + 1;
        }
        assert(ChunkHeaders(headers).model() =~= table_headers(d@));
        match read_chunk_data(d, &sizes, region_x, region_z) {
            Err(_) => Err(ConvertErrorOf::ReadEof),
            Ok(chunks) => Ok(LinearChunkData { headers: ChunkHeaders(headers), chunks }),
        }
    }

    /// Decompresses `bytes` and reads the chunk table and chunks from the
    /// result, checked against the superblock's chunk count.
    pub fn read_bytes(
        bytes: &[u8],
        superblock: &LinearSuperblock,
        region_x: i32,
        region_z: i32,
    ) -> (r: Result<Self, ConvertError>)
        ensures
            chunk_data_result(r) == match zstd_decoded(bytes@) {
                Err(t) => Err(ConvertErrorOf::ZstdDecode(t)),
                Ok(d) => payload_chunk_data(d, superblock.chunk_count, region_x, region_z),
            },
            r is Ok ==> r->Ok_0.chunks.slots().len() == MAX_REGION_CHUNKS,
    {
        match zstd_decode_all(bytes) {
            Err(e) => Err(ConvertErrorOf::ZstdDecode(e)),
            Ok(decompressed) => Self::from_decompressed(decompressed.as_slice(), superblock, region_x, region_z),
        }
    }

    /// The chunk table, then the x and z coordinates of each stored chunk.
    pub fn to_bytes(&self) -> (r: Vec<u8>)
        ensures
            r@ == headers_bytes(self.headers.model(), self.headers.model().len() as int)
                + coords_bytes(self.chunks.model(), self.chunks.model().len() as int),
    {
        let mut buffer: Vec<u8> = Vec::new();
        let ghost hs = self.headers.model();
        let ghost cm = self.chunks.model();
        let n = MAX_REGION_CHUNKS;
        let mut i: usize = 0;
        while i < n
            invariant
                i <= n,
                n == self.headers.0@.len(),
                hs == self.headers.model(),
                buffer@ == headers_bytes(hs, i as int),
            decreases n - i,
        {
            let header = self.headers.0[i];
            append_be_u32(&mut buffer, header.size);
            append_be_u32(&mut buffer, header.timestamp);
            i = i + 1;
            assert(buffer@ =~= headers_bytes(hs, i as int));
        }
        let ghost table = buffer@;
        let m = self.chunks.0.len();
        let mut j: usize = 0;
        assert(buffer@ =~= table + coords_bytes(cm, 0));
        while j < m
            invariant
                j <= m,
                m == self.chunks.0@.len(),
                cm == self.chunks.model(),
                buffer@ == table + coords_bytes(cm, j as int),
            decreases m - j,
        {
            assert(cm[j as int] == chunk_model(self.chunks.0@[j as int]));
            match &self.chunks.0[j] {
                Some(c) => {
                    append_be_i32(&mut buffer, c.x);
                    append_be_i32(&mut buffer, c.z);
                },
                None => {},
            }
            j = j + 1;
            assert(buffer@ =~= table + coords_bytes(cm, j as int));
        }
        buffer
    }
}

/// The signature that closes a Linear file.
pub struct LinearFooter(pub u64);

impl LinearFooter {
    /// Reads a footer from `bytes`, which must be exactly eight bytes long.
    pub fn read_bytes(bytes: &[u8]) -> (r: Result<Self, ConvertError>)
        ensures
            bytes@.len() < 8 ==> r == Err::<Self, ConvertError>(ConvertErrorOf::FooterTooShort),
            bytes@.len() > 8 ==> r == Err::<Self, ConvertError>(ConvertErrorOf::FooterLength),
            bytes@.len() == 8 ==> r == Ok::<Self, ConvertError>(LinearFooter(be_u64_value(bytes@))),
    {
        if bytes.len() < 8 {
            return Err(ConvertErrorOf::FooterTooShort);
        }
        if bytes.len() != 8 {
            return Err(ConvertErrorOf::FooterLength);
        }
        let footer = be_u64_at(bytes, 0);
        assert(bytes@.subrange(0, 8) =~= bytes@);
        Ok(LinearFooter(footer))
    }

    /// The eight bytes of this footer.
    pub fn to_bytes(&self) -> (r: Vec<u8>)
        ensures
            r@ == be_u64_bytes(self.0),
    {
        let mut buffer: Vec<u8> = Vec::with_capacity(8);
        append_be_u64(&mut buffer, self.0);
        assert(buffer@ =~= be_u64_bytes(self.0));
        buffer
    }
}

/// Reading the bytes of a footer gives the footer back.
pub proof fn lemma_footer_read_of_written(v: u64)
    ensures
        be_u64_bytes(v).len() == 8,
        be_u64_value(be_u64_bytes(v)) == v,
{
    lemma_be_u64_value_of_bytes(v);
}

/// A Linear file taken apart: superblock, chunk data and footer.
pub struct LinearRegionFile {
    pub superblock: LinearSuperblock,
    pub chunk_data: LinearChunkData,
    pub footer: LinearFooter,
}

/// What a Linear file holds, as the contracts speak of it: its superblock,
/// its chunk records, its chunks and its footer.
pub struct LinearRegionFileValue {
    pub superblock: LinearSuperblock,
    pub headers: Seq<(u32, u32)>,
    pub chunks: Seq<Option<(i32, i32, Seq<u8>)>>,
    pub footer: u64,
}

/// What `LinearRegionFile::read_bytes` makes of the file bytes `b` for the
/// region at `(region_x, region_z)`: the superblock from bytes 0..32, the chunk
/// data decompressed from bytes 33..len-8, the footer from the last eight
/// bytes, then the signature checks.
pub open spec fn region_file_of(b: Seq<u8>, region_x: i32, region_z: i32) -> Result<LinearRegionFileValue, ErrorValue> {
    let len = b.len();
    let superblock = superblock_of(b);
    let footer = be_u64_value(b.subrange(len - 8, len as int));
    match zstd_decoded(b.subrange(33, len - 8)) {
        Err(t) => Err(ConvertErrorOf::ZstdDecode(t)),
        Ok(d) => match payload_chunk_data(d, superblock.chunk_count, region_x, region_z) {
            Err(e) => Err(e),
            Ok((headers, chunks)) => {
                if superblock.signature != LINEAR_SIGNATURE {
                    Err(ConvertErrorOf::FileHeaderSignature)
                } else if footer != LINEAR_SIGNATURE {
                    Err(ConvertErrorOf::FileFooterSignature)
                } else {
                    Ok(LinearRegionFileValue { superblock, headers, chunks, footer })
                }
            },
        },
    }
}

/// What a file reading gives: the file's contents or the error.
pub open spec fn region_file_result(r: Result<LinearRegionFile, ConvertError>) -> Result<LinearRegionFileValue, ErrorValue> {
    match r {
        Ok(f) => Ok(LinearRegionFileValue {
            superblock: f.superblock,
            headers: f.chunk_data.headers.model(),
            chunks: f.chunk_data.chunks.model(),
            footer: f.footer.0,
        }),
        Err(e) => Err(e@),
    }
}

impl LinearRegionFile {
    /// Takes the file bytes `bytes` of the region at `(region_x, region_z)` apart.
    pub fn read_bytes(bytes: &[u8], region_x: i32, region_z: i32) -> (r: Result<LinearRegionFile, ConvertError>)
        requires
            bytes@.len() >= 41,
        ensures
            region_file_result(r) == region_file_of(bytes@, region_x, region_z),
            r is Ok ==> r->Ok_0.chunk_data.chunks.slots().len() == MAX_REGION_CHUNKS,
    {
        let len = bytes.len();
        let superblock = match LinearSuperblock::read_bytes(vstd::slice::slice_subrange(bytes, 0, 32)) {
            Ok(sb) => sb,
            Err(e) => return Err(e),
        };
        assert(superblock == superblock_of(bytes@)) by {
            assert(bytes@.subrange(0, 32).subrange(0, 8) =~= bytes@.subrange(0, 8));
            assert(bytes@.subrange(0, 32).subrange(9, 17) =~= bytes@.subrange(9, 17));
            assert(bytes@.subrange(0, 32).subrange(18, 20) =~= bytes@.subrange(18, 20));
            assert(bytes@.subrange(0, 32).subrange(20, 24) =~= bytes@.subrange(20, 24));
            assert(bytes@.subrange(0, 32).subrange(24, 32) =~= bytes@.subrange(24, 32));
        }
        let chunk_data = match LinearChunkData::read_bytes(
            vstd::slice::slice_subrange(bytes, 33, len - 8),
            &superblock,
            region_x,
            region_z,
        ) {
            Ok(c) => c,
            Err(e) => return Err(e),
        };
        let footer = match LinearFooter::read_bytes(vstd::slice::slice_subrange(bytes, len - 8, len)) {
            Ok(f) => f,
            Err(e) => return Err(e),
        };
        if superblock.signature != LINEAR_SIGNATURE {
            return Err(ConvertErrorOf::FileHeaderSignature);
        }
        if footer.0 != LINEAR_SIGNATURE {
            return Err(ConvertErrorOf::FileFooterSignature);
        }
        Ok(LinearRegionFile { superblock, chunk_data, footer })
    }

    /// The superblock's bytes, the chunk data's bytes, the footer's bytes.
    pub fn to_bytes(&self) -> (r: Result<Vec<u8>, ConvertError>)
        ensures
            r is Ok,
            r->Ok_0@ == superblock_bytes(self.superblock)
                + headers_bytes(self.chunk_data.headers.model(), self.chunk_data.headers.model().len() as int)
                + coords_bytes(self.chunk_data.chunks.model(), self.chunk_data.chunks.model().len() as int)
                + be_u64_bytes(self.footer.0),
    {
        let mut bytes: Vec<u8> = Vec::new();
        let superblock = self.superblock.to_bytes();
        let chunk_data = self.chunk_data.to_bytes();
        let footer = self.footer.to_bytes();
        append_bytes(&mut bytes, superblock.as_slice());
        append_bytes(&mut bytes, chunk_data.as_slice());
        append_bytes(&mut bytes, footer.as_slice());
        assert(bytes@ =~= superblock@ + chunk_data@ + footer@);
        Ok(bytes)
    }
}

/// What `LinearV1Converter::verify` decides of a superblock and a footer.
pub open spec fn verification(superblock: LinearSuperblock, footer: u64) -> Result<(), ConvertError> {
    if superblock.signature != LINEAR_SIGNATURE {
        Err(ConvertErrorOf::HeaderSignature)
    } else if superblock.version != 1 {
        Err(ConvertErrorOf::Version(superblock.version))
    } else if footer != LINEAR_SIGNATURE {
        Err(ConvertErrorOf::FooterSignature)
    } else {
        Ok(())
    }
}

/// What `open_region_file` makes of the file bytes `b`, given the coordinates
/// read from the file's name and its modification time: the file taken
/// apart, its chunks, and each slot's timestamp from its record.
pub open spec fn file_region_of(
    b: Seq<u8>,
    coords: Result<(i32, i32), ConvertError>,
    modified_time: u32,
) -> Result<RegionValue, ErrorValue> {
    match coords {
        Err(e) => Err(e@),
        Ok((x, z)) => match region_file_of(b, x, z) {
            Err(e) => Err(e),
            Ok(f) => Ok(RegionValue {
                chunks: f.chunks,
                x,
                z,
                modified_time,
                timestamps: f.headers.map_values(|h: (u32, u32)| h.1),
            }),
        },
    }
}

/// Checks and opens Linear (version 1) files through their parts.
pub struct LinearV1Converter;

impl LinearV1Converter {
    /// Checks the signatures at both ends and the version.
    pub fn verify(superblock: &LinearSuperblock, footer: &LinearFooter) -> (r: Result<(), ConvertError>)
        ensures
            r == verification(*superblock, footer.0),
    {
        if superblock.signature != LINEAR_SIGNATURE {
            return Err(ConvertErrorOf::HeaderSignature);
        }
        if superblock.version != 1 {
            return Err(ConvertErrorOf::Version(superblock.version));
        }
        if footer.0 != LINEAR_SIGNATURE {
            return Err(ConvertErrorOf::FooterSignature);
        }
        Ok(())
    }

    /// Checks the superblock (the first 32 bytes) and the footer (the last
    /// eight bytes) of the file bytes `buffer`.
    pub fn verify_region(buffer: &[u8]) -> (r: Result<(), ConvertError>)
        requires
            buffer@.len() >= LINEAR_SUPERBLOCK_SIZE,
        ensures
            r == verification(superblock_of(buffer@), be_u64_value(buffer@.subrange(buffer@.len() - 8, buffer@.len() as int))),
    {
        let len = buffer.len();
        let superblock = match LinearSuperblock::read_bytes(vstd::slice::slice_subrange(buffer, 0, 32)) {
            Ok(sb) => sb,
            Err(e) => return Err(e),
        };
        assert(superblock == superblock_of(buffer@)) by {
            assert(buffer@.subrange(0, 32).subrange(0, 8) =~= buffer@.subrange(0, 8));
            assert(buffer@.subrange(0, 32).subrange(9, 17) =~= buffer@.subrange(9, 17));
            assert(buffer@.subrange(0, 32).subrange(18, 20) =~= buffer@.subrange(18, 20));
            assert(buffer@.subrange(0, 32).subrange(20, 24) =~= buffer@.subrange(20, 24));
            assert(buffer@.subrange(0, 32).subrange(24, 32) =~= buffer@.subrange(24, 32));
        }
        let footer = match LinearFooter::read_bytes(vstd::slice::slice_subrange(buffer, len - 8, len)) {
            Ok(f) => f,
            Err(e) => return Err(e),
        };
        Self::verify(&superblock, &footer)
    }

    /// Opens the file bytes `buffer` of the region file at `path`, last
    /// modified at `modified_time`, through its parts.
    pub fn region_from_bytes(buffer: &[u8], path: &str, modified_time: u32) -> (r: Result<Region, ConvertError>)
        requires
            named_region_coords(path.spec_bytes()) is Ok ==> buffer@.len() >= 41,
        ensures
            region_result(r) == file_region_of(buffer@, named_region_coords(path.spec_bytes()), modified_time),
            r is Ok ==> r->Ok_0.wf(),
    {
        let (region_x, region_z) = match region_name_coords(path) {
            Ok(c) => c,
            Err(e) => return Err(e),
        };
        let region_file = match LinearRegionFile::read_bytes(buffer, region_x, region_z) {
            Ok(f) => f,
            Err(e) => return Err(e),
        };
        if region_file.superblock.signature != LINEAR_SIGNATURE {
            return Err(ConvertErrorOf::HeaderSignature);
        }
        if region_file.footer.0 != LINEAR_SIGNATURE {
            return Err(ConvertErrorOf::FooterSignature);
        }
        let ghost hs = region_file.chunk_data.headers.model();
        let headers = &region_file.chunk_data.headers.0;
        let mut timestamps: [u32; MAX_REGION_CHUNKS] = [0u32; 1024];
        let mut i: usize = 0;
        while i < MAX_REGION_CHUNKS
            invariant
                i <= MAX_REGION_CHUNKS,
                hs == headers@.map_values(|h: ChunkHeader| (h.size, h.timestamp)),
                forall|k: int| 0 <= k < i ==> #[trigger] timestamps@[k] == hs[k].1,
            decreases MAX_REGION_CHUNKS - i,
        {
            timestamps[i] = headers[i].timestamp;
            i = i + 1;
        }
        assert(timestamps@ =~= hs.map_values(|h: (u32, u32)| h.1));
        Ok(Region::new(region_file.chunk_data.chunks, region_x, region_z, modified_time, timestamps))
    }
}

} // verus!
