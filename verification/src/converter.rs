//! Regions, their chunks, the region file name, and the Linear (version 1)
//! file as a whole: decoding it from bytes, encoding a region into it, and
//! checking its header and footer.

use vstd::prelude::*;
use vstd::string::StringSliceAdditionalSpecFns;
use crate::bytes::{
    append_be_u32, append_be_u64, append_bytes, be_i16_at, be_u16_bytes, be_u16_value, be_u32_at,
    be_u32_bytes, be_u32_value, be_u64_at, be_u64_bytes, be_u64_value, byteorder_i16_bytes,
    byteorder_read_u32, byteorder_u32_bytes, byteorder_u64_bytes, i16_as_u16, i8_as_u8, i8_to_u8,
    u16_as_i16,
};
use crate::compression::{zstd_decode_all, zstd_decoded, zstd_encode_all, zstd_encoded};
use crate::error::{ConvertError, ConvertErrorOf, ErrorValue};
use crate::parse::{
    after_last, after_last_start, middle_of_four, parse_i32, parse_i32_spec, signed_decimal_bytes,
    split_at_byte,
};

pub mod linear_v1;
pub mod linear_v2;

verus! {

/// The width and depth of a region, in chunks.
pub const REGION_DIMENSION: i32 = 32;

/// The number of chunk slots of a region.
pub const MAX_REGION_CHUNKS: usize = 1024;

/// The eight bytes that open and close every Linear file.
pub const LINEAR_SIGNATURE: u64 = 0xc3ff13183cca9d9a;

/// The size of the chunk table that opens the decompressed payload: a size and
/// a timestamp, four bytes each, per chunk slot.
pub const LINEAR_HEADER_SIZE: usize = 8192;

/// The size of the superblock that opens a Linear file.
pub const LINEAR_SUPERBLOCK_SIZE: usize = 32;

/// A chunk of a region: its chunk coordinates and its stored bytes.
#[derive(Clone)]
pub struct Chunk {
    pub x: i32,
    pub z: i32,
    pub chunk_data: Vec<u8>,
}

/// What a chunk holds: its coordinates and its bytes.
pub open spec fn chunk_model(c: Option<Chunk>) -> Option<(i32, i32, Seq<u8>)> {
    match c {
        Some(ch) => Some((ch.x, ch.z, ch.chunk_data@)),
        None => None,
    }
}

impl Chunk {
    /// A chunk at `(x, z)` holding a copy of `data`.
    pub fn new(x: i32, z: i32, data: &[u8]) -> (c: Self)
        ensures
            c.x == x,
            c.z == z,
            c.chunk_data@ == data@,
    {
        Chunk { x, z, chunk_data: vstd::slice::slice_to_vec(data) }
    }
}

/// The chunk slots of a region; an empty slot is `None`.
pub struct RegionChunks(pub Vec<Option<Chunk>>);

impl RegionChunks {
    /// The slots themselves.
    pub open spec fn slots(&self) -> Seq<Option<Chunk>> {
        self.0@
    }

    /// What each slot holds.
    pub open spec fn model(&self) -> Seq<Option<(i32, i32, Seq<u8>)>> {
        self.0@.map_values(|c: Option<Chunk>| chunk_model(c))
    }
}

impl core::ops::Deref for RegionChunks {
    type Target = Vec<Option<Chunk>>;

    /// The slots.
    fn deref(&self) -> (r: &Vec<Option<Chunk>>)
        ensures
            *r == self.0,
    {
        &self.0
    }
}

impl IntoIterator for RegionChunks {
    type Item = Option<Chunk>;
    type IntoIter = std::vec::IntoIter<Option<Chunk>>;

    /// The slots, in order.
    fn into_iter(self) -> (r: std::vec::IntoIter<Option<Chunk>>)
        ensures
            r == vstd::std_specs::vec::spec_into_iter(self.0),
    {
        self.0.into_iter()
    }
}

impl Default for RegionChunks {
    /// A full set of empty slots.
    fn default() -> (r: Self)
        ensures
            r.0@.len() == MAX_REGION_CHUNKS,
            forall|i: int| 0 <= i < MAX_REGION_CHUNKS ==> r.0@[i] is None,
    {
        let mut v: Vec<Option<Chunk>> = Vec::new();
        let mut i: usize = 0;
        while i < MAX_REGION_CHUNKS
            invariant
                i <= MAX_REGION_CHUNKS,
                v@.len() == i,
                forall|k: int| 0 <= k < i ==> v@[k] is None,
            decreases MAX_REGION_CHUNKS - i,
        {
            v.push(None);
            i = i + 1;
        }
        RegionChunks(v)
    }
}

/// What a region holds, as the contracts speak of it.
pub struct RegionValue {
    pub chunks: Seq<Option<(i32, i32, Seq<u8>)>>,
    pub x: i32,
    pub z: i32,
    pub modified_time: u32,
    pub timestamps: Seq<u32>,
}

/// A region: its chunk slots, its coordinates, when its file was last
/// modified (seconds since the epoch) and a timestamp per chunk slot.
pub struct Region {
    pub chunks: RegionChunks,
    pub x: i32,
    pub z: i32,
    pub modified_time: u32,
    pub timestamps: [u32; MAX_REGION_CHUNKS],
}

impl View for Region {
    type V = RegionValue;

    open spec fn view(&self) -> RegionValue {
        RegionValue {
            chunks: self.chunks.model(),
            x: self.x,
            z: self.z,
            modified_time: self.modified_time,
            timestamps: self.timestamps@,
        }
    }
}

impl Region {
    /// A region with exactly one slot per chunk position.
    pub open spec fn wf(&self) -> bool {
        self.chunks.0@.len() == MAX_REGION_CHUNKS
    }

    /// A region with a slot for every chunk position (slots past the last
    /// position are never read).
    pub open spec fn covers_all_slots(&self) -> bool {
        self.chunks.0@.len() >= MAX_REGION_CHUNKS
    }

    /// A region made of the given parts.
    pub fn new(
        chunks: RegionChunks,
        x: i32,
        z: i32,
        modified_time: u32,
        timestamps: [u32; MAX_REGION_CHUNKS],
    ) -> (r: Self)
        ensures
            r.chunks == chunks,
            r.x == x,
            r.z == z,
            r.modified_time == modified_time,
            r.timestamps == timestamps,
    {
        Region { chunks, x, z, modified_time, timestamps }
    }
}

/// What a decoding gives: the region's contents or the error.
pub open spec fn region_result(r: Result<Region, ConvertError>) -> Result<RegionValue, ErrorValue> {
    match r {
        Ok(region) => Ok(region@),
        Err(e) => Err(e@),
    }
}

/// `v` taken modulo 2^32 as a two's-complement `i32`, as wrapping `i32`
/// arithmetic computes it.
pub open spec fn wrap_i32(v: int) -> i32 {
    let m = v % 0x1_0000_0000;
    if m >= 0x8000_0000 { (m - 0x1_0000_0000) as i32 } else { m as i32 }
}

/// The size field of record `i` of the chunk table that opens `d`.
pub open spec fn record_size(d: Seq<u8>, i: int) -> u32 {
    be_u32_value(d.subrange(8 * i, 8 * i + 4))
}

/// The timestamp field of record `i` of the chunk table that opens `d`.
pub open spec fn record_timestamp(d: Seq<u8>, i: int) -> u32 {
    be_u32_value(d.subrange(8 * i + 4, 8 * i + 8))
}

/// The sum of the sizes of the first `n` records.
pub open spec fn sizes_total(d: Seq<u8>, n: int) -> int
    decreases n,
{
    if n <= 0 { 0 } else { sizes_total(d, n - 1) + record_size(d, n - 1) }
}

/// How many of the first `n` records have a size above zero.
pub open spec fn stored_count(d: Seq<u8>, n: int) -> int
    decreases n,
{
    if n <= 0 {
        0
    } else {
        stored_count(d, n - 1) + if record_size(d, n - 1) > 0 { 1int } else { 0int }
    }
}

/// The chunk in slot `i` of a region at `(region_x, region_z)` whose
/// decompressed payload is `d`: present where its size is above zero, its
/// bytes following the table in slot order.
pub open spec fn table_chunk(d: Seq<u8>, i: int, region_x: i32, region_z: i32) -> Option<(i32, i32, Seq<u8>)> {
    if record_size(d, i) > 0 {
        Some((
            wrap_i32(REGION_DIMENSION * region_x + i % 32),
            wrap_i32(REGION_DIMENSION * region_z + i / 32),
            d.subrange(LINEAR_HEADER_SIZE + sizes_total(d, i), LINEAR_HEADER_SIZE + sizes_total(d, i + 1)),
        ))
    } else {
        None
    }
}

/// All chunk slots of the payload `d`.
pub open spec fn table_chunks(d: Seq<u8>, region_x: i32, region_z: i32) -> Seq<Option<(i32, i32, Seq<u8>)>> {
    Seq::new(MAX_REGION_CHUNKS as nat, |i: int| table_chunk(d, i, region_x, region_z))
}

/// All timestamps of the chunk table of `d`.
pub open spec fn table_timestamps(d: Seq<u8>) -> Seq<u32> {
    Seq::new(MAX_REGION_CHUNKS as nat, |i: int| record_timestamp(d, i))
}

/// The slot whose data runs past the end of `d`: the data before it fits, its own does not.
pub open spec fn is_cut_slot(d: Seq<u8>, i: int) -> bool {
    &&& 0 <= i < MAX_REGION_CHUNKS
    &&& LINEAR_HEADER_SIZE + sizes_total(d, i) <= d.len()
    &&& d.len() < LINEAR_HEADER_SIZE + sizes_total(d, i + 1)
}

/// The first slot whose data runs past the end of `d`.
pub open spec fn cut_slot(d: Seq<u8>) -> int {
    choose|i: int| is_cut_slot(d, i)
}

/// Sums of sizes grow with the number of records.
pub proof fn lemma_sizes_total_monotonic(d: Seq<u8>, a: int, b: int)
    requires
        0 <= a <= b,
    ensures
        sizes_total(d, a) <= sizes_total(d, b),
    decreases b - a,
{
    if a < b {
        lemma_sizes_total_monotonic(d, a, b - 1);
    }
}

/// At most one slot is the cut slot.
pub proof fn lemma_cut_slot_unique(d: Seq<u8>, i: int)
    requires
        is_cut_slot(d, i),
    ensures
        cut_slot(d) == i,
{
    let j = cut_slot(d);
    assert(is_cut_slot(d, j));
    if j < i {
        lemma_sizes_total_monotonic(d, j + 1, i);
    } else if i < j {
        lemma_sizes_total_monotonic(d, i + 1, j);
    }
}

/// What the payload `d` of a file whose superblock counts `chunk_count`
/// chunks gives, as `open_region_file` checks and reads it: a table too short
/// to read, a total size that disagrees with the payload's length (modulo
/// 2^32), a count of stored chunks that disagrees with the superblock, or data
/// cut off; else the region.
pub open spec fn payload_region(
    d: Seq<u8>,
    chunk_count: i16,
    region_x: i32,
    region_z: i32,
    modified_time: u32,
) -> Result<RegionValue, ErrorValue> {
    let total = sizes_total(d, MAX_REGION_CHUNKS as int);
    if d.len() < LINEAR_HEADER_SIZE {
        if d.len() % 8 < 4 {
            Err(ConvertErrorOf::ChunkSizeRead((d.len() / 8) as usize))
        } else {
            Err(ConvertErrorOf::ChunkTimestampRead((d.len() / 8) as usize))
        }
    } else if (total + LINEAR_HEADER_SIZE) % 0x1_0000_0000 != d.len() % 0x1_0000_0000 {
        Err(ConvertErrorOf::DecompressedSize(
            ((total + LINEAR_HEADER_SIZE) % 0x1_0000_0000) as u32,
            (d.len() % 0x1_0000_0000) as u32,
        ))
    } else if stored_count(d, MAX_REGION_CHUNKS as int) != chunk_count {
        Err(ConvertErrorOf::ChunkCount(chunk_count, stored_count(d, MAX_REGION_CHUNKS as int) as i16))
    } else if LINEAR_HEADER_SIZE + total > d.len() {
        Err(ConvertErrorOf::ChunkDataRead(cut_slot(d) as usize))
    } else {
        Ok(RegionValue {
            chunks: table_chunks(d, region_x, region_z),
            x: region_x,
            z: region_z,
            modified_time,
            timestamps: table_timestamps(d),
        })
    }
}

/// `v` wrapped to an `i32`, as two's-complement arithmetic does.
pub fn wrap_to_i32(v: i64) -> (r: i32)
    requires
        -0x100_0000_0000 < v < 0x100_0000_0000,
    ensures
        r == wrap_i32(v as int),
{
    let shifted: u64 = (v + 0x100_0000_0000i64) as u64;
    let m: u64 = shifted % 0x1_0000_0000;
    proof {
        vstd::arithmetic::div_mod::lemma_mod_multiples_vanish(0x100, v as int, 0x1_0000_0000);
    }
    if m >= 0x8000_0000 {
        ((m as i64) - 0x1_0000_0000i64) as i32
    } else {
        m as i32
    }
}

/// The formats a region can be converted between, with the compression
/// level of the Linear format.
#[derive(Debug, Clone, Copy, PartialEq, Eq, Structural)]
pub enum ConverterType {
    Anvil,
    LinearV1(u8),
}

/// The region file formats.
#[derive(Debug, Clone, Copy, PartialEq, Eq, Structural)]
pub enum RegionType {
    Anvil,
    LinearV1,
    LinearV2,
}

/// Opens a region from a file and writes a region to a directory, in one
/// file format.
pub trait Converter {
    /// Reads the region file at `path`.
    fn open_region_file(path: &str) -> Result<Region, ConvertError>;

    /// Writes `region` into the directory `output`, compressed at `compression`.
    fn write_region_file(region: Region, output: &str, compression: i8) -> Result<(), ConvertError>;
}

/// A region file format that a value of type `T` can be read from and
/// written to.
pub trait RegionFormat<T> {
    /// Reads a `T` from `bytes`.
    fn from_bytes(&self, bytes: &[u8]) -> Result<T, ConvertError>;

    /// The bytes of this value.
    fn to_bytes(&self) -> Result<Vec<u8>, ConvertError>;
}

/// Opens a region from a file and writes a region to a directory, in one
/// file format, reading the region's coordinates from its file name.
pub trait RegionConverter {
    /// Reads the region file at `path`.
    fn open_region_file(path: &str) -> Result<Region, ConvertError>;

    /// Writes `region` into the directory `output`, compressed at `compression`.
    fn write_region_file(region: Region, output: &str, compression: i8) -> Result<(), ConvertError>;

    /// Extracts the region file's coordinates from its path `.../r.{x}.{z}.linear`,
    /// as `region_name_coords` does.
    fn parse_region_coords(path: &str) -> (r: Result<(i32, i32), ConvertError>)
        ensures
            r == named_region_coords(path.spec_bytes()),
    {
        region_name_coords(path)
    }
}

/// The converter for the Anvil format, whose reading and writing the
/// library does not implement.
#[derive(Default)]
pub struct AnvilConverter;

/// The region coordinates that a file name `r.{x}.{z}.linear` gives, as
/// `extract_region_coords` reads them: the name after the last `/` must have
/// exactly four `.`-separated parts, the second part is `x` and the third is
/// `z`, each an `i32`.
pub open spec fn region_coords(path: Seq<u8>) -> Result<(i32, i32), ConvertError> {
    let tokens = split_at_byte(after_last(path, 47), 46);
    if tokens.len() != 4 {
        Err(ConvertErrorOf::FileName)
    } else {
        match parse_i32_spec(tokens[1]) {
            Err(e) => Err(ConvertErrorOf::Coordinate(e)),
            Ok(x) => match parse_i32_spec(tokens[2]) {
                Err(e) => Err(ConvertErrorOf::Coordinate(e)),
                Ok(z) => Ok((x, z)),
            },
        }
    }
}

/// The file name `r.{x}.{z}.linear` of the region at `(x, z)`, each
/// coordinate in decimal.
pub open spec fn region_file_name(x: i32, z: i32) -> Seq<u8> {
    seq![114u8, 46u8] + signed_decimal_bytes(x as int) + seq![46u8] + signed_decimal_bytes(z as int)
        + seq![46u8, 108u8, 105u8, 110u8, 101u8, 97u8, 114u8]
}

/// The region coordinates of a file name as a region converter reads them:
/// those of `region_coords`, with a malformed name reported as `RegionFileName`.
pub open spec fn named_region_coords(path: Seq<u8>) -> Result<(i32, i32), ConvertError> {
    match region_coords(path) {
        Err(ConvertErrorOf::FileName) => Err(ConvertErrorOf::RegionFileName),
        r => r,
    }
}

/// Extracts the region file's coordinates from its path `.../r.{x}.{z}.linear`.
pub fn extract_region_coords(path: &str) -> (r: Result<(i32, i32), ConvertError>)
    ensures
        r == region_coords(path.spec_bytes()),
{
    let bytes = path.as_bytes();
    let start = after_last_start(bytes, 47);
    let name = vstd::slice::slice_subrange(bytes, start, bytes.len());
    match middle_of_four(name, 46) {
        None => Err(ConvertErrorOf::FileName),
        Some((lo, mid, hi)) => {
            let x = match parse_i32(vstd::slice::slice_subrange(name, lo, mid)) {
                Ok(x) => x,
                Err(e) => return Err(ConvertErrorOf::Coordinate(e)),
            };
            match parse_i32(vstd::slice::slice_subrange(name, mid + 1, hi)) {
                Ok(z) => Ok((x, z)),
                Err(e) => Err(ConvertErrorOf::Coordinate(e)),
            }
        },
    }
}

/// Extracts the region file's coordinates from its path `.../r.{x}.{z}.linear`,
/// as a region converter does.
pub fn region_name_coords(path: &str) -> (r: Result<(i32, i32), ConvertError>)
    ensures
        r == named_region_coords(path.spec_bytes()),
{
    match extract_region_coords(path) {
        Err(ConvertErrorOf::FileName) => Err(ConvertErrorOf::RegionFileName),
        other => other,
    }
}

/// The sizes and timestamps of the chunk table that opens `d`, the sum of
/// the sizes and the number of slots whose size is above zero.
pub fn read_chunk_table(d: &[u8]) -> (r: (Vec<u32>, [u32; MAX_REGION_CHUNKS], u64, i16))
    requires
        d@.len() >= LINEAR_HEADER_SIZE,
    ensures
        r.0@ == Seq::new(MAX_REGION_CHUNKS as nat, |i: int| record_size(d@, i)),
        r.1@ == table_timestamps(d@),
        r.2 == sizes_total(d@, MAX_REGION_CHUNKS as int),
        r.2 <= MAX_REGION_CHUNKS * 0xffff_ffff,
        r.3 == stored_count(d@, MAX_REGION_CHUNKS as int),
{
    let mut sizes: Vec<u32> = Vec::new();
    let mut timestamps: [u32; MAX_REGION_CHUNKS] = [0u32; 1024];
    let mut total: u64 = 0;
    let mut count: i16 = 0;
    let mut i: usize = 0;
    while i < MAX_REGION_CHUNKS
        invariant
            i <= MAX_REGION_CHUNKS,
            d@.len() >= LINEAR_HEADER_SIZE,
            sizes@ == Seq::new(i as nat, |k: int| record_size(d@, k)),
            forall|k: int| 0 <= k < i ==> #[trigger] timestamps@[k] == record_timestamp(d@, k),
            total == sizes_total(d@, i as int),
            total <= i * 0xffff_ffff,
            count == stored_count(d@, i as int),
            0 <= count <= i,
        decreases MAX_REGION_CHUNKS - i,
    {
        let size = byteorder_read_u32(vstd::slice::slice_subrange(d, 8 * i, 8 * i + 4));
        let timestamp = byteorder_read_u32(vstd::slice::slice_subrange(d, 8 * i + 4, 8 * i + 8));
        sizes.push(size);
        timestamps[i] = timestamp;
        total = total + size as u64;
        if size > 0 {
            count = count + 1;
        }
        i = i + 1;
        assert(sizes@ =~= Seq::new(i as nat, |k: int| record_size(d@, k)));
    }
    assert(timestamps@ =~= table_timestamps(d@));
    (sizes, timestamps, total, count)
}

/// The chunks that follow the chunk table of `d`, in slot order, each as long
/// as its size says; the first slot whose data is cut off where they do not fit.
pub fn read_chunk_data(d: &[u8], sizes: &Vec<u32>, region_x: i32, region_z: i32) -> (r: Result<RegionChunks, ConvertError>)
    requires
        d@.len() >= LINEAR_HEADER_SIZE,
        sizes@ == Seq::new(MAX_REGION_CHUNKS as nat, |i: int| record_size(d@, i)),
    ensures
        LINEAR_HEADER_SIZE + sizes_total(d@, MAX_REGION_CHUNKS as int) <= d@.len() ==> {
            &&& r is Ok
            &&& r->Ok_0.slots().len() == MAX_REGION_CHUNKS
            &&& r->Ok_0.model() == table_chunks(d@, region_x, region_z)
        },
        LINEAR_HEADER_SIZE + sizes_total(d@, MAX_REGION_CHUNKS as int) > d@.len()
            ==> r == Err::<RegionChunks, ConvertError>(ConvertErrorOf::ChunkDataRead(cut_slot(d@) as usize)),
        r is Ok ==> forall|i: int| 0 <= i < MAX_REGION_CHUNKS && #[trigger] r->Ok_0.model()[i] is Some ==> {
            &&& r->Ok_0.model()[i]->Some_0.0 == wrap_i32(32 * region_x + i % 32)
            &&& r->Ok_0.model()[i]->Some_0.1 == wrap_i32(32 * region_z + i / 32)
        },
{
    let len = d.len();
    let mut chunks: Vec<Option<Chunk>> = Vec::new();
    let mut pos: u64 = LINEAR_HEADER_SIZE as u64;
    let mut i: usize = 0;
    while i < MAX_REGION_CHUNKS
        invariant
            i <= MAX_REGION_CHUNKS,
            len == d@.len(),
            len >= LINEAR_HEADER_SIZE,
            sizes@ == Seq::new(MAX_REGION_CHUNKS as nat, |k: int| record_size(d@, k)),
            pos == LINEAR_HEADER_SIZE + sizes_total(d@, i as int),
            pos <= len,
            chunks@.len() == i,
            forall|k: int| 0 <= k < i ==> chunk_model(#[trigger] chunks@[k]) == table_chunk(d@, k, region_x, region_z),
        decreases MAX_REGION_CHUNKS - i,
    {
        let size = sizes[i];
        if size > 0 {
            if size as u64 > len as u64 - pos {
                proof {
                    assert(is_cut_slot(d@, i as int));
                    lemma_cut_slot_unique(d@, i as int);
                    lemma_sizes_total_monotonic(d@, i + 1, MAX_REGION_CHUNKS as int);
                }
                return Err(ConvertErrorOf::ChunkDataRead(i));
            }
            let data = vstd::slice::slice_subrange(d, pos as usize, (pos + size as u64) as usize);
            let x = wrap_to_i32(32 * (region_x as i64) + (i % 32) as i64);
            let z = wrap_to_i32(32 * (region_z as i64) + (i / 32) as i64);
            chunks.push(Some(Chunk::new(x, z, data)));
        } else {
            chunks.push(None);
        }
        pos = pos + size as u64;
        i = i + 1;
    }
    let r = RegionChunks(chunks);
    assert(r.model() =~= table_chunks(d@, region_x, region_z));
    Ok(r)
}

/// The header checks that every Linear file must pass: the signature at both
/// ends and version 1.
pub open spec fn header_checks_pass(b: Seq<u8>) -> bool {
    &&& be_u64_value(b.subrange(0, 8)) == LINEAR_SIGNATURE
    &&& b[8] == 1
    &&& be_u64_value(b.subrange(b.len() - 8, b.len() as int)) == LINEAR_SIGNATURE
}

/// The chunk count that a file's superblock gives.
pub open spec fn file_chunk_count(b: Seq<u8>) -> i16 {
    u16_as_i16(be_u16_value(b.subrange(18, 20)))
}

/// The compressed length that a file's superblock gives.
pub open spec fn file_compressed_len(b: Seq<u8>) -> u32 {
    be_u32_value(b.subrange(20, 24))
}

/// What `open_region_file` makes of the file bytes `b`, given the coordinates
/// read from its name and its modification time: the signature, version and
/// footer checks, the length of the compressed payload (modulo 2^32) against
/// the superblock, the coordinates, the decompression, then the payload.
pub open spec fn file_region(
    b: Seq<u8>,
    coords: Result<(i32, i32), ConvertError>,
    modified_time: u32,
) -> Result<RegionValue, ErrorValue> {
    let len = b.len();
    let actual = (len - 40) % 0x1_0000_0000;
    if be_u64_value(b.subrange(0, 8)) != LINEAR_SIGNATURE {
        Err(ConvertErrorOf::HeaderSignature)
    } else if b[8] != 1 {
        Err(ConvertErrorOf::Version(b[8]))
    } else if be_u64_value(b.subrange(len - 8, len as int)) != LINEAR_SIGNATURE {
        Err(ConvertErrorOf::FooterSignature)
    } else if actual != file_compressed_len(b) {
        Err(ConvertErrorOf::CompressedLength(file_compressed_len(b), actual as u32))
    } else {
        match coords {
            Err(e) => Err(e@),
            Ok((x, z)) => match zstd_decoded(b.subrange(32, len - 8)) {
                Err(t) => Err(ConvertErrorOf::Decompression(t)),
                Ok(d) => payload_region(d, file_chunk_count(b), x, z, modified_time),
            },
        }
    }
}

/// What `verify_region` makes of the file bytes `b`: it reads the first nine
/// bytes and the last eight, and checks the signatures and the version.
pub open spec fn file_verification(b: Seq<u8>) -> Result<(), ConvertError> {
    if b.len() < 9 {
        Err(ConvertErrorOf::HeaderRead)
    } else if be_u64_value(b.subrange(0, 8)) != LINEAR_SIGNATURE {
        Err(ConvertErrorOf::HeaderSignature)
    } else if b[8] != 1 {
        Err(ConvertErrorOf::Version(b[8]))
    } else if be_u64_value(b.subrange(b.len() - 8, b.len() as int)) != LINEAR_SIGNATURE {
        Err(ConvertErrorOf::FooterSignature)
    } else {
        Ok(())
    }
}

/// The chunk-table record that `write_region_file` writes for a slot: the
/// data's length (modulo 2^32) in four bytes and the timestamp widened to
/// eight bytes for a stored chunk, eight zero bytes for an empty slot.
pub open spec fn record_bytes(c: Option<(i32, i32, Seq<u8>)>, t: u32) -> Seq<u8> {
    match c {
        Some(ch) => be_u32_bytes((ch.2.len() % 0x1_0000_0000) as u32) + be_u64_bytes(t as u64),
        None => be_u32_bytes(0) + be_u32_bytes(0),
    }
}

/// The records of the first `n` slots.
pub open spec fn table_bytes(cm: Seq<Option<(i32, i32, Seq<u8>)>>, ts: Seq<u32>, n: int) -> Seq<u8>
    decreases n,
{
    if n <= 0 {
        Seq::empty()
    } else {
        table_bytes(cm, ts, n - 1) + record_bytes(cm[n - 1], ts[n - 1])
    }
}

/// The data of the stored chunks among the first `n` slots, in slot order.
pub open spec fn data_bytes(cm: Seq<Option<(i32, i32, Seq<u8>)>>, n: int) -> Seq<u8>
    decreases n,
{
    if n <= 0 {
        Seq::empty()
    } else {
        data_bytes(cm, n - 1) + match cm[n - 1] {
            Some(ch) => ch.2,
            None => Seq::empty(),
        }
    }
}

/// How many of the first `n` slots hold a chunk.
pub open spec fn present_count(cm: Seq<Option<(i32, i32, Seq<u8>)>>, n: int) -> int
    decreases n,
{
    if n <= 0 {
        0
    } else {
        present_count(cm, n - 1) + if cm[n - 1] is Some { 1int } else { 0int }
    }
}

/// The largest timestamp of a stored chunk among the first `n` slots, 0 where none is stored.
pub open spec fn newest_timestamp(cm: Seq<Option<(i32, i32, Seq<u8>)>>, ts: Seq<u32>, n: int) -> u64
    decreases n,
{
    if n <= 0 {
        0
    } else {
        let before = newest_timestamp(cm, ts, n - 1);
        if cm[n - 1] is Some && ts[n - 1] as u64 > before { ts[n - 1] as u64 } else { before }
    }
}

/// The payload that `write_region_file` compresses: the records of all
/// slots, then the data of the stored chunks.
pub open spec fn payload_bytes(r: RegionValue) -> Seq<u8> {
    table_bytes(r.chunks, r.timestamps, MAX_REGION_CHUNKS as int) + data_bytes(r.chunks, MAX_REGION_CHUNKS as int)
}

/// A Linear file as `write_region_file` writes it: the 32-byte superblock
/// (signature, version 1, newest timestamp, compression level, chunk count,
/// compressed length modulo 2^32, eight reserved zero bytes), the compressed
/// payload `enc`, the closing signature.
pub open spec fn linear_file(newest: u64, level: i8, chunk_count: i16, enc: Seq<u8>) -> Seq<u8> {
    be_u64_bytes(LINEAR_SIGNATURE) + seq![1u8] + be_u64_bytes(newest) + seq![i8_as_u8(level)]
        + be_u16_bytes(i16_as_u16(chunk_count)) + be_u32_bytes((enc.len() % 0x1_0000_0000) as u32)
        + be_u64_bytes(0) + enc + be_u64_bytes(LINEAR_SIGNATURE)
}

/// The file that `write_region_file` writes for the region `r` whose payload
/// compressed to `enc`.
pub open spec fn written_file(r: RegionValue, level: i8, enc: Seq<u8>) -> Seq<u8> {
    linear_file(
        newest_timestamp(r.chunks, r.timestamps, MAX_REGION_CHUNKS as int),
        level,
        present_count(r.chunks, MAX_REGION_CHUNKS as int) as i16,
        enc,
    )
}

/// Reads and writes whole Linear (version 1) region files.
pub struct LinearV1Converter;

impl LinearV1Converter {
    /// Checks the header signature, the version and the footer signature of
    /// the file bytes `buffer`.
    pub fn verify_region(buffer: &[u8]) -> (r: Result<(), ConvertError>)
        ensures
            r == file_verification(buffer@),
            r is Ok ==> {
                &&& buffer@.len() >= 9
                &&& be_u64_value(buffer@.subrange(0, 8)) == LINEAR_SIGNATURE
                &&& buffer@[8] == 1
                &&& be_u64_value(buffer@.subrange(buffer@.len() - 8, buffer@.len() as int)) == LINEAR_SIGNATURE
            },
    {
        let len = buffer.len();
        if len < 9 {
            return Err(ConvertErrorOf::HeaderRead);
        }
        let signature_begin = be_u64_at(buffer, 0);
        let version = buffer[8];
        let signature_end = be_u64_at(buffer, len - 8);
        if signature_begin != LINEAR_SIGNATURE {
            return Err(ConvertErrorOf::HeaderSignature);
        }
        if version != 1 {
            return Err(ConvertErrorOf::Version(version));
        }
        if signature_end != LINEAR_SIGNATURE {
            return Err(ConvertErrorOf::FooterSignature);
        }
        Ok(())
    }

    /// The region that the decompressed payload `d` holds, checked against
    /// the superblock's chunk count.
    pub fn region_from_decompressed(
        d: &[u8],
        chunk_count: i16,
        region_x: i32,
        region_z: i32,
        modified_time: u32,
    ) -> (r: Result<Region, ConvertError>)
        ensures
            region_result(r) == payload_region(d@, chunk_count, region_x, region_z, modified_time),
            r is Ok ==> r->Ok_0.wf(),
            r is Ok ==> forall|i: int| 0 <= i < MAX_REGION_CHUNKS && #[trigger] r->Ok_0@.chunks[i] is Some ==> {
                &&& r->Ok_0@.chunks[i]->Some_0.0 == wrap_i32(32 * region_x + i % 32)
                &&& r->Ok_0@.chunks[i]->Some_0.1 == wrap_i32(32 * region_z + i / 32)
            },
            r is Ok ==> present_count(r->Ok_0@.chunks, MAX_REGION_CHUNKS as int) == chunk_count,
    {
        let len = d.len();
        if len < LINEAR_HEADER_SIZE {
            if len % 8 < 4 {
                return Err(ConvertErrorOf::ChunkSizeRead(len / 8));
            } else {
                return Err(ConvertErrorOf::ChunkTimestampRead(len / 8));
            }
        }
        let (sizes, timestamps, total, count) = read_chunk_table(d);
        let expected: u64 = (total + LINEAR_HEADER_SIZE as u64) % 0x1_0000_0000;
        let actual: u64 = (len as u64) % 0x1_0000_0000;
        if expected != actual {
            return Err(ConvertErrorOf::DecompressedSize(expected as u32, actual as u32));
        }
        if count != chunk_count {
            return Err(ConvertErrorOf::ChunkCount(chunk_count, count));
        }
        match read_chunk_data(d, &sizes, region_x, region_z) {
            Err(e) => Err(e),
            Ok(chunks) => {
                let region = Region::new(chunks, region_x, region_z, modified_time, timestamps);
                assert(region@.chunks == table_chunks(d@, region_x, region_z));
                proof {
                    crate::laws::law_decoded_payload_consumed(d@, chunk_count, region_x, region_z, modified_time);
                }
                Ok(region)
            },
        }
    }

    /// Decodes the file bytes `buffer` of the region file at `path`, last
    /// modified at `modified_time`, into its region.
    pub fn region_from_bytes(buffer: &[u8], path: &str, modified_time: u32) -> (r: Result<Region, ConvertError>)
        requires
            buffer@.len() >= 24,
            header_checks_pass(buffer@) ==> buffer@.len() >= 40,
        ensures
            region_result(r) == file_region(buffer@, region_coords(path.spec_bytes()), modified_time),
            r is Ok ==> r->Ok_0.wf(),
            r is Ok ==> present_count(r->Ok_0@.chunks, MAX_REGION_CHUNKS as int) == 256 * buffer@[18] + buffer@[19],
    {
        let len = buffer.len();
        let signature_begin = be_u64_at(buffer, 0);
        let version = buffer[8];
        let chunk_count = be_i16_at(buffer, 18);
        let expected_encoded_len = be_u32_at(buffer, 20);
        let signature_end = be_u64_at(buffer, len - 8);
        if signature_begin != LINEAR_SIGNATURE {
            return Err(ConvertErrorOf::HeaderSignature);
        }
        if version != 1 {
            return Err(ConvertErrorOf::Version(version));
        }
        if signature_end != LINEAR_SIGNATURE {
            return Err(ConvertErrorOf::FooterSignature);
        }
        let encoded = vstd::slice::slice_subrange(buffer, 32, len - 8);
        let encoded_len: u64 = (encoded.len() as u64) % 0x1_0000_0000;
        if encoded_len != expected_encoded_len as u64 {
            return Err(ConvertErrorOf::CompressedLength(expected_encoded_len, encoded_len as u32));
        }
        let (region_x, region_z) = match extract_region_coords(path) {
            Ok(c) => c,
            Err(e) => return Err(e),
        };
        let decoded = match zstd_decode_all(encoded) {
            Ok(d) => d,
            Err(e) => return Err(ConvertErrorOf::Decompression(e)),
        };
        let r = Self::region_from_decompressed(decoded.as_slice(), chunk_count, region_x, region_z, modified_time);
        proof {
            if r is Ok {
                crate::laws::law_decoded_chunk_count(buffer@, region_coords(path.spec_bytes()), modified_time);
            }
        }
        r
    }

    /// The payload that holds `region`: a record per slot, then the data of
    /// the stored chunks; with the newest timestamp of a stored chunk and
    /// the number of stored chunks.
    pub fn region_payload(region: &Region) -> (r: (Vec<u8>, u64, i16))
        requires
            region.covers_all_slots(),
        ensures
            r.0@ == payload_bytes(region@),
            r.1 == newest_timestamp(region@.chunks, region@.timestamps, MAX_REGION_CHUNKS as int),
            r.2 == present_count(region@.chunks, MAX_REGION_CHUNKS as int),
            forall|i: int| 0 <= i < MAX_REGION_CHUNKS && #[trigger] region@.chunks[i] is Some
                ==> region@.timestamps[i] as u64 <= r.1,
            r.1 == 0 || exists|j: int|
                0 <= j < MAX_REGION_CHUNKS && #[trigger] region@.chunks[j] is Some
                    && region@.timestamps[j] as u64 == r.1,
    {
        let ghost cm = region@.chunks;
        let ghost ts = region@.timestamps;
        let mut newest: u64 = 0;
        let mut chunk_count: i16 = 0;
        let mut inner: Vec<u8> = Vec::new();
        let mut i: usize = 0;
        while i < MAX_REGION_CHUNKS
            invariant
                i <= MAX_REGION_CHUNKS,
                region.covers_all_slots(),
                cm == region@.chunks,
                ts == region@.timestamps,
                inner@ == table_bytes(cm, ts, i as int),
                chunk_count == present_count(cm, i as int),
                0 <= chunk_count <= i,
                newest == newest_timestamp(cm, ts, i as int),
            decreases MAX_REGION_CHUNKS - i,
        {
            assert(cm[i as int] == chunk_model(region.chunks.0@[i as int]));
            match &region.chunks.0[i] {
                Some(chunk) => {
                    let size: u32 = ((chunk.chunk_data.len() as u64) % 0x1_0000_0000) as u32;
                    let timestamp: u64 = region.timestamps[i] as u64;
                    append_be_u32(&mut inner, size);
                    append_be_u64(&mut inner, timestamp);
                    chunk_count = chunk_count + 1;
                    if timestamp > newest {
                        newest = timestamp;
                    }
                },
                None => {
                    append_be_u32(&mut inner, 0);
                    append_be_u32(&mut inner, 0);
                },
            }
            i = i + 1;
            assert(inner@ =~= table_bytes(cm, ts, i as int));
        }
        let mut j: usize = 0;
        let ghost table = inner@;
        assert(data_bytes(cm, 0) =~= Seq::<u8>::empty());
        assert(inner@ =~= table + data_bytes(cm, 0));
        while j < MAX_REGION_CHUNKS
            invariant
                j <= MAX_REGION_CHUNKS,
                region.covers_all_slots(),
                cm == region@.chunks,
                inner@ == table + data_bytes(cm, j as int),
            decreases MAX_REGION_CHUNKS - j,
        {
            assert(cm[j as int] == chunk_model(region.chunks.0@[j as int]));
            match &region.chunks.0[j] {
                Some(chunk) => {
                    append_bytes(&mut inner, chunk.chunk_data.as_slice());
                },
                None => {},
            }
            j = j + 1;
            assert(inner@ =~= table + data_bytes(cm, j as int));
        }
        proof {
            crate::laws::law_newest_timestamp_is_max(cm, ts, MAX_REGION_CHUNKS as int);
        }
        (inner, newest, chunk_count)
    }

    /// The Linear file around the compressed payload `encoded`, with the
    /// given superblock fields.
    pub fn linear_file_bytes(newest: u64, compression_level: i8, chunk_count: i16, encoded: &[u8]) -> (r: Vec<u8>)
        ensures
            r@ == linear_file(newest, compression_level, chunk_count, encoded@),
    {
        let encoded_length: u32 = ((encoded.len() as u64) % 0x1_0000_0000) as u32;
        let mut out: Vec<u8> = Vec::new();
        append_bytes(&mut out, byteorder_u64_bytes(LINEAR_SIGNATURE).as_slice());
        out.push(1u8);
        append_bytes(&mut out, byteorder_u64_bytes(newest).as_slice());
        out.push(i8_to_u8(compression_level));
        append_bytes(&mut out, byteorder_i16_bytes(chunk_count).as_slice());
        append_bytes(&mut out, byteorder_u32_bytes(encoded_length).as_slice());
        append_bytes(&mut out, byteorder_u64_bytes(0).as_slice());
        append_bytes(&mut out, encoded);
        append_bytes(&mut out, byteorder_u64_bytes(LINEAR_SIGNATURE).as_slice());
        assert(out@ =~= linear_file(newest, compression_level, chunk_count, encoded@));
        out
    }

    /// The bytes of the Linear file that holds `region`, its payload
    /// compressed at `compression_level`.
    pub fn region_to_bytes(region: &Region, compression_level: i8) -> (r: Result<Vec<u8>, ConvertError>)
        requires
            region.covers_all_slots(),
        ensures
            match zstd_encoded(payload_bytes(region@), compression_level as i32) {
                Err(t) => r is Err && r->Err_0@ == ConvertErrorOf::<Seq<char>>::Compression(t),
                Ok(enc) => r is Ok && r->Ok_0@ == written_file(region@, compression_level, enc),
            },
            r is Ok ==> forall|i: int| 0 <= i < MAX_REGION_CHUNKS && #[trigger] region@.chunks[i] is Some
                ==> region@.timestamps[i] as u64 <= be_u64_value(r->Ok_0@.subrange(9, 17)),
            r is Ok ==> be_u64_value(r->Ok_0@.subrange(9, 17)) == 0 || exists|j: int|
                0 <= j < MAX_REGION_CHUNKS && #[trigger] region@.chunks[j] is Some
                    && region@.timestamps[j] as u64 == be_u64_value(r->Ok_0@.subrange(9, 17)),
    {
        let (inner, newest, chunk_count) = Self::region_payload(region);
        let encoded = match zstd_encode_all(inner.as_slice(), compression_level as i32) {
            Ok(e) => e,
            Err(e) => return Err(ConvertErrorOf::Compression(e)),
        };
        proof {
            crate::laws::law_written_newest_timestamp(region@, compression_level, encoded@);
        }
        Ok(Self::linear_file_bytes(newest, compression_level, chunk_count, encoded.as_slice()))
    }
}

} // verus!
