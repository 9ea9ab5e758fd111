//! Properties of the library as a whole: what writing a region file puts in
//! it, what reading and checking a file accept and give back, and how a
//! region file's name gives its coordinates.

use vstd::prelude::*;
use crate::bytes::{
    be_u16_bytes, be_u16_value, be_u32_bytes, be_u32_value, be_u64_bytes, be_u64_value,
    i16_as_u16, i8_as_u8, lemma_be_u16_value_of_bytes, lemma_be_u32_value_of_bytes,
    lemma_be_u64_value_of_bytes, lemma_i16_u16_inverse, lemma_i8_u8_inverse,
};
use crate::compression::zstd_decoded;
use crate::converter::{
    data_bytes, file_chunk_count, file_compressed_len, file_region, file_verification,
    header_checks_pass, newest_timestamp, payload_bytes, payload_region, present_count,
    record_bytes, record_size, record_timestamp, sizes_total, stored_count, table_bytes,
    table_chunk, table_chunks, table_timestamps, written_file, RegionValue,
    LINEAR_HEADER_SIZE, LINEAR_SIGNATURE, MAX_REGION_CHUNKS,
};
use crate::converter::linear_v1::{superblock_of, verification, LinearSuperblock};
use crate::converter::linear_v2::region_of_chunk;
use crate::converter::{region_coords, region_file_name, wrap_i32};
use crate::parse::{
    decimal_bytes, digits_value, is_digit, lemma_after_last_of_joined, lemma_after_last_whole,
    lemma_decimal_bytes_digits, lemma_scan_decimal, lemma_scan_digits_value, lemma_split_joined, lemma_split_single,
    parse_i32_spec, signed_decimal_bytes, split_at_byte, IntErrorKind,
};

verus! {

/// The bytes of zero, in every width, are zero bytes, and zero bytes read as zero.
pub proof fn lemma_zero_bytes()
    ensures
        be_u32_bytes(0) == seq![0u8, 0u8, 0u8, 0u8],
        be_u32_value(seq![0u8, 0u8, 0u8, 0u8]) == 0,
{
    assert((0u32 >> 24) as u8 == 0 && (0u32 >> 16) as u8 == 0 && (0u32 >> 8) as u8 == 0 && 0u32 as u8 == 0)
        by (bit_vector);
    assert(((0u8 as u32) << 24 | (0u8 as u32) << 16 | (0u8 as u32) << 8 | (0u8 as u32)) == 0) by (bit_vector);
    assert(be_u32_bytes(0) =~= seq![0u8, 0u8, 0u8, 0u8]);
}

/// A region none of whose slots holds a chunk.
pub open spec fn all_empty(cm: Seq<Option<(i32, i32, Seq<u8>)>>) -> bool {
    forall|i: int| 0 <= i < cm.len() ==> #[trigger] cm[i] is None
}

/// `n` zero bytes.
pub open spec fn zeros(n: nat) -> Seq<u8> {
    Seq::new(n, |i: int| 0u8)
}

/// The table of a region with no chunks is all zero bytes; it has no data,
/// no stored chunk and newest timestamp 0.
proof fn lemma_empty_region_payload(cm: Seq<Option<(i32, i32, Seq<u8>)>>, ts: Seq<u32>, n: int)
    requires
        all_empty(cm),
        0 <= n <= cm.len(),
        n <= ts.len(),
    ensures
        table_bytes(cm, ts, n) == zeros((8 * n) as nat),
        data_bytes(cm, n) == Seq::<u8>::empty(),
        present_count(cm, n) == 0,
        newest_timestamp(cm, ts, n) == 0,
    decreases n,
{
    if n > 0 {
        lemma_empty_region_payload(cm, ts, n - 1);
        lemma_zero_bytes();
        assert(cm[n - 1] is None);
        assert(record_bytes(cm[n - 1], ts[n - 1]) == seq![0u8, 0u8, 0u8, 0u8] + seq![0u8, 0u8, 0u8, 0u8]);
        assert(table_bytes(cm, ts, n) =~= zeros((8 * n) as nat));
        assert(data_bytes(cm, n) =~= Seq::<u8>::empty());
    }
}

/// A payload of zero bytes holds records of size 0 and timestamp 0.
proof fn lemma_zero_payload(n: int)
    requires
        0 <= n <= MAX_REGION_CHUNKS,
    ensures
        sizes_total(zeros(LINEAR_HEADER_SIZE as nat), n) == 0,
        stored_count(zeros(LINEAR_HEADER_SIZE as nat), n) == 0,
        forall|i: int| 0 <= i < n ==> record_size(zeros(LINEAR_HEADER_SIZE as nat), i) == 0
            && record_timestamp(zeros(LINEAR_HEADER_SIZE as nat), i) == 0,
    decreases n,
{
    if n > 0 {
        let d = zeros(LINEAR_HEADER_SIZE as nat);
        lemma_zero_payload(n - 1);
        lemma_zero_bytes();
        assert(d.subrange(8 * (n - 1), 8 * (n - 1) + 4) =~= seq![0u8, 0u8, 0u8, 0u8]);
        assert(d.subrange(8 * (n - 1) + 4, 8 * (n - 1) + 8) =~= seq![0u8, 0u8, 0u8, 0u8]);
    }
}

/// Counting stored chunks never counts more slots than there are.
proof fn lemma_present_count_bound(cm: Seq<Option<(i32, i32, Seq<u8>)>>, n: int)
    requires
        0 <= n,
    ensures
        0 <= present_count(cm, n) <= n,
    decreases n,
{
    if n > 0 {
        lemma_present_count_bound(cm, n - 1);
    }
}

/// The superblock of a written file reads back as signature, version 1,
/// the newest timestamp of a stored chunk, the compression level, the number
/// of stored chunks, the compressed length (modulo 2^32) and reserved zero.
pub proof fn law_written_superblock(r: RegionValue, level: i8, enc: Seq<u8>)
    ensures
        superblock_of(written_file(r, level, enc)) == (LinearSuperblock {
            signature: LINEAR_SIGNATURE,
            version: 1,
            newest_timestamp: newest_timestamp(r.chunks, r.timestamps, MAX_REGION_CHUNKS as int),
            compression_level: level,
            chunk_count: present_count(r.chunks, MAX_REGION_CHUNKS as int) as i16,
            compressed_len: (enc.len() % 0x1_0000_0000) as u32,
            reserved: 0,
        }),
{
    let b = written_file(r, level, enc);
    let newest = newest_timestamp(r.chunks, r.timestamps, MAX_REGION_CHUNKS as int);
    let count = present_count(r.chunks, MAX_REGION_CHUNKS as int);
    let len32 = (enc.len() % 0x1_0000_0000) as u32;
    lemma_present_count_bound(r.chunks, MAX_REGION_CHUNKS as int);
    lemma_be_u64_value_of_bytes(LINEAR_SIGNATURE);
    lemma_be_u64_value_of_bytes(newest);
    lemma_be_u64_value_of_bytes(0);
    lemma_be_u32_value_of_bytes(len32);
    lemma_be_u16_value_of_bytes(i16_as_u16(count as i16));
    lemma_i8_u8_inverse(level, 0);
    lemma_i16_u16_inverse(count as i16, 0);
    assert(b.subrange(0, 8) =~= be_u64_bytes(LINEAR_SIGNATURE));
    assert(b[8] == 1u8);
    assert(b.subrange(9, 17) =~= be_u64_bytes(newest));
    assert(b[17] == i8_as_u8(level));
    assert(b.subrange(18, 20) =~= be_u16_bytes(i16_as_u16(count as i16)));
    assert(b.subrange(20, 24) =~= be_u32_bytes(len32));
    assert(b.subrange(24, 32) =~= be_u64_bytes(0));
}

/// Every file that writing produces passes both checks of a file: that of
/// `verify_region` on the whole file and that of the superblock and footer.
pub proof fn law_written_file_verifies(r: RegionValue, level: i8, enc: Seq<u8>)
    ensures
        file_verification(written_file(r, level, enc)) == Ok::<(), crate::error::ConvertError>(()),
        header_checks_pass(written_file(r, level, enc)),
        verification(
            superblock_of(written_file(r, level, enc)),
            be_u64_value(written_file(r, level, enc).subrange(
                written_file(r, level, enc).len() - 8,
                written_file(r, level, enc).len() as int,
            )),
        ) == Ok::<(), crate::error::ConvertError>(()),
{
    let b = written_file(r, level, enc);
    law_written_superblock(r, level, enc);
    lemma_be_u64_value_of_bytes(LINEAR_SIGNATURE);
    assert(b.subrange(0, 8) =~= be_u64_bytes(LINEAR_SIGNATURE));
    assert(b.subrange(b.len() - 8, b.len() as int) =~= be_u64_bytes(LINEAR_SIGNATURE));
}

/// Decoding accepts only files that pass `verify_region`'s check.
pub proof fn law_decoded_file_verifies(b: Seq<u8>, coords: Result<(i32, i32), crate::error::ConvertError>, modified_time: u32)
    requires
        b.len() >= 24,
        file_region(b, coords, modified_time) is Ok,
    ensures
        file_verification(b) == Ok::<(), crate::error::ConvertError>(()),
{
}

/// Writing a region that holds no chunk and decoding the file gives the
/// region back, with its coordinates from the file name, the file's
/// modification time and every timestamp 0 (empty slots are written with
/// timestamp 0).
pub proof fn law_empty_region_round_trip(
    r: RegionValue,
    level: i8,
    enc: Seq<u8>,
    x: i32,
    z: i32,
    modified_time: u32,
)
    requires
        r.chunks.len() == MAX_REGION_CHUNKS,
        r.timestamps.len() == MAX_REGION_CHUNKS,
        all_empty(r.chunks),
        zstd_decoded(enc) == Ok::<Seq<u8>, Seq<char>>(payload_bytes(r)),
    ensures
        file_region(written_file(r, level, enc), Ok((x, z)), modified_time) == Ok::<RegionValue, crate::error::ErrorValue>(RegionValue {
            chunks: r.chunks,
            x,
            z,
            modified_time,
            timestamps: Seq::new(MAX_REGION_CHUNKS as nat, |i: int| 0u32),
        }),
{
    let b = written_file(r, level, enc);
    let len = b.len();
    law_written_file_verifies(r, level, enc);
    law_written_superblock(r, level, enc);
    lemma_empty_region_payload(r.chunks, r.timestamps, MAX_REGION_CHUNKS as int);
    let d = zeros(LINEAR_HEADER_SIZE as nat);
    assert(payload_bytes(r) =~= d);
    lemma_zero_payload(MAX_REGION_CHUNKS as int);
    assert(b.subrange(32, len - 8) =~= enc);
    assert(file_compressed_len(b) == superblock_of(b).compressed_len);
    assert(file_chunk_count(b) == superblock_of(b).chunk_count);
    assert(table_chunks(d, x, z) =~= r.chunks) by {
        assert forall|i: int| 0 <= i < MAX_REGION_CHUNKS implies table_chunk(d, i, x, z) == r.chunks[i] by {
            assert(r.chunks[i] is None);
        }
    }
    assert(table_timestamps(d) =~= Seq::new(MAX_REGION_CHUNKS as nat, |i: int| 0u32));
}

/// A chunk that decoding places in slot `i` of the region `(region_x,
/// region_z)` lies, by the region check of the chunk bitmap, in that same
/// region, for regions with coordinates from 0 to 2^24 - 1 (where the
/// truncating division and the `f32` conversion of that check are exact).
pub proof fn law_decoded_chunk_in_own_region(region_x: i32, region_z: i32, i: int)
    requires
        0 <= region_x < 0x100_0000,
        0 <= region_z < 0x100_0000,
        0 <= i < MAX_REGION_CHUNKS,
    ensures
        region_of_chunk(wrap_i32(32 * region_x + i % 32)) == region_x,
        region_of_chunk(wrap_i32(32 * region_z + i / 32)) == region_z,
{
    let vx = 32 * region_x + i % 32;
    let vz = 32 * region_z + i / 32;
    assert(0 <= i / 32 < 32);
    assert(vx % 0x1_0000_0000 == vx);
    assert(vz % 0x1_0000_0000 == vz);
    assert(vx / 32 == region_x);
    assert(vz / 32 == region_z);
}

/// Counting the stored chunks of the decoded slots counts the records whose
/// size is above zero.
proof fn lemma_present_count_of_table(d: Seq<u8>, region_x: i32, region_z: i32, n: int)
    requires
        0 <= n <= MAX_REGION_CHUNKS,
    ensures
        present_count(table_chunks(d, region_x, region_z), n) == stored_count(d, n),
    decreases n,
{
    if n > 0 {
        lemma_present_count_of_table(d, region_x, region_z, n - 1);
    }
}

/// A payload that decodes is consumed to its end (for payloads shorter than
/// 2^32 bytes, where the length check is exact), and the decoded region holds
/// as many chunks as the superblock counts.
pub proof fn law_decoded_payload_consumed(
    d: Seq<u8>,
    chunk_count: i16,
    region_x: i32,
    region_z: i32,
    modified_time: u32,
)
    requires
        payload_region(d, chunk_count, region_x, region_z, modified_time) is Ok,
    ensures
        d.len() < 0x1_0000_0000 ==> LINEAR_HEADER_SIZE + sizes_total(d, MAX_REGION_CHUNKS as int) == d.len(),
        present_count(
            payload_region(d, chunk_count, region_x, region_z, modified_time)->Ok_0.chunks,
            MAX_REGION_CHUNKS as int,
        ) == chunk_count,
{
    lemma_present_count_of_table(d, region_x, region_z, MAX_REGION_CHUNKS as int);
    crate::converter::lemma_sizes_total_monotonic(d, 0, MAX_REGION_CHUNKS as int);
    let t = sizes_total(d, MAX_REGION_CHUNKS as int) + LINEAR_HEADER_SIZE;
    if d.len() < 0x1_0000_0000 {
        assert(t % 0x1_0000_0000 == t);
        assert(d.len() % 0x1_0000_0000 == d.len());
    }
}

/// Only the last component of a path decides its region coordinates: a
/// directory part before the last `/` changes nothing.
pub proof fn law_coords_from_last_component(dir: Seq<u8>, name: Seq<u8>)
    requires
        forall|i: int| 0 <= i < name.len() ==> name[i] != 47,
    ensures
        region_coords(dir + seq![47u8] + name) == region_coords(name),
{
    lemma_after_last_of_joined(dir, 47, name);
    lemma_after_last_whole(name, 47);
}

/// The newest timestamp of the first `n` slots is the largest timestamp of a
/// slot among them that holds a chunk: no such slot has a later one, and it is
/// the timestamp of one of them, or 0 where none holds a chunk.
pub proof fn law_newest_timestamp_is_max(cm: Seq<Option<(i32, i32, Seq<u8>)>>, ts: Seq<u32>, n: int)
    requires
        0 <= n <= cm.len(),
        n <= ts.len(),
    ensures
        forall|i: int| 0 <= i < n && #[trigger] cm[i] is Some ==> ts[i] as u64 <= newest_timestamp(cm, ts, n),
        newest_timestamp(cm, ts, n) == 0 || exists|j: int|
            0 <= j < n && #[trigger] cm[j] is Some && ts[j] as u64 == newest_timestamp(cm, ts, n),
    decreases n,
{
    if n > 0 {
        law_newest_timestamp_is_max(cm, ts, n - 1);
        let before = newest_timestamp(cm, ts, n - 1);
        let now = newest_timestamp(cm, ts, n);
        if now != before {
            assert(cm[n - 1] is Some && ts[n - 1] as u64 == now);
        } else if now != 0 {
            let j = choose|j: int| 0 <= j < n - 1 && #[trigger] cm[j] is Some && ts[j] as u64 == before;
            assert(0 <= j < n && cm[j] is Some && ts[j] as u64 == now);
        }
    }
}

/// In the file written for a region, the superblock's newest timestamp
/// (bytes 9 to 16) is the largest timestamp of a slot that holds a chunk, 0
/// where no slot holds one.
pub proof fn law_written_newest_timestamp(r: RegionValue, level: i8, enc: Seq<u8>)
    requires
        r.chunks.len() >= MAX_REGION_CHUNKS,
        r.timestamps.len() >= MAX_REGION_CHUNKS,
    ensures
        forall|i: int| 0 <= i < MAX_REGION_CHUNKS && #[trigger] r.chunks[i] is Some
            ==> r.timestamps[i] as u64 <= be_u64_value(written_file(r, level, enc).subrange(9, 17)),
        be_u64_value(written_file(r, level, enc).subrange(9, 17)) == 0 || exists|j: int|
            0 <= j < MAX_REGION_CHUNKS && #[trigger] r.chunks[j] is Some
                && r.timestamps[j] as u64 == be_u64_value(written_file(r, level, enc).subrange(9, 17)),
{
    law_written_superblock(r, level, enc);
    law_newest_timestamp_is_max(r.chunks, r.timestamps, MAX_REGION_CHUNKS as int);
}

/// Wrapping to an `i32` keeps the remainder modulo 32.
proof fn lemma_wrap_i32_mod_32(v: int)
    ensures
        wrap_i32(v) as int % 32 == v % 32,
{
    vstd::arithmetic::div_mod::lemma_mod_mod(v, 32, 0x800_0000);
    let m = v % 0x1_0000_0000;
    if m >= 0x8000_0000 {
        vstd::arithmetic::div_mod::lemma_mod_sub_multiples_vanish(m, 32);
        assert((m - 0x1_0000_0000) % 32 == m % 32) by {
            vstd::arithmetic::div_mod::lemma_mod_multiples_vanish(-0x800_0000, m, 32);
        }
    }
}

/// A chunk that decoding places in slot `i` of the region `(region_x,
/// region_z)` has chunk coordinates `x == 32 * region_x + i % 32` and
/// `z == 32 * region_z + i / 32` (in wrapping `i32` arithmetic); so its slot
/// is `x mod 32 + 32 * (z mod 32)`.
pub proof fn law_decoded_chunk_coordinates(
    d: Seq<u8>,
    chunk_count: i16,
    region_x: i32,
    region_z: i32,
    modified_time: u32,
    i: int,
)
    requires
        payload_region(d, chunk_count, region_x, region_z, modified_time) is Ok,
        0 <= i < MAX_REGION_CHUNKS,
        payload_region(d, chunk_count, region_x, region_z, modified_time)->Ok_0.chunks[i] is Some,
    ensures
        ({
            let c = payload_region(d, chunk_count, region_x, region_z, modified_time)->Ok_0.chunks[i]->Some_0;
            &&& c.0 == wrap_i32(32 * region_x + i % 32)
            &&& c.1 == wrap_i32(32 * region_z + i / 32)
            &&& c.0 as int % 32 == i % 32
            &&& c.1 as int % 32 == i / 32
            &&& i == c.0 as int % 32 + 32 * (c.1 as int % 32)
        }),
{
    let vx = 32 * region_x + i % 32;
    let vz = 32 * region_z + i / 32;
    lemma_wrap_i32_mod_32(vx);
    lemma_wrap_i32_mod_32(vz);
    assert(0 <= i / 32 < 32);
    vstd::arithmetic::div_mod::lemma_mod_multiples_vanish(region_x as int, i % 32, 32);
    vstd::arithmetic::div_mod::lemma_mod_multiples_vanish(region_z as int, i / 32, 32);
    assert(vx % 32 == i % 32);
    assert(vz % 32 == i / 32);
}

/// A file that decodes holds exactly as many chunks as its superblock's
/// chunk count, the big-endian 16-bit field at bytes 18 and 19.
pub proof fn law_decoded_chunk_count(b: Seq<u8>, coords: Result<(i32, i32), crate::error::ConvertError>, modified_time: u32)
    requires
        b.len() >= 24,
        file_region(b, coords, modified_time) is Ok,
    ensures
        present_count(file_region(b, coords, modified_time)->Ok_0.chunks, MAX_REGION_CHUNKS as int)
            == superblock_of(b).chunk_count,
        present_count(file_region(b, coords, modified_time)->Ok_0.chunks, MAX_REGION_CHUNKS as int)
            == 256 * b[18] + b[19],
{
    let (x, z) = coords->Ok_0;
    let d = zstd_decoded(b.subrange(32, b.len() - 8))->Ok_0;
    law_decoded_payload_consumed(d, file_chunk_count(b), x, z, modified_time);
    let chunks = file_region(b, coords, modified_time)->Ok_0.chunks;
    lemma_present_count_bound(chunks, MAX_REGION_CHUNKS as int);
    let s = b.subrange(18, 20);
    let b18 = s[0];
    let b19 = s[1];
    assert(((b18 as u16) << 8 | (b19 as u16)) == 256 * b18 + b19) by (bit_vector);
    assert(be_u16_value(s) == 256 * b[18] + b[19]);
}

/// Verification accepts a file exactly when it is at least nine bytes long,
/// opens and ends with the signature and has version 1 (byte 8); a file with
/// the right opening signature and another version is refused with that
/// version.
pub proof fn law_verification_only_version_one(b: Seq<u8>)
    ensures
        file_verification(b) is Ok <==> {
            &&& b.len() >= 9
            &&& be_u64_value(b.subrange(0, 8)) == LINEAR_SIGNATURE
            &&& b[8] == 1
            &&& be_u64_value(b.subrange(b.len() - 8, b.len() as int)) == LINEAR_SIGNATURE
        },
        b.len() >= 9 && be_u64_value(b.subrange(0, 8)) == LINEAR_SIGNATURE && b[8] != 1
            ==> file_verification(b) == Err::<(), crate::error::ConvertError>(crate::error::ConvertErrorOf::Version(b[8])),
{
}

/// Checking a superblock and footer accepts them exactly when both
/// signatures are right and the version is 1.
pub proof fn law_superblock_verification_only_version_one(superblock: LinearSuperblock, footer: u64)
    ensures
        verification(superblock, footer) is Ok <==> {
            &&& superblock.signature == LINEAR_SIGNATURE
            &&& superblock.version == 1
            &&& footer == LINEAR_SIGNATURE
        },
        superblock.signature == LINEAR_SIGNATURE && superblock.version != 1
            ==> verification(superblock, footer) == Err::<(), crate::error::ConvertError>(
                crate::error::ConvertErrorOf::Version(superblock.version),
            ),
{
}

/// Reading the decimal text of any `i32` gives the number back.
pub proof fn law_parse_decimal_text(v: i32)
    ensures
        parse_i32_spec(signed_decimal_bytes(v as int)) == Ok::<i32, IntErrorKind>(v),
{
    let s = signed_decimal_bytes(v as int);
    if v >= 0 {
        let n = v as nat;
        lemma_decimal_bytes_digits(n);
        lemma_scan_decimal(n, 0x7fff_ffff);
        assert(is_digit(s[0]));
    } else {
        let n = (-(v as int)) as nat;
        lemma_decimal_bytes_digits(n);
        lemma_scan_decimal(n, 0x8000_0000);
        assert(s[0] == 45u8);
        assert(s.drop_first() =~= decimal_bytes(n));
    }
}

/// The decimal text of a number holds neither `.` nor `/`, and is not empty.
proof fn lemma_decimal_text_plain(v: int)
    ensures
        signed_decimal_bytes(v).len() >= 1,
        forall|i: int| 0 <= i < signed_decimal_bytes(v).len()
            ==> #[trigger] signed_decimal_bytes(v)[i] != 46 && signed_decimal_bytes(v)[i] != 47,
{
    let n = if v < 0 { (-v) as nat } else { v as nat };
    lemma_decimal_bytes_digits(n);
    let s = signed_decimal_bytes(v);
    assert forall|i: int| 0 <= i < s.len() implies #[trigger] s[i] != 46 && s[i] != 47 by {
        if v < 0 && i > 0 {
            assert(s[i] == decimal_bytes(n)[i - 1]);
        }
    }
}

/// The coordinates read from the name `r.{x}.{z}.linear` are `(x, z)`, for
/// every `x` and `z`.
pub proof fn law_region_name_round_trip(x: i32, z: i32)
    ensures
        region_coords(region_file_name(x, z)) == Ok::<(i32, i32), crate::error::ConvertError>((x, z)),
{
    let tx = signed_decimal_bytes(x as int);
    let tz = signed_decimal_bytes(z as int);
    let r = seq![114u8];
    let ext = seq![108u8, 105u8, 110u8, 101u8, 97u8, 114u8];
    let name = region_file_name(x, z);
    lemma_decimal_text_plain(x as int);
    lemma_decimal_text_plain(z as int);
    let p1 = r + seq![46u8] + tx;
    let p2 = p1 + seq![46u8] + tz;
    assert(name =~= p2 + seq![46u8] + ext);
    assert forall|i: int| 0 <= i < name.len() implies name[i] != 47 by {
        if i >= 2 && i < 2 + tx.len() {
            assert(name[i] == tx[i - 2]);
        } else if i >= 3 + tx.len() && i < 3 + tx.len() + tz.len() {
            assert(name[i] == tz[i - 3 - tx.len()]);
        }
    }
    lemma_after_last_whole(name, 47);
    assert forall|i: int| 0 <= i < r.len() implies r[i] != 46 by {}
    assert forall|i: int| 0 <= i < ext.len() implies ext[i] != 46 by {}
    lemma_split_single(r, 46);
    lemma_split_joined(r, 46, tx);
    lemma_split_joined(p1, 46, tz);
    lemma_split_joined(p2, 46, ext);
    let tokens = split_at_byte(name, 46);
    assert(tokens =~= seq![r, tx, tz, ext]);
    law_parse_decimal_text(x);
    law_parse_decimal_text(z);
}

/// The coordinates read from a path `{dir}/r.{x}.{z}.linear` are `(x, z)`,
/// whatever the directory.
pub proof fn law_region_path_round_trip(dir: Seq<u8>, x: i32, z: i32)
    ensures
        region_coords(dir + seq![47u8] + region_file_name(x, z)) == Ok::<(i32, i32), crate::error::ConvertError>((x, z)),
{
    let tx = signed_decimal_bytes(x as int);
    let tz = signed_decimal_bytes(z as int);
    let name = region_file_name(x, z);
    lemma_decimal_text_plain(x as int);
    lemma_decimal_text_plain(z as int);
    assert forall|i: int| 0 <= i < name.len() implies name[i] != 47 by {
        if i >= 2 && i < 2 + tx.len() {
            assert(name[i] == tx[i - 2]);
        } else if i >= 3 + tx.len() && i < 3 + tx.len() + tz.len() {
            assert(name[i] == tz[i - 3 - tx.len()]);
        }
    }
    law_coords_from_last_component(dir, name);
    law_region_name_round_trip(x, z);
}

/// Reading one or more decimal digits, with no sign or a `+` before them,
/// gives the number they write where it is at most `i32::MAX` and a positive
/// overflow where it is larger; with a `-` before them, the negated number
/// where it is at least `i32::MIN` and a negative overflow where it is
/// smaller.
pub proof fn law_parse_digits(sign: Seq<u8>, d: Seq<u8>)
    requires
        sign == Seq::<u8>::empty() || sign == seq![43u8] || sign == seq![45u8],
        d.len() >= 1,
        forall|i: int| 0 <= i < d.len() ==> is_digit(#[trigger] d[i]),
    ensures
        sign != seq![45u8] && digits_value(d) <= 0x7fff_ffff
            ==> parse_i32_spec(sign + d) == Ok::<i32, IntErrorKind>(digits_value(d) as i32),
        sign != seq![45u8] && digits_value(d) > 0x7fff_ffff
            ==> parse_i32_spec(sign + d) == Err::<i32, IntErrorKind>(IntErrorKind::PosOverflow),
        sign == seq![45u8] && digits_value(d) <= 0x8000_0000
            ==> parse_i32_spec(sign + d) == Ok::<i32, IntErrorKind>((-digits_value(d)) as i32),
        sign == seq![45u8] && digits_value(d) > 0x8000_0000
            ==> parse_i32_spec(sign + d) == Err::<i32, IntErrorKind>(IntErrorKind::NegOverflow),
{
    let s = sign + d;
    if sign.len() == 0 {
        assert(s =~= d);
        assert(is_digit(d[0]));
        lemma_scan_digits_value(d, 0x7fff_ffff);
    } else {
        assert(s.drop_first() =~= d);
        assert(s[0] == sign[0]);
        if sign == seq![45u8] {
            lemma_scan_digits_value(d, 0x8000_0000);
        } else {
            lemma_scan_digits_value(d, 0x7fff_ffff);
        }
    }
}

} // verus!
