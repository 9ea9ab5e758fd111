use linear_tools::converter::linear_v1::{
    ChunkHeader, ChunkHeaders, LinearChunkData, LinearFooter, LinearRegionFile, LinearSuperblock,
    LinearV1Converter as PartsConverter,
};
use linear_tools::converter::{
    read_chunk_table, wrap_to_i32, Chunk, LinearV1Converter, Region, RegionChunks, LINEAR_SIGNATURE,
};
use linear_tools::error::ConvertError;

/// A payload with the given (size, timestamp) records for the first slots,
/// zero records for the rest, then `data`.
fn payload(records: &[(u32, u32)], data: &[u8]) -> Vec<u8> {
    let mut p = Vec::new();
    for i in 0..1024 {
        let (size, ts) = if i < records.len() { records[i] } else { (0, 0) };
        p.extend_from_slice(&size.to_be_bytes());
        p.extend_from_slice(&ts.to_be_bytes());
    }
    p.extend_from_slice(data);
    p
}

/// A Linear file around the compressed `payload`.
fn linear_file(version: u8, chunk_count: i16, payload: &[u8]) -> Vec<u8> {
    let enc = zstd::encode_all(payload, 3).unwrap();
    let mut f = Vec::new();
    f.extend_from_slice(&LINEAR_SIGNATURE.to_be_bytes());
    f.push(version);
    f.extend_from_slice(&77u64.to_be_bytes());
    f.push(3);
    f.extend_from_slice(&chunk_count.to_be_bytes());
    f.extend_from_slice(&(enc.len() as u32).to_be_bytes());
    f.extend_from_slice(&0u64.to_be_bytes());
    f.extend_from_slice(&enc);
    f.extend_from_slice(&LINEAR_SIGNATURE.to_be_bytes());
    f
}

fn empty_region(x: i32, z: i32) -> Region {
    Region::new(RegionChunks::default(), x, z, 0, [0u32; 1024])
}

#[test]
fn decodes_a_file_with_two_chunks() {
    let p = payload(&[(3, 11), (0, 5), (2, 12)], &[1, 2, 3, 4, 5]);
    let file = linear_file(1, 2, &p);
    let region = LinearV1Converter::region_from_bytes(&file, "world/r.1.9.linear", 1234).unwrap();
    assert_eq!(region.x, 1);
    assert_eq!(region.z, 9);
    assert_eq!(region.modified_time, 1234);
    assert_eq!(region.timestamps.len(), 1024);
    assert_eq!(&region.timestamps[0..3], &[11, 5, 12]);
    assert_eq!(region.chunks.0.len(), 1024);
    let c0 = region.chunks.0[0].as_ref().unwrap();
    assert_eq!((c0.x, c0.z, c0.chunk_data.clone()), (32, 288, vec![1, 2, 3]));
    assert!(region.chunks.0[1].is_none());
    let c2 = region.chunks.0[2].as_ref().unwrap();
    assert_eq!((c2.x, c2.z, c2.chunk_data.clone()), (34, 288, vec![4, 5]));
    assert!(region.chunks.0[3..].iter().all(|c| c.is_none()));
    assert_eq!(LinearV1Converter::verify_region(&file), Ok(()));
}

#[test]
fn decoding_checks_the_header_in_order() {
    let p = payload(&[], &[]);
    let good = linear_file(1, 0, &p);
    let mut bad_sig = good.clone();
    bad_sig[0] ^= 1;
    assert_eq!(
        LinearV1Converter::region_from_bytes(&bad_sig, "r.0.0.linear", 0).err(),
        Some(ConvertError::HeaderSignature)
    );
    assert_eq!(
        LinearV1Converter::region_from_bytes(&linear_file(2, 0, &p), "r.0.0.linear", 0).err(),
        Some(ConvertError::Version(2))
    );
    let mut bad_footer = good.clone();
    let n = bad_footer.len();
    bad_footer[n - 1] ^= 1;
    assert_eq!(
        LinearV1Converter::region_from_bytes(&bad_footer, "r.0.0.linear", 0).err(),
        Some(ConvertError::FooterSignature)
    );
    let mut bad_len = good.clone();
    bad_len[23] = bad_len[23].wrapping_add(1);
    let actual = (good.len() - 40) as u32;
    assert_eq!(
        LinearV1Converter::region_from_bytes(&bad_len, "r.0.0.linear", 0).err(),
        Some(ConvertError::CompressedLength(actual + 1, actual))
    );
    assert_eq!(
        LinearV1Converter::region_from_bytes(&good, "r.0.linear", 0).err(),
        Some(ConvertError::FileName)
    );
}

#[test]
fn undecodable_payload_is_reported() {
    let mut f = linear_file(1, 0, &payload(&[], &[]));
    f[32] ^= 0xff;
    match LinearV1Converter::region_from_bytes(&f, "r.0.0.linear", 0) {
        Err(ConvertError::Decompression(text)) => {
            let expected = zstd::decode_all(&f[32..f.len() - 8]).unwrap_err().to_string();
            assert_eq!(text, expected);
            assert_eq!(
                ConvertError::Decompression(text).message(),
                format!("Zstd decompression failed: {}", expected)
            );
        }
        other => panic!("unexpected result {:?}", other.err()),
    }
}

#[test]
fn payload_errors() {
    assert_eq!(
        LinearV1Converter::region_from_decompressed(&[0u8; 99], 0, 0, 0, 0).err(),
        Some(ConvertError::ChunkSizeRead(12))
    );
    assert_eq!(
        LinearV1Converter::region_from_decompressed(&[0u8; 100], 0, 0, 0, 0).err(),
        Some(ConvertError::ChunkTimestampRead(12))
    );
    let p = payload(&[(4, 0)], &[1, 2]);
    assert_eq!(
        LinearV1Converter::region_from_decompressed(&p, 1, 0, 0, 0).err(),
        Some(ConvertError::DecompressedSize(8196, 8194))
    );
    let p = payload(&[(2, 0)], &[1, 2]);
    assert_eq!(
        LinearV1Converter::region_from_decompressed(&p, 5, 0, 0, 0).err(),
        Some(ConvertError::ChunkCount(5, 1))
    );
}

#[test]
fn chunk_coordinates_follow_the_slot() {
    let mut records = vec![(0u32, 0u32); 1024];
    records[33] = (1, 0);
    let p = payload(&records, &[7]);
    let region = LinearV1Converter::region_from_decompressed(&p, 1, -2, 5, 0).unwrap();
    let c = region.chunks.0[33].as_ref().unwrap();
    assert_eq!((c.x, c.z), (-64 + 1, 160 + 1));
}

#[test]
fn coordinates_wrap_as_i32() {
    assert_eq!(wrap_to_i32(0x8000_0000), i32::MIN);
    assert_eq!(wrap_to_i32(-1), -1);
    assert_eq!(wrap_to_i32(32 * (i32::MAX as i64) + 31), (i32::MAX).wrapping_mul(32).wrapping_add(31));
}

#[test]
fn reads_the_chunk_table() {
    let p = payload(&[(3, 9), (0, 1), (5, 2)], &[0; 8]);
    let (sizes, timestamps, total, count) = read_chunk_table(&p);
    assert_eq!(&sizes[0..3], &[3, 0, 5]);
    assert_eq!(&timestamps[0..3], &[9, 1, 2]);
    assert_eq!(total, 8);
    assert_eq!(count, 2);
}

#[test]
fn verify_region_checks_both_ends() {
    let good = linear_file(1, 0, &payload(&[], &[]));
    assert_eq!(LinearV1Converter::verify_region(&good), Ok(()));
    assert_eq!(LinearV1Converter::verify_region(&good[0..8]), Err(ConvertError::HeaderRead));
    assert_eq!(
        LinearV1Converter::verify_region(&linear_file(7, 0, &payload(&[], &[]))),
        Err(ConvertError::Version(7))
    );
    let mut bad = good.clone();
    bad[3] = 0;
    assert_eq!(LinearV1Converter::verify_region(&bad), Err(ConvertError::HeaderSignature));
    let mut bad = good.clone();
    let n = bad.len();
    bad[n - 4] = 0;
    assert_eq!(LinearV1Converter::verify_region(&bad), Err(ConvertError::FooterSignature));
}

#[test]
fn writes_an_empty_region_that_reads_back() {
    let region = empty_region(3, -4);
    let file = LinearV1Converter::region_to_bytes(&region, 5).unwrap();
    assert_eq!(&file[0..8], &LINEAR_SIGNATURE.to_be_bytes());
    assert_eq!(file[8], 1);
    assert_eq!(&file[9..17], &0u64.to_be_bytes());
    assert_eq!(file[17], 5);
    assert_eq!(&file[18..20], &0i16.to_be_bytes());
    assert_eq!(&file[20..24], &((file.len() - 40) as u32).to_be_bytes());
    assert_eq!(&file[24..32], &0u64.to_be_bytes());
    assert_eq!(&file[file.len() - 8..], &LINEAR_SIGNATURE.to_be_bytes());
    assert_eq!(LinearV1Converter::verify_region(&file), Ok(()));
    assert_eq!(PartsConverter::verify_region(&file), Ok(()));
    let decoded = LinearV1Converter::region_from_bytes(&file, "out/r.3.-4.linear", 42).unwrap();
    assert_eq!((decoded.x, decoded.z, decoded.modified_time), (3, -4, 42));
    assert!(decoded.chunks.0.iter().all(|c| c.is_none()));
    assert!(decoded.timestamps.iter().all(|t| *t == 0));
}

#[test]
fn writes_the_payload_compressed() {
    let mut chunks = RegionChunks::default();
    chunks.0[5] = Some(Chunk::new(5, 0, &[9, 8, 7]));
    chunks.0[9] = Some(Chunk::new(9, 0, &[6]));
    let mut timestamps = [0u32; 1024];
    timestamps[5] = 100;
    timestamps[9] = 300;
    timestamps[1] = 999;
    let region = Region::new(chunks, 0, 0, 0, timestamps);
    let file = LinearV1Converter::region_to_bytes(&region, -1).unwrap();
    assert_eq!(&file[9..17], &300u64.to_be_bytes());
    assert_eq!(file[17], 0xff);
    assert_eq!(&file[18..20], &2i16.to_be_bytes());
    let enc = &file[32..file.len() - 8];
    let inner = zstd::decode_all(enc).unwrap();
    assert_ne!(enc, &inner[..]);
    let mut expected = Vec::new();
    for i in 0..1024usize {
        if i == 5 {
            expected.extend_from_slice(&3u32.to_be_bytes());
            expected.extend_from_slice(&100u64.to_be_bytes());
        } else if i == 9 {
            expected.extend_from_slice(&1u32.to_be_bytes());
            expected.extend_from_slice(&300u64.to_be_bytes());
        } else {
            expected.extend_from_slice(&[0u8; 8]);
        }
    }
    expected.extend_from_slice(&[9, 8, 7, 6]);
    assert_eq!(inner, expected);
    assert_eq!(LinearV1Converter::verify_region(&file), Ok(()));
}

#[test]
fn superblock_round_trip() {
    let sb = LinearSuperblock {
        signature: LINEAR_SIGNATURE,
        version: 1,
        newest_timestamp: 0x0102030405060708,
        compression_level: -4,
        chunk_count: -300,
        compressed_len: 0xdeadbeef,
        reserved: 17,
    };
    let bytes = sb.to_bytes();
    assert_eq!(bytes.len(), 32);
    assert_eq!(LinearSuperblock::read_bytes(&bytes), Ok(sb));
    assert_eq!(&bytes[18..20], &(-300i16).to_be_bytes());
    assert_eq!(LinearSuperblock::read_bytes(&bytes[0..31]).err(), Some(ConvertError::SuperblockTooShort));
}

#[test]
fn footer_round_trip() {
    let f = LinearFooter(LINEAR_SIGNATURE);
    let bytes = f.to_bytes();
    assert_eq!(bytes, LINEAR_SIGNATURE.to_be_bytes().to_vec());
    assert_eq!(LinearFooter::read_bytes(&bytes).map(|f| f.0), Ok(LINEAR_SIGNATURE));
    assert_eq!(LinearFooter::read_bytes(&bytes[0..7]).err(), Some(ConvertError::FooterTooShort));
    assert_eq!(LinearFooter::read_bytes(&[0u8; 9]).err(), Some(ConvertError::FooterLength));
}

#[test]
fn verify_checks_superblock_and_footer() {
    let sb = LinearSuperblock {
        signature: LINEAR_SIGNATURE,
        version: 1,
        newest_timestamp: 0,
        compression_level: 0,
        chunk_count: 0,
        compressed_len: 0,
        reserved: 0,
    };
    assert_eq!(PartsConverter::verify(&sb, &LinearFooter(LINEAR_SIGNATURE)), Ok(()));
    assert_eq!(PartsConverter::verify(&sb, &LinearFooter(1)), Err(ConvertError::FooterSignature));
    let v2 = LinearSuperblock { version: 2, ..sb };
    assert_eq!(PartsConverter::verify(&v2, &LinearFooter(1)), Err(ConvertError::Version(2)));
    let bad = LinearSuperblock { signature: 5, ..sb };
    assert_eq!(PartsConverter::verify(&bad, &LinearFooter(1)), Err(ConvertError::HeaderSignature));
}

#[test]
fn chunk_data_checks() {
    let sb = LinearSuperblock {
        signature: LINEAR_SIGNATURE,
        version: 1,
        newest_timestamp: 0,
        compression_level: 0,
        chunk_count: 1,
        compressed_len: 0,
        reserved: 0,
    };
    assert_eq!(
        LinearChunkData::from_decompressed(&[0u8; 100], &sb, 0, 0).err(),
        Some(ConvertError::HeadersTooShort)
    );
    let p = payload(&[], &[]);
    assert_eq!(LinearChunkData::from_decompressed(&p, &sb, 0, 0).err(), Some(ConvertError::InvalidChunkCount));
    let p = payload(&[(2, 0)], &[1, 2]);
    assert_eq!(
        LinearChunkData::from_decompressed(&p, &sb, 0, 0).err(),
        Some(ConvertError::InvalidDecompressedSize)
    );
    let enc = zstd::encode_all(&p[..], 1).unwrap();
    assert_eq!(
        LinearChunkData::read_bytes(&enc, &sb, 0, 0).err(),
        Some(ConvertError::InvalidDecompressedSize)
    );
    let expected = zstd::decode_all(&[1u8, 2, 3][..]).unwrap_err().to_string();
    assert_eq!(LinearChunkData::read_bytes(&[1, 2, 3], &sb, 0, 0).err(), Some(ConvertError::ZstdDecode(expected.clone())));
    assert_eq!(ConvertError::ZstdDecode(expected.clone()).message(), expected);
}

#[test]
fn chunk_data_to_bytes_writes_table_then_coordinates() {
    let mut headers = ChunkHeaders::default();
    headers.0[0] = ChunkHeader { size: 5, timestamp: 6 };
    let mut chunks = RegionChunks::default();
    chunks.0[1] = Some(Chunk::new(-1, 2, &[1, 2, 3]));
    let data = LinearChunkData { headers, chunks };
    let bytes = data.to_bytes();
    assert_eq!(bytes.len(), 8192 + 8);
    assert_eq!(&bytes[0..8], &[0, 0, 0, 5, 0, 0, 0, 6]);
    assert_eq!(&bytes[8192..], &[0xff, 0xff, 0xff, 0xff, 0, 0, 0, 2]);
}

#[test]
fn region_file_reads_its_payload_from_byte_33() {
    let file = linear_file(1, 0, &payload(&[], &[]));
    let expected = zstd::decode_all(&file[33..file.len() - 8]).unwrap_err().to_string();
    assert_eq!(LinearRegionFile::read_bytes(&file, 0, 0).err(), Some(ConvertError::ZstdDecode(expected.clone())));
    assert_eq!(
        PartsConverter::region_from_bytes(&file, "r.0.0.linear", 0).err(),
        Some(ConvertError::ZstdDecode(expected))
    );
    assert_eq!(
        PartsConverter::region_from_bytes(&file, "r.0.linear", 0).err(),
        Some(ConvertError::RegionFileName)
    );
}

#[test]
fn region_file_to_bytes_joins_its_parts() {
    let sb = LinearSuperblock {
        signature: LINEAR_SIGNATURE,
        version: 1,
        newest_timestamp: 0,
        compression_level: 0,
        chunk_count: 0,
        compressed_len: 0,
        reserved: 0,
    };
    let file = LinearRegionFile {
        superblock: sb,
        chunk_data: LinearChunkData { headers: ChunkHeaders::default(), chunks: RegionChunks::default() },
        footer: LinearFooter(LINEAR_SIGNATURE),
    };
    let bytes = file.to_bytes().unwrap();
    assert_eq!(bytes.len(), 32 + 8192 + 8);
    assert_eq!(&bytes[0..32], &sb.to_bytes()[..]);
    assert_eq!(&bytes[bytes.len() - 8..], &LINEAR_SIGNATURE.to_be_bytes());
    assert!(PartsConverter::verify_region(&bytes).is_ok());
}

#[test]
fn cut_off_chunk_data_is_reported() {
    // Sizes that sum to 2^32 pass the length check modulo 2^32 on a payload
    // that holds only the table.
    let p = payload(&[(u32::MAX, 0), (1, 0)], &[]);
    assert_eq!(
        LinearV1Converter::region_from_decompressed(&p, 2, 0, 0, 0).err(),
        Some(ConvertError::ChunkDataRead(0))
    );
    let p = payload(&[(0, 0), (u32::MAX, 0), (16385, 0)], &[]);
    let sb = LinearSuperblock {
        signature: LINEAR_SIGNATURE,
        version: 1,
        newest_timestamp: 0,
        compression_level: 0,
        chunk_count: 2,
        compressed_len: 0,
        reserved: 0,
    };
    assert_eq!(LinearChunkData::from_decompressed(&p, &sb, 0, 0).err(), Some(ConvertError::ReadEof));
    let mut buf = [0u8; 4];
    let eof = std::io::Read::read_exact(&mut std::io::Cursor::new(vec![1u8]), &mut buf).unwrap_err();
    assert_eq!(ConvertError::ReadEof.message(), eof.to_string());
}

#[test]
fn payload_and_file_assembly() {
    let mut chunks = RegionChunks::default();
    chunks.0[2] = Some(Chunk::new(2, 0, &[1, 2]));
    let mut timestamps = [0u32; 1024];
    timestamps[2] = 9;
    timestamps[3] = 50;
    let region = Region::new(chunks, 0, 0, 0, timestamps);
    let (inner, newest, count) = LinearV1Converter::region_payload(&region);
    assert_eq!(newest, 9);
    assert_eq!(count, 1);
    assert_eq!(inner.len(), 8 * 1023 + 12 + 2);
    assert_eq!(&inner[16..28], &[0, 0, 0, 2, 0, 0, 0, 0, 0, 0, 0, 9]);
    assert_eq!(&inner[inner.len() - 2..], &[1, 2]);
    let file = LinearV1Converter::linear_file_bytes(9, 4, 1, &[0xaa, 0xbb]);
    let mut expected = Vec::new();
    expected.extend_from_slice(&LINEAR_SIGNATURE.to_be_bytes());
    expected.push(1);
    expected.extend_from_slice(&9u64.to_be_bytes());
    expected.push(4);
    expected.extend_from_slice(&1i16.to_be_bytes());
    expected.extend_from_slice(&2u32.to_be_bytes());
    expected.extend_from_slice(&0u64.to_be_bytes());
    expected.extend_from_slice(&[0xaa, 0xbb]);
    expected.extend_from_slice(&LINEAR_SIGNATURE.to_be_bytes());
    assert_eq!(file, expected);
}

#[test]
fn decoded_payload_is_consumed_and_counted() {
    let p = payload(&[(2, 0), (0, 0), (3, 0), (1, 0)], &[1, 2, 3, 4, 5, 6]);
    let region = LinearV1Converter::region_from_decompressed(&p, 3, 0, 0, 0).unwrap();
    let stored: Vec<&Chunk> = region.chunks.iter().filter_map(|c| c.as_ref()).collect();
    assert_eq!(stored.len(), 3);
    let total: usize = stored.iter().map(|c| c.chunk_data.len()).sum();
    assert_eq!(8192 + total, p.len());
}

#[test]
fn region_chunks_iterate_in_slot_order() {
    let mut chunks = RegionChunks::default();
    chunks.0[1] = Some(Chunk::new(1, 0, &[5]));
    assert_eq!(chunks.len(), 1024);
    let collected: Vec<Option<Chunk>> = chunks.into_iter().collect();
    assert!(collected[0].is_none());
    assert_eq!(collected[1].as_ref().map(|c| c.chunk_data.clone()), Some(vec![5]));
    let headers = ChunkHeaders::default();
    assert_eq!(headers.len(), 1024);
    assert!(headers.iter().all(|h| *h == ChunkHeader { size: 0, timestamp: 0 }));
}

#[test]
fn a_region_with_more_slots_is_written_from_its_first_slots() {
    let mut slots = RegionChunks::default();
    slots.0.push(Some(Chunk::new(0, 0, &[1, 2, 3])));
    let region = Region::new(slots, 0, 0, 0, [0u32; 1024]);
    let (inner, newest, count) = LinearV1Converter::region_payload(&region);
    assert_eq!((inner.len(), newest, count), (8192, 0, 0));
}

#[test]
fn error_messages() {
    assert_eq!(ConvertError::Version(2).message(), "Invalid version number (expected 1, found: 2)");
    assert_eq!(
        ConvertError::CompressedLength(4294967295, 0).message(),
        "Compressed data length is invalid: expected 4294967295, got 0"
    );
    assert_eq!(
        ConvertError::DecompressedSize(8196, 8194).message(),
        "Decompressed size is invalid: expected 8196 bytes, got 8194 bytes"
    );
    assert_eq!(ConvertError::ChunkCount(-5, 1).message(), "Chunk count is invalid: expected -5, got 1");
    assert_eq!(ConvertError::ChunkDataRead(1023).message(), "Failed to read chunk data for chunk 1023");
    assert_eq!(ConvertError::ChunkOutsideRegionZ(i32::MIN).message(), "Invalid z chunk for region -2147483648");
    assert_eq!(ConvertError::HeaderSignature.message(), "Invalid header signature for region file");
    assert_eq!(ConvertError::FileName.message(), "Region file is not named in the r.{x}.{z}.linear format");
    assert_eq!(ConvertError::FileHeaderSignature.message(), "Invalid header signature");
    assert_eq!(ConvertError::FileFooterSignature.message(), "Invalid footer signature");
    assert_eq!(ConvertError::Compression("boom".to_string()).message(), "boom");
}
