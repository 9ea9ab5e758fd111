use linear_tools::converter::LinearV1Converter;
use linear_tools::converter::linear_v2::{ChunkBitmap, LinearSuperblock};
use linear_tools::error::ConvertError;

fn superblock(region_x: i32, region_z: i32) -> LinearSuperblock {
    LinearSuperblock { signature: 0, version: 2, newest_timestamp: 0, grid_size: 1, region_x, region_z }
}

fn float_region(c: i32) -> i32 {
    ((c / 32) as f32).floor() as i32
}

#[test]
fn chunk_in_its_region_is_answered_false() {
    let bitmap = ChunkBitmap::new(u128::MAX);
    assert_eq!(bitmap.0, u128::MAX);
    assert_eq!(bitmap.chunk_exists(&superblock(1, 2), 40, 70), Ok(false));
}

#[test]
fn chunk_outside_the_region_is_refused() {
    let bitmap = ChunkBitmap::new(0);
    assert_eq!(bitmap.chunk_exists(&superblock(1, 2), 10, 70), Err(ConvertError::ChunkOutsideRegionX(1)));
    assert_eq!(bitmap.chunk_exists(&superblock(1, 2), 40, 10), Err(ConvertError::ChunkOutsideRegionZ(1)));
}

#[test]
fn division_truncates_toward_zero() {
    let bitmap = ChunkBitmap::new(0);
    assert_eq!(bitmap.chunk_exists(&superblock(0, 0), -5, -31), Ok(false));
    assert_eq!(bitmap.chunk_exists(&superblock(-1, 0), -33, 0), Ok(false));
}

#[test]
fn region_matches_the_f32_computation() {
    let bitmap = ChunkBitmap::new(0);
    let samples = [
        0, 1, -1, 31, 32, -32, 1 << 20, (1 << 29) - 1, 1 << 29, (1 << 29) + 33, (1 << 29) + 64 + 32,
        (1 << 30) + 100, (1 << 30) + 32 * 6, i32::MAX, i32::MIN, i32::MIN + 1, -(1 << 30) - 32 * 2,
        -(1 << 29) - 32, 0x7654_3210, -0x7654_3210,
    ];
    for c in samples {
        let r = float_region(c);
        assert_eq!(bitmap.chunk_exists(&superblock(r, r), c, c), Ok(false), "chunk {}", c);
        assert_eq!(
            bitmap.chunk_exists(&superblock(r.wrapping_add(1), r), c, c),
            Err(ConvertError::ChunkOutsideRegionX(r.wrapping_add(1))),
            "chunk {}",
            c
        );
    }
}

#[test]
fn decoded_chunks_lie_in_their_region() {
    let mut p = Vec::new();
    for i in 0..1024u32 {
        let size: u32 = if i == 0 || i == 1023 || i == 517 { 1 } else { 0 };
        p.extend_from_slice(&size.to_be_bytes());
        p.extend_from_slice(&0u32.to_be_bytes());
    }
    p.extend_from_slice(&[1, 2, 3]);
    let region = LinearV1Converter::region_from_decompressed(&p, 3, 7, 12, 0).unwrap();
    let bitmap = ChunkBitmap::new(0);
    for slot in [0usize, 517, 1023] {
        let c = region.chunks.0[slot].as_ref().unwrap();
        assert_eq!(bitmap.chunk_exists(&superblock(7, 12), c.x, c.z), Ok(false));
    }
    let negative = LinearV1Converter::region_from_decompressed(&p, 3, -1, 0, 0).unwrap();
    let c = negative.chunks.0[0].as_ref().unwrap();
    assert_eq!(c.x, -32);
    let c = negative.chunks.0[517].as_ref().unwrap();
    assert_eq!(bitmap.chunk_exists(&superblock(-1, 16), c.x, c.z), Err(ConvertError::ChunkOutsideRegionX(-1)));
}
