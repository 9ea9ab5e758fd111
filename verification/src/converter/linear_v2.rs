//! The Linear (version 2) superblock and its chunk bitmap.

use vstd::prelude::*;
use crate::error::{ConvertError, ConvertErrorOf};
use super::REGION_DIMENSION;

verus! {

/// The superblock of a Linear (version 2) file.
#[derive(Debug, Clone, Copy, PartialEq, Eq, Structural)]
pub struct LinearSuperblock {
    pub signature: u64,
    pub version: u8,
    pub newest_timestamp: u64,
    pub grid_size: i8,
    pub region_x: i32,
    pub region_z: i32,
}

/// A bitmap of stored chunks.
pub struct ChunkBitmap(pub u128);

/// `a / b` rounded toward zero, as integer division in Rust does.
pub open spec fn trunc_div(a: int, b: int) -> int {
    if a >= 0 { a / b } else { -((-a) / b) }
}

/// `m` rounded to a multiple of `step`, to the nearest and, between two,
/// to the one that is an even multiple.
pub open spec fn round_to_multiple(m: int, step: int) -> int {
    let r = m % step;
    let base = m - r;
    if 2 * r < step {
        base
    } else if 2 * r > step {
        base + step
    } else if (base / step) % 2 == 0 {
        base
    } else {
        base + step
    }
}

/// The integer that `q as f32` holds, for `|q| <= 2^27`: integers below 2^24
/// are held exactly, larger ones are rounded to the nearest value that the
/// 24-bit significand can hold (a multiple of 2, 4 or 8), ties to even.
pub open spec fn f32_nearest(q: int) -> int {
    let m = if q >= 0 { q } else { -q };
    let rounded = if m < 0x100_0000 {
        m
    } else if m < 0x200_0000 {
        round_to_multiple(m, 2)
    } else if m < 0x400_0000 {
        round_to_multiple(m, 4)
    } else {
        round_to_multiple(m, 8)
    };
    if q >= 0 { rounded } else { -rounded }
}

/// The region coordinate that `chunk_exists` computes for a chunk coordinate `c`:
/// `((c / 32) as f32).floor() as i32`.
pub open spec fn region_of_chunk(c: i32) -> int {
    f32_nearest(trunc_div(c as int, REGION_DIMENSION as int))
}

impl ChunkBitmap {
    /// A bitmap holding `map`.
    pub fn new(map: u128) -> (r: Self)
        ensures
            r.0 == map,
    {
        Self(map)
    }

    /// Checks that the chunk `(chunk_x, chunk_z)` lies in the superblock's
    /// region; where it does, the answer is `false`.
    pub fn chunk_exists(&self, superblock: &LinearSuperblock, chunk_x: i32, chunk_z: i32) -> (r: Result<bool, ConvertError>)
        ensures
            region_of_chunk(chunk_x) != superblock.region_x
                ==> r == Err::<bool, ConvertError>(ConvertErrorOf::ChunkOutsideRegionX(superblock.region_x)),
            region_of_chunk(chunk_x) == superblock.region_x && region_of_chunk(chunk_z) != superblock.region_z
                ==> r == Err::<bool, ConvertError>(ConvertErrorOf::ChunkOutsideRegionZ(superblock.region_x)),
            region_of_chunk(chunk_x) == superblock.region_x && region_of_chunk(chunk_z) == superblock.region_z
                ==> r == Ok::<bool, ConvertError>(false),
    {
        let region_x = region_coordinate(chunk_x);
        let region_z = region_coordinate(chunk_z);
        if region_x != superblock.region_x {
            return Err(ConvertErrorOf::ChunkOutsideRegionX(superblock.region_x));
        }
        if region_z != superblock.region_z {
            return Err(ConvertErrorOf::ChunkOutsideRegionZ(superblock.region_x));
        }
        Ok(false)
    }
}

/// `m` rounded to a multiple of `step`, to the nearest and ties to even.
fn round_to_multiple_exec(m: u64, step: u64) -> (r: u64)
    requires
        step == 2 || step == 4 || step == 8,
        m < 0x1000_0000,
    ensures
        r == round_to_multiple(m as int, step as int),
        r <= m + step,
{
    let rem = m % step;
    let base = m - rem;
    if 2 * rem < step {
        base
    } else if 2 * rem > step {
        base + step
    } else if (base / step) % 2 == 0 {
        base
    } else {
        base + step
    }
}

/// The region coordinate of the chunk coordinate `c`, as
/// `((c / 32) as f32).floor() as i32` computes it.
fn region_coordinate(c: i32) -> (r: i32)
    ensures
        r == region_of_chunk(c),
{
    let a = c as i64;
    let magnitude: u64 = if a >= 0 { a as u64 } else { (-a) as u64 };
    let m = magnitude / 32;
    let rounded: u64 = if m < 0x100_0000 {
        m
    } else if m < 0x200_0000 {
        round_to_multiple_exec(m, 2)
    } else if m < 0x400_0000 {
        round_to_multiple_exec(m, 4)
    } else {
        round_to_multiple_exec(m, 8)
    };
    if a >= 0 {
        rounded as i32
    } else {
        -(rounded as i64) as i32
    }
}

} // verus!
