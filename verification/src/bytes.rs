//! Big-endian integers: what a run of bytes means, and which bytes a
//! number is written as.

use vstd::prelude::*;
use byteorder::ByteOrder;

verus! {

/// Value of the two bytes `s[0..2]`, most significant first.
pub open spec fn be_u16_value(s: Seq<u8>) -> u16 {
    (s[0] as u16) << 8 | (s[1] as u16)
}

/// Value of the four bytes `s[0..4]`, most significant first.
pub open spec fn be_u32_value(s: Seq<u8>) -> u32 {
    (s[0] as u32) << 24 | (s[1] as u32) << 16 | (s[2] as u32) << 8 | (s[3] as u32)
}

/// Value of the eight bytes `s[0..8]`, most significant first.
pub open spec fn be_u64_value(s: Seq<u8>) -> u64 {
    (s[0] as u64) << 56 | (s[1] as u64) << 48 | (s[2] as u64) << 40 | (s[3] as u64) << 32
        | (s[4] as u64) << 24 | (s[5] as u64) << 16 | (s[6] as u64) << 8 | (s[7] as u64)
}

/// The two bytes of `v`, most significant first.
pub open spec fn be_u16_bytes(v: u16) -> Seq<u8> {
    seq![(v >> 8) as u8, v as u8]
}

/// The four bytes of `v`, most significant first.
pub open spec fn be_u32_bytes(v: u32) -> Seq<u8> {
    seq![(v >> 24) as u8, (v >> 16) as u8, (v >> 8) as u8, v as u8]
}

/// The eight bytes of `v`, most significant first.
pub open spec fn be_u64_bytes(v: u64) -> Seq<u8> {
    seq![
        (v >> 56) as u8,
        (v >> 48) as u8,
        (v >> 40) as u8,
        (v >> 32) as u8,
        (v >> 24) as u8,
        (v >> 16) as u8,
        (v >> 8) as u8,
        v as u8,
    ]
}

/// Two's-complement reading of a byte.
pub open spec fn u8_as_i8(b: u8) -> i8 {
    if b < 128 { b as i8 } else { (b - 256) as i8 }
}

/// Two's-complement byte of a signed byte.
pub open spec fn i8_as_u8(v: i8) -> u8 {
    if v >= 0 { v as u8 } else { (v + 256) as u8 }
}

/// Two's-complement reading of a 16-bit word.
pub open spec fn u16_as_i16(w: u16) -> i16 {
    if w < 0x8000 { w as i16 } else { (w - 0x1_0000) as i16 }
}

/// Two's-complement word of a signed 16-bit number.
pub open spec fn i16_as_u16(v: i16) -> u16 {
    if v >= 0 { v as u16 } else { (v + 0x1_0000) as u16 }
}

/// Reading back the bytes of a 16-bit number gives the number.
pub proof fn lemma_be_u16_value_of_bytes(v: u16)
    ensures
        be_u16_value(be_u16_bytes(v)) == v,
{
    assert((((v >> 8) as u8) as u16) << 8 | ((v as u8) as u16) == v) by (bit_vector);
}

/// Writing the value of two bytes gives the bytes back.
pub proof fn lemma_be_u16_bytes_of_value(s: Seq<u8>)
    requires
        s.len() >= 2,
    ensures
        be_u16_bytes(be_u16_value(s)) == s.take(2),
{
    let b0 = s[0];
    let b1 = s[1];
    assert((((b0 as u16) << 8 | (b1 as u16)) >> 8) as u8 == b0) by (bit_vector);
    assert((((b0 as u16) << 8 | (b1 as u16))) as u8 == b1) by (bit_vector);
    assert(be_u16_bytes(be_u16_value(s)) =~= s.take(2));
}

/// Reading back the bytes of a 32-bit number gives the number.
pub proof fn lemma_be_u32_value_of_bytes(v: u32)
    ensures
        be_u32_value(be_u32_bytes(v)) == v,
{
    assert((((v >> 24) as u8) as u32) << 24 | (((v >> 16) as u8) as u32) << 16
        | (((v >> 8) as u8) as u32) << 8 | ((v as u8) as u32) == v) by (bit_vector);
}

/// Writing the value of four bytes gives the bytes back.
pub proof fn lemma_be_u32_bytes_of_value(s: Seq<u8>)
    requires
        s.len() >= 4,
    ensures
        be_u32_bytes(be_u32_value(s)) == s.take(4),
{
    let b0 = s[0];
    let b1 = s[1];
    let b2 = s[2];
    let b3 = s[3];
    assert({
        let x = (b0 as u32) << 24 | (b1 as u32) << 16 | (b2 as u32) << 8 | (b3 as u32);
        &&& (x >> 24) as u8 == b0
        &&& (x >> 16) as u8 == b1
        &&& (x >> 8) as u8 == b2
        &&& x as u8 == b3
    }) by (bit_vector);
    assert(be_u32_bytes(be_u32_value(s)) =~= s.take(4));
}

/// Reading back the bytes of a 64-bit number gives the number.
pub proof fn lemma_be_u64_value_of_bytes(v: u64)
    ensures
        be_u64_value(be_u64_bytes(v)) == v,
{
    assert((((v >> 56) as u8) as u64) << 56 | (((v >> 48) as u8) as u64) << 48
        | (((v >> 40) as u8) as u64) << 40 | (((v >> 32) as u8) as u64) << 32
        | (((v >> 24) as u8) as u64) << 24 | (((v >> 16) as u8) as u64) << 16
        | (((v >> 8) as u8) as u64) << 8 | ((v as u8) as u64) == v) by (bit_vector);
}

/// Writing the value of eight bytes gives the bytes back.
pub proof fn lemma_be_u64_bytes_of_value(s: Seq<u8>)
    requires
        s.len() >= 8,
    ensures
        be_u64_bytes(be_u64_value(s)) == s.take(8),
{
    let b0 = s[0];
    let b1 = s[1];
    let b2 = s[2];
    let b3 = s[3];
    let b4 = s[4];
    let b5 = s[5];
    let b6 = s[6];
    let b7 = s[7];
    assert({
        let x = (b0 as u64) << 56 | (b1 as u64) << 48 | (b2 as u64) << 40 | (b3 as u64) << 32
            | (b4 as u64) << 24 | (b5 as u64) << 16 | (b6 as u64) << 8 | (b7 as u64);
        &&& (x >> 56) as u8 == b0
        &&& (x >> 48) as u8 == b1
        &&& (x >> 40) as u8 == b2
        &&& (x >> 32) as u8 == b3
        &&& (x >> 24) as u8 == b4
        &&& (x >> 16) as u8 == b5
        &&& (x >> 8) as u8 == b6
        &&& x as u8 == b7
    }) by (bit_vector);
    assert(be_u64_bytes(be_u64_value(s)) =~= s.take(8));
}

/// The signed and unsigned readings of a byte undo each other.
pub proof fn lemma_i8_u8_inverse(v: i8, b: u8)
    ensures
        u8_as_i8(i8_as_u8(v)) == v,
        i8_as_u8(u8_as_i8(b)) == b,
{
}

/// The signed and unsigned readings of a 16-bit word undo each other.
pub proof fn lemma_i16_u16_inverse(v: i16, w: u16)
    ensures
        u16_as_i16(i16_as_u16(v)) == v,
        i16_as_u16(u16_as_i16(w)) == w,
{
}


/// Two's-complement word of a signed 32-bit number.
pub open spec fn i32_as_u32(v: i32) -> u32 {
    if v >= 0 { v as u32 } else { (v + 0x1_0000_0000) as u32 }
}

/// Appends `v` as two bytes, most significant first.
pub fn append_be_u16(buf: &mut Vec<u8>, v: u16)
    ensures
        final(buf)@ == old(buf)@ + be_u16_bytes(v),
{
    buf.push((v >> 8) as u8);
    buf.push(v as u8);
    assert(buf@ =~= old(buf)@ + be_u16_bytes(v));
}

/// Appends `v` as four bytes, most significant first.
pub fn append_be_u32(buf: &mut Vec<u8>, v: u32)
    ensures
        final(buf)@ == old(buf)@ + be_u32_bytes(v),
{
    buf.push((v >> 24) as u8);
    buf.push((v >> 16) as u8);
    buf.push((v >> 8) as u8);
    buf.push(v as u8);
    assert(buf@ =~= old(buf)@ + be_u32_bytes(v));
}

/// Appends `v` as eight bytes, most significant first.
pub fn append_be_u64(buf: &mut Vec<u8>, v: u64)
    ensures
        final(buf)@ == old(buf)@ + be_u64_bytes(v),
{
    buf.push((v >> 56) as u8);
    buf.push((v >> 48) as u8);
    buf.push((v >> 40) as u8);
    buf.push((v >> 32) as u8);
    buf.push((v >> 24) as u8);
    buf.push((v >> 16) as u8);
    buf.push((v >> 8) as u8);
    buf.push(v as u8);
    assert(buf@ =~= old(buf)@ + be_u64_bytes(v));
}

/// Appends the signed `v` as four two's-complement bytes, most significant first.
pub fn append_be_i32(buf: &mut Vec<u8>, v: i32)
    ensures
        final(buf)@ == old(buf)@ + be_u32_bytes(i32_as_u32(v)),
{
    let w: u32 = if v >= 0 { v as u32 } else { ((v as i64) + 0x1_0000_0000i64) as u32 };
    append_be_u32(buf, w);
}

/// Appends the signed `v` as two two's-complement bytes, most significant first.
pub fn append_be_i16(buf: &mut Vec<u8>, v: i16)
    ensures
        final(buf)@ == old(buf)@ + be_u16_bytes(i16_as_u16(v)),
{
    append_be_u16(buf, i16_to_u16(v));
}

/// The two's-complement byte of `v`.
pub fn i8_to_u8(v: i8) -> (b: u8)
    ensures
        b == i8_as_u8(v),
{
    if v >= 0 { v as u8 } else { ((v as i16) + 256) as u8 }
}

/// The signed reading of the byte `b`.
pub fn u8_to_i8(b: u8) -> (v: i8)
    ensures
        v == u8_as_i8(b),
{
    if b < 128 { b as i8 } else { ((b as i16) - 256) as i8 }
}

/// The two's-complement word of `v`.
pub fn i16_to_u16(v: i16) -> (w: u16)
    ensures
        w == i16_as_u16(v),
{
    if v >= 0 { v as u16 } else { ((v as i32) + 0x1_0000) as u16 }
}

/// Appends all of `src` to `buf`.
pub fn append_bytes(buf: &mut Vec<u8>, src: &[u8])
    ensures
        final(buf)@ == old(buf)@ + src@,
{
    buf.extend_from_slice(src);
    assert(buf@ =~= old(buf)@ + src@);
}

/// The eight bytes at `pos..pos + 8` of `bytes`, read most significant first.
pub fn be_u64_at(bytes: &[u8], pos: usize) -> (v: u64)
    requires
        pos + 8 <= bytes@.len(),
    ensures
        v == be_u64_value(bytes@.subrange(pos as int, pos + 8)),
{
    (bytes[pos] as u64) << 56 | (bytes[pos + 1] as u64) << 48 | (bytes[pos + 2] as u64) << 40
        | (bytes[pos + 3] as u64) << 32 | (bytes[pos + 4] as u64) << 24
        | (bytes[pos + 5] as u64) << 16 | (bytes[pos + 6] as u64) << 8 | (bytes[pos + 7] as u64)
}

/// The four bytes at `pos..pos + 4` of `bytes`, read most significant first.
pub fn be_u32_at(bytes: &[u8], pos: usize) -> (v: u32)
    requires
        pos + 4 <= bytes@.len(),
    ensures
        v == be_u32_value(bytes@.subrange(pos as int, pos + 4)),
{
    (bytes[pos] as u32) << 24 | (bytes[pos + 1] as u32) << 16 | (bytes[pos + 2] as u32) << 8
        | (bytes[pos + 3] as u32)
}

/// The two bytes at `pos..pos + 2` of `bytes` as a signed number, most significant first.
pub fn be_i16_at(bytes: &[u8], pos: usize) -> (v: i16)
    requires
        pos + 2 <= bytes@.len(),
    ensures
        v == u16_as_i16(be_u16_value(bytes@.subrange(pos as int, pos + 2))),
{
    let w: u16 = (bytes[pos] as u16) << 8 | (bytes[pos + 1] as u16);
    if w < 0x8000 { w as i16 } else { ((w as i32) - 0x1_0000) as i16 }
}

/// `BigEndian::read_u32` of byteorder: the first four bytes of `buf`,
/// most significant first (it panics on fewer than four bytes).
#[verifier::external_body]
pub(crate) fn byteorder_read_u32(buf: &[u8]) -> (v: u32)
    requires
        buf@.len() >= 4,
    ensures
        v == be_u32_value(buf@),
{
    byteorder::BigEndian::read_u32(buf)
}

/// `BigEndian::read_u64` of byteorder: the first eight bytes of `buf`,
/// most significant first (it panics on fewer than eight bytes).
#[verifier::external_body]
pub(crate) fn byteorder_read_u64(buf: &[u8]) -> (v: u64)
    requires
        buf@.len() >= 8,
    ensures
        v == be_u64_value(buf@),
{
    byteorder::BigEndian::read_u64(buf)
}

/// `BigEndian::read_i16` of byteorder: the first two bytes of `buf`,
/// most significant first, read as two's complement (it panics on fewer than two bytes).
#[verifier::external_body]
pub(crate) fn byteorder_read_i16(buf: &[u8]) -> (v: i16)
    requires
        buf@.len() >= 2,
    ensures
        v == u16_as_i16(be_u16_value(buf@)),
{
    byteorder::BigEndian::read_i16(buf)
}

/// `BigEndian::write_u64` of byteorder into an eight-byte array: the bytes of
/// `n`, most significant first.
#[verifier::external_body]
pub(crate) fn byteorder_u64_bytes(n: u64) -> (b: [u8; 8])
    ensures
        b@ == be_u64_bytes(n),
{
    let mut b = [0u8; 8];
    byteorder::BigEndian::write_u64(&mut b, n);
    b
}

/// `BigEndian::write_u32` of byteorder into a four-byte array: the bytes of
/// `n`, most significant first.
#[verifier::external_body]
pub(crate) fn byteorder_u32_bytes(n: u32) -> (b: [u8; 4])
    ensures
        b@ == be_u32_bytes(n),
{
    let mut b = [0u8; 4];
    byteorder::BigEndian::write_u32(&mut b, n);
    b
}

/// `BigEndian::write_i16` of byteorder into a two-byte array: the
/// two's-complement bytes of `n`, most significant first.
#[verifier::external_body]
pub(crate) fn byteorder_i16_bytes(n: i16) -> (b: [u8; 2])
    ensures
        b@ == be_u16_bytes(i16_as_u16(n)),
{
    let mut b = [0u8; 2];
    byteorder::BigEndian::write_i16(&mut b, n);
    b
}

} // verus!
