//! Why reading or writing a region file failed.

use vstd::prelude::*;
use vstd::string::StrSliceExecFns;
use crate::parse::IntErrorKind;

verus! {

/// The ways in which reading, checking or writing a region can fail; `S` is
/// the type of the error texts that zstd reports.
#[derive(Debug, Clone, PartialEq, Eq)]
pub enum ConvertErrorOf<S> {
    /// Fewer than the 32 bytes of a superblock were given.
    SuperblockTooShort,
    /// Fewer than the 8 bytes of a footer were given.
    FooterTooShort,
    /// A footer slice that is not exactly 8 bytes long.
    FooterLength,
    /// The file does not start with the Linear signature.
    HeaderSignature,
    /// The file does not end with the Linear signature.
    FooterSignature,
    /// The file taken apart into its parts does not start with the Linear signature.
    FileHeaderSignature,
    /// The file taken apart into its parts does not end with the Linear signature.
    FileFooterSignature,
    /// The version byte is not 1; it carries the version found.
    Version(u8),
    /// The compressed payload is not as long as the superblock says: the length
    /// the superblock gives, then the length found (both modulo 2^32).
    CompressedLength(u32, u32),
    /// zstd could not decompress the payload of a whole file; it carries zstd's
    /// error text.
    Decompression(S),
    /// zstd could not decompress the chunk data of a file taken apart; it carries
    /// zstd's error text.
    ZstdDecode(S),
    /// zstd could not compress the payload; it carries zstd's error text.
    Compression(S),
    /// The decompressed payload is not as long as its chunk table says: the
    /// length the table gives, then the length found (both modulo 2^32).
    DecompressedSize(u32, u32),
    /// The decompressed payload fails the size check of the chunk table.
    InvalidDecompressedSize,
    /// The number of stored chunks is not the one the superblock gives: the
    /// superblock's count, then the count found.
    ChunkCount(i16, i16),
    /// The number of stored chunks fails the superblock's count.
    InvalidChunkCount,
    /// The size field of this chunk record is cut off.
    ChunkSizeRead(usize),
    /// The timestamp field of this chunk record is cut off.
    ChunkTimestampRead(usize),
    /// The data of this chunk is cut off.
    ChunkDataRead(usize),
    /// The chunk data of a file taken apart is cut off.
    ReadEof,
    /// The decompressed payload is shorter than the chunk table.
    HeadersTooShort,
    /// The file is shorter than the part of the header that is checked.
    HeaderRead,
    /// The file name is not of the form `r.{x}.{z}.linear`.
    FileName,
    /// The file name is not of the form `r.x.z.linear`, as a region converter reports it.
    RegionFileName,
    /// A region coordinate in the file name is not an `i32`; it carries why.
    Coordinate(IntErrorKind),
    /// Reading or writing a region file failed; the library's own functions
    /// never return it, implementations of the converter traits do.
    Io,
    /// The chunk's x coordinate lies outside the region with this x.
    ChunkOutsideRegionX(i32),
    /// The chunk's z coordinate lies outside the region; it carries the region's x coordinate.
    ChunkOutsideRegionZ(i32),
}

/// An error as the library returns it.
pub type ConvertError = ConvertErrorOf<String>;

/// An error as the contracts speak of it: zstd's texts by their characters.
pub type ErrorValue = ConvertErrorOf<Seq<char>>;

impl View for ConvertErrorOf<String> {
    type V = ErrorValue;

    open spec fn view(&self) -> ErrorValue {
        match self {
            ConvertErrorOf::SuperblockTooShort => ConvertErrorOf::SuperblockTooShort,
            ConvertErrorOf::FooterTooShort => ConvertErrorOf::FooterTooShort,
            ConvertErrorOf::FooterLength => ConvertErrorOf::FooterLength,
            ConvertErrorOf::HeaderSignature => ConvertErrorOf::HeaderSignature,
            ConvertErrorOf::FooterSignature => ConvertErrorOf::FooterSignature,
            ConvertErrorOf::FileHeaderSignature => ConvertErrorOf::FileHeaderSignature,
            ConvertErrorOf::FileFooterSignature => ConvertErrorOf::FileFooterSignature,
            ConvertErrorOf::Version(a0) => ConvertErrorOf::Version(*a0),
            ConvertErrorOf::CompressedLength(a0, a1) => ConvertErrorOf::CompressedLength(*a0, *a1),
            ConvertErrorOf::Decompression(a0) => ConvertErrorOf::Decompression(a0@),
            ConvertErrorOf::ZstdDecode(a0) => ConvertErrorOf::ZstdDecode(a0@),
            ConvertErrorOf::Compression(a0) => ConvertErrorOf::Compression(a0@),
            ConvertErrorOf::DecompressedSize(a0, a1) => ConvertErrorOf::DecompressedSize(*a0, *a1),
            ConvertErrorOf::InvalidDecompressedSize => ConvertErrorOf::InvalidDecompressedSize,
            ConvertErrorOf::ChunkCount(a0, a1) => ConvertErrorOf::ChunkCount(*a0, *a1),
            ConvertErrorOf::InvalidChunkCount => ConvertErrorOf::InvalidChunkCount,
            ConvertErrorOf::ChunkSizeRead(a0) => ConvertErrorOf::ChunkSizeRead(*a0),
            ConvertErrorOf::ChunkTimestampRead(a0) => ConvertErrorOf::ChunkTimestampRead(*a0),
            ConvertErrorOf::ChunkDataRead(a0) => ConvertErrorOf::ChunkDataRead(*a0),
            ConvertErrorOf::ReadEof => ConvertErrorOf::ReadEof,
            ConvertErrorOf::HeadersTooShort => ConvertErrorOf::HeadersTooShort,
            ConvertErrorOf::HeaderRead => ConvertErrorOf::HeaderRead,
            ConvertErrorOf::FileName => ConvertErrorOf::FileName,
            ConvertErrorOf::RegionFileName => ConvertErrorOf::RegionFileName,
            ConvertErrorOf::Coordinate(a0) => ConvertErrorOf::Coordinate(*a0),
            ConvertErrorOf::Io => ConvertErrorOf::Io,
            ConvertErrorOf::ChunkOutsideRegionX(a0) => ConvertErrorOf::ChunkOutsideRegionX(*a0),
            ConvertErrorOf::ChunkOutsideRegionZ(a0) => ConvertErrorOf::ChunkOutsideRegionZ(*a0),
        }
    }
}

/// The decimal digits of `n`, most significant first.
pub open spec fn decimal_digits(n: nat) -> Seq<char>
    decreases n,
{
    if n < 10 {
        seq![((48 + n) as u8) as char]
    } else {
        decimal_digits(n / 10).push(((48 + n % 10) as u8) as char)
    }
}

/// The decimal text of `v`: a `-` before the digits of a negative number.
pub open spec fn decimal_text(v: int) -> Seq<char> {
    if v < 0 { seq!['-'] + decimal_digits((-v) as nat) } else { decimal_digits(v as nat) }
}

/// The text of `std::num::ParseIntError` for each kind of error.
pub open spec fn int_error_text(k: IntErrorKind) -> Seq<char> {
    match k {
        IntErrorKind::Empty => "cannot parse integer from empty string"@,
        IntErrorKind::InvalidDigit => "invalid digit found in string"@,
        IntErrorKind::PosOverflow => "number too large to fit in target type"@,
        IntErrorKind::NegOverflow => "number too small to fit in target type"@,
    }
}

/// The text that describes the error `e`.
pub open spec fn message_text(e: ConvertError) -> Seq<char> {
    match e {
        ConvertErrorOf::SuperblockTooShort => "Invalid superblock size"@,
        ConvertErrorOf::FooterTooShort => "Unsifficient byte length to read footer"@,
        ConvertErrorOf::FooterLength => "could not convert slice to array"@,
        ConvertErrorOf::HeaderSignature => "Invalid header signature for region file"@,
        ConvertErrorOf::FooterSignature => "Invalid footer signature for region file"@,
        ConvertErrorOf::FileHeaderSignature => "Invalid header signature"@,
        ConvertErrorOf::FileFooterSignature => "Invalid footer signature"@,
        ConvertErrorOf::Version(a0) => "Invalid version number (expected 1, found: "@ + decimal_text(a0 as int) + ")"@,
        ConvertErrorOf::CompressedLength(a0, a1) => "Compressed data length is invalid: expected "@ + decimal_text(a0 as int) + ", got "@ + decimal_text(a1 as int),
        ConvertErrorOf::Decompression(a0) => "Zstd decompression failed: "@ + a0@,
        ConvertErrorOf::ZstdDecode(a0) => a0@,
        ConvertErrorOf::Compression(a0) => a0@,
        ConvertErrorOf::DecompressedSize(a0, a1) => "Decompressed size is invalid: expected "@ + decimal_text(a0 as int) + " bytes, got "@ + decimal_text(a1 as int) + " bytes"@,
        ConvertErrorOf::InvalidDecompressedSize => "Invalid decompression size"@,
        ConvertErrorOf::ChunkCount(a0, a1) => "Chunk count is invalid: expected "@ + decimal_text(a0 as int) + ", got "@ + decimal_text(a1 as int),
        ConvertErrorOf::InvalidChunkCount => "Chunk count invalid"@,
        ConvertErrorOf::ChunkSizeRead(a0) => "Failed to read chunk size for chunk "@ + decimal_text(a0 as int),
        ConvertErrorOf::ChunkTimestampRead(a0) => "Failed to read chunk timestamp for chunk "@ + decimal_text(a0 as int),
        ConvertErrorOf::ChunkDataRead(a0) => "Failed to read chunk data for chunk "@ + decimal_text(a0 as int),
        ConvertErrorOf::ReadEof => "failed to fill whole buffer"@,
        ConvertErrorOf::HeadersTooShort => "Insufficient bytes to read chunk data headers"@,
        ConvertErrorOf::HeaderRead => "Failed to read header for verfication"@,
        ConvertErrorOf::FileName => "Region file is not named in the r.{x}.{z}.linear format"@,
        ConvertErrorOf::RegionFileName => "Region file is not named in the r.x.z.linear format"@,
        ConvertErrorOf::Coordinate(a0) => int_error_text(a0),
        ConvertErrorOf::Io => "Failed to read or write the region file"@,
        ConvertErrorOf::ChunkOutsideRegionX(a0) => "Invalid x chunk for region "@ + decimal_text(a0 as int),
        ConvertErrorOf::ChunkOutsideRegionZ(a0) => "Invalid z chunk for region "@ + decimal_text(a0 as int),
    }
}

/// Appends the characters of `s`.
fn push_text(buf: &mut Vec<char>, s: &str)
    ensures
        final(buf)@ == old(buf)@ + s@,
{
    let n = s.unicode_len();
    let mut i: usize = 0;
    while i < n
        invariant
            i <= n,
            n == s@.len(),
            buf@ == old(buf)@ + s@.take(i as int),
        decreases n - i,
    {
        buf.push(s.get_char(i));
        i = i + 1;
        assert(buf@ =~= old(buf)@ + s@.take(i as int));
    }
    assert(s@.take(n as int) =~= s@);
}

/// Appends the decimal digits of `n`.
fn push_digits(buf: &mut Vec<char>, n: u64)
    ensures
        final(buf)@ == old(buf)@ + decimal_digits(n as nat),
    decreases n,
{
    if n >= 10 {
        push_digits(buf, n / 10);
    }
    let d: u8 = (n % 10) as u8;
    buf.push((48u8 + d) as char);
    assert(buf@ =~= old(buf)@ + decimal_digits(n as nat));
}

/// Appends the decimal text of `v`.
fn push_decimal(buf: &mut Vec<char>, v: i64)
    ensures
        final(buf)@ == old(buf)@ + decimal_text(v as int),
{
    if v < 0 {
        buf.push('-');
        let magnitude: u64 = if v == i64::MIN { 0x8000_0000_0000_0000u64 } else { (-v) as u64 };
        push_digits(buf, magnitude);
        assert(buf@ =~= old(buf)@ + decimal_text(v as int));
    } else {
        push_digits(buf, v as u64);
    }
}

/// Appends the text of a `ParseIntError` of kind `k`.
fn push_int_error(buf: &mut Vec<char>, k: IntErrorKind)
    ensures
        final(buf)@ == old(buf)@ + int_error_text(k),
{
    match k {
        IntErrorKind::Empty => push_text(buf, "cannot parse integer from empty string"),
        IntErrorKind::InvalidDigit => push_text(buf, "invalid digit found in string"),
        IntErrorKind::PosOverflow => push_text(buf, "number too large to fit in target type"),
        IntErrorKind::NegOverflow => push_text(buf, "number too small to fit in target type"),
    }
}

/// `String` gathered from the characters `chars` (`Iterator::collect` over
/// `chars.iter()`): the string holds exactly those characters in order.
#[verifier::external_body]
fn string_of_chars(chars: &[char]) -> (r: String)
    ensures
        r@ == chars@,
{
    chars.iter().collect()
}

impl ConvertErrorOf<String> {
    /// The text that describes this error.
    pub fn message(&self) -> (r: String)
        ensures
            r@ == message_text(*self),
    {
        let mut buf: Vec<char> = Vec::new();
        match self {
            ConvertErrorOf::SuperblockTooShort => {
                push_text(&mut buf, "Invalid superblock size");
            },
            ConvertErrorOf::FooterTooShort => {
                push_text(&mut buf, "Unsifficient byte length to read footer");
            },
            ConvertErrorOf::FooterLength => {
                push_text(&mut buf, "could not convert slice to array");
            },
            ConvertErrorOf::HeaderSignature => {
                push_text(&mut buf, "Invalid header signature for region file");
            },
            ConvertErrorOf::FooterSignature => {
                push_text(&mut buf, "Invalid footer signature for region file");
            },
            ConvertErrorOf::FileHeaderSignature => {
                push_text(&mut buf, "Invalid header signature");
            },
            ConvertErrorOf::FileFooterSignature => {
                push_text(&mut buf, "Invalid footer signature");
            },
            ConvertErrorOf::Version(a0) => {
                push_text(&mut buf, "Invalid version number (expected 1, found: ");
                push_decimal(&mut buf, *a0 as i64);
                push_text(&mut buf, ")");
            },
            ConvertErrorOf::CompressedLength(a0, a1) => {
                push_text(&mut buf, "Compressed data length is invalid: expected ");
                push_decimal(&mut buf, *a0 as i64);
                push_text(&mut buf, ", got ");
                push_decimal(&mut buf, *a1 as i64);
            },
            ConvertErrorOf::Decompression(a0) => {
                push_text(&mut buf, "Zstd decompression failed: ");
                push_text(&mut buf, a0.as_str());
            },
            ConvertErrorOf::ZstdDecode(a0) => {
                push_text(&mut buf, a0.as_str());
            },
            ConvertErrorOf::Compression(a0) => {
                push_text(&mut buf, a0.as_str());
            },
            ConvertErrorOf::DecompressedSize(a0, a1) => {
                push_text(&mut buf, "Decompressed size is invalid: expected ");
                push_decimal(&mut buf, *a0 as i64);
                push_text(&mut buf, " bytes, got ");
                push_decimal(&mut buf, *a1 as i64);
                push_text(&mut buf, " bytes");
            },
            ConvertErrorOf::InvalidDecompressedSize => {
                push_text(&mut buf, "Invalid decompression size");
            },
            ConvertErrorOf::ChunkCount(a0, a1) => {
                push_text(&mut buf, "Chunk count is invalid: expected ");
                push_decimal(&mut buf, *a0 as i64);
                push_text(&mut buf, ", got ");
                push_decimal(&mut buf, *a1 as i64);
            },
            ConvertErrorOf::InvalidChunkCount => {
                push_text(&mut buf, "Chunk count invalid");
            },
            ConvertErrorOf::ChunkSizeRead(a0) => {
                push_text(&mut buf, "Failed to read chunk size for chunk ");
                push_digits(&mut buf, *a0 as u64);
            },
            ConvertErrorOf::ChunkTimestampRead(a0) => {
                push_text(&mut buf, "Failed to read chunk timestamp for chunk ");
                push_digits(&mut buf, *a0 as u64);
            },
            ConvertErrorOf::ChunkDataRead(a0) => {
                push_text(&mut buf, "Failed to read chunk data for chunk ");
                push_digits(&mut buf, *a0 as u64);
            },
            ConvertErrorOf::ReadEof => {
                push_text(&mut buf, "failed to fill whole buffer");
            },
            ConvertErrorOf::HeadersTooShort => {
                push_text(&mut buf, "Insufficient bytes to read chunk data headers");
            },
            ConvertErrorOf::HeaderRead => {
                push_text(&mut buf, "Failed to read header for verfication");
            },
            ConvertErrorOf::FileName => {
                push_text(&mut buf, "Region file is not named in the r.{x}.{z}.linear format");
            },
            ConvertErrorOf::RegionFileName => {
                push_text(&mut buf, "Region file is not named in the r.x.z.linear format");
            },
            ConvertErrorOf::Coordinate(a0) => {
                push_int_error(&mut buf, *a0);
            },
            ConvertErrorOf::Io => {
                push_text(&mut buf, "Failed to read or write the region file");
            },
            ConvertErrorOf::ChunkOutsideRegionX(a0) => {
                push_text(&mut buf, "Invalid x chunk for region ");
                push_decimal(&mut buf, *a0 as i64);
            },
            ConvertErrorOf::ChunkOutsideRegionZ(a0) => {
                push_text(&mut buf, "Invalid z chunk for region ");
                push_decimal(&mut buf, *a0 as i64);
            },
        }
        assert(buf@ =~= message_text(*self));
        string_of_chars(buf.as_slice())
    }
}

} // verus!
