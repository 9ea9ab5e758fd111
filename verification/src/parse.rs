//! Splitting a path into its parts and reading decimal integers, as the
//! region file name needs.

use vstd::prelude::*;

verus! {

/// The bytes of `s` after its last `sep`; all of `s` where it holds none.
pub open spec fn after_last(s: Seq<u8>, sep: u8) -> Seq<u8>
    decreases s.len(),
{
    if s.len() == 0 {
        s
    } else if s.last() == sep {
        Seq::empty()
    } else {
        after_last(s.drop_last(), sep).push(s.last())
    }
}

/// `s` cut at each `sep`: `n` separators give `n + 1` pieces, some possibly empty.
pub open spec fn split_at_byte(s: Seq<u8>, sep: u8) -> Seq<Seq<u8>>
    decreases s.len(),
{
    if s.len() == 0 {
        seq![Seq::empty()]
    } else {
        let pieces = split_at_byte(s.drop_last(), sep);
        if s.last() == sep {
            pieces.push(Seq::empty())
        } else {
            pieces.update(pieces.len() - 1, pieces.last().push(s.last()))
        }
    }
}

/// Why a text is not an `i32`, as `std::num::IntErrorKind` tells it.
#[derive(Debug, Clone, Copy, PartialEq, Eq, Structural)]
pub enum IntErrorKind {
    /// The text is empty.
    Empty,
    /// A byte that is not a decimal digit stands where a digit must.
    InvalidDigit,
    /// The number is above `i32::MAX`.
    PosOverflow,
    /// The number is below `i32::MIN`.
    NegOverflow,
}

/// An ASCII decimal digit.
pub open spec fn is_digit(b: u8) -> bool {
    48 <= b <= 57
}

/// Reading the digits `d` from the left, as `str::parse` does: the value, or
/// the first thing that goes wrong, a byte that is not a digit or a value
/// that passes `limit` (reported as `PosOverflow`).
pub open spec fn scan_digits(d: Seq<u8>, limit: int) -> Result<int, IntErrorKind>
    decreases d.len(),
{
    if d.len() == 0 {
        Ok(0)
    } else {
        match scan_digits(d.drop_last(), limit) {
            Err(k) => Err(k),
            Ok(v) => if !is_digit(d.last()) {
                Err(IntErrorKind::InvalidDigit)
            } else if v * 10 + (d.last() - 48) > limit {
                Err(IntErrorKind::PosOverflow)
            } else {
                Ok(v * 10 + (d.last() - 48))
            },
        }
    }
}

/// What `str::parse::<i32>` gives for `s`: an optional `+` or `-`, then one
/// or more decimal digits read from the left, with the error kind of the first
/// thing that goes wrong.
pub open spec fn parse_i32_spec(s: Seq<u8>) -> Result<i32, IntErrorKind> {
    if s.len() == 0 {
        Err(IntErrorKind::Empty)
    } else if (s[0] == 43 || s[0] == 45) && s.len() == 1 {
        Err(IntErrorKind::InvalidDigit)
    } else {
        let negative = s[0] == 45;
        let digits = if s[0] == 43 || s[0] == 45 { s.drop_first() } else { s };
        match scan_digits(digits, if negative { 0x8000_0000 } else { 0x7fff_ffff }) {
            Ok(v) => Ok(if negative { (-v) as i32 } else { v as i32 }),
            Err(IntErrorKind::PosOverflow) => Err(
                if negative { IntErrorKind::NegOverflow } else { IntErrorKind::PosOverflow },
            ),
            Err(k) => Err(k),
        }
    }
}

/// A value that the scan reaches lies between 0 and the limit.
pub proof fn lemma_scan_digits_range(d: Seq<u8>, limit: int)
    requires
        limit >= 0,
        scan_digits(d, limit) is Ok,
    ensures
        0 <= scan_digits(d, limit)->Ok_0 <= limit,
    decreases d.len(),
{
    if d.len() > 0 {
        lemma_scan_digits_range(d.drop_last(), limit);
    }
}

/// Once the scan of a prefix fails, the scan of the whole fails the same way.
pub proof fn lemma_scan_digits_error_stays(d: Seq<u8>, k: int, limit: int)
    requires
        0 <= k <= d.len(),
        scan_digits(d.take(k), limit) is Err,
    ensures
        scan_digits(d, limit) == scan_digits(d.take(k), limit),
    decreases d.len(),
{
    if k == d.len() {
        assert(d.take(k) =~= d);
    } else {
        assert(d.drop_last().take(k) =~= d.take(k));
        lemma_scan_digits_error_stays(d.drop_last(), k, limit);
    }
}

/// Splitting gives at least one piece.
pub proof fn lemma_split_nonempty(s: Seq<u8>, sep: u8)
    ensures
        split_at_byte(s, sep).len() >= 1,
    decreases s.len(),
{
    if s.len() > 0 {
        lemma_split_nonempty(s.drop_last(), sep);
    }
}

/// Reads `bytes` as `str::parse::<i32>` does, with the kind of error it reports.
pub fn parse_i32(bytes: &[u8]) -> (r: Result<i32, IntErrorKind>)
    ensures
        r == parse_i32_spec(bytes@),
{
    let len = bytes.len();
    if len == 0 {
        return Err(IntErrorKind::Empty);
    }
    let signed = bytes[0] == 43 || bytes[0] == 45;
    if signed && len == 1 {
        return Err(IntErrorKind::InvalidDigit);
    }
    let negative = bytes[0] == 45;
    let start: usize = if signed { 1 } else { 0 };
    let limit: i64 = if negative { 0x8000_0000 } else { 0x7fff_ffff };
    let ghost digits = if signed { bytes@.drop_first() } else { bytes@ };
    assert(digits =~= bytes@.subrange(start as int, len as int));
    assert(digits.take(0) =~= Seq::<u8>::empty());
    let mut acc: i64 = 0;
    let mut i: usize = start;
    while i < len
        invariant
            start <= i <= len,
            len == bytes@.len(),
            len > 0,
            signed == (bytes@[0] == 43 || bytes@[0] == 45),
            negative == (bytes@[0] == 45),
            !(signed && len == 1),
            start == (if signed { 1usize } else { 0usize }),
            limit == (if negative { 0x8000_0000i64 } else { 0x7fff_ffffi64 }),
            digits == (if signed { bytes@.drop_first() } else { bytes@ }),
            digits == bytes@.subrange(start as int, len as int),
            limit == 0x8000_0000 || limit == 0x7fff_ffff,
            scan_digits(digits.take(i - start), limit as int) == Ok::<int, IntErrorKind>(acc as int),
            0 <= acc <= limit,
        decreases len - i,
    {
        let b = bytes[i];
        let ghost prev = digits.take(i - start);
        let ghost next = digits.take(i + 1 - start);
        assert(next.drop_last() =~= prev);
        assert(next.last() == b);
        if b < 48 || b > 57 {
            proof {
                lemma_scan_digits_error_stays(digits, i + 1 - start, limit as int);
            }
            return Err(IntErrorKind::InvalidDigit);
        }
        let value = acc * 10 + (b - 48) as i64;
        if value > limit {
            proof {
                lemma_scan_digits_error_stays(digits, i + 1 - start, limit as int);
            }
            if negative {
                return Err(IntErrorKind::NegOverflow);
            } else {
                return Err(IntErrorKind::PosOverflow);
            }
        }
        acc = value;
        i = i + 1;
    }
    assert(digits.take(len - start) =~= digits);
    if negative {
        Ok((-acc) as i32)
    } else {
        Ok(acc as i32)
    }
}

/// Where the part of `s` after its last `sep` begins.
pub fn after_last_start(s: &[u8], sep: u8) -> (start: usize)
    ensures
        start <= s@.len(),
        after_last(s@, sep) == s@.subrange(start as int, s@.len() as int),
{
    let len = s.len();
    let ghost b = s@;
    let mut start = len;
    assert(b.take(len as int) =~= b);
    assert(b.subrange(len as int, len as int) =~= Seq::<u8>::empty());
    assert(after_last(b, sep) =~= after_last(b.take(len as int), sep) + b.subrange(len as int, len as int));
    while start > 0 && s[start - 1] != sep
        invariant
            start <= len,
            len == b.len(),
            b == s@,
            after_last(b, sep) == after_last(b.take(start as int), sep) + b.subrange(start as int, len as int),
        decreases start,
    {
        let ghost t = b.take(start as int);
        assert(t.drop_last() =~= b.take(start - 1));
        assert(t.last() == b[start - 1]);
        assert(after_last(t, sep) == after_last(b.take(start - 1), sep).push(b[start - 1]));
        assert(after_last(b.take(start - 1), sep).push(b[start - 1]) + b.subrange(start as int, len as int)
            =~= after_last(b.take(start - 1), sep) + b.subrange(start - 1, len as int));
        start = start - 1;
    }
    proof {
        if start == 0 {
            assert(b.take(0).len() == 0);
        } else {
            assert(b.take(start as int).last() == b[start - 1]);
        }
        assert(after_last(b.take(start as int), sep).len() == 0);
        assert(after_last(b, sep) =~= b.subrange(start as int, len as int));
    }
    start
}

/// Where the second and third pieces of `s` cut at `sep` lie, if `s` falls
/// into exactly four pieces: the second piece is `s[lo..mid]`, the third
/// `s[mid + 1..hi]`.
pub fn middle_of_four(s: &[u8], sep: u8) -> (r: Option<(usize, usize, usize)>)
    ensures
        match r {
            Some((lo, mid, hi)) => {
                &&& split_at_byte(s@, sep).len() == 4
                &&& lo <= mid < hi <= s@.len()
                &&& split_at_byte(s@, sep)[1] == s@.subrange(lo as int, mid as int)
                &&& split_at_byte(s@, sep)[2] == s@.subrange(mid + 1, hi as int)
            },
            None => split_at_byte(s@, sep).len() != 4,
        },
{
    let len = s.len();
    let ghost b = s@;
    let mut seps: usize = 0;
    let mut first: usize = 0;
    let mut second: usize = 0;
    let mut third: usize = 0;
    let mut j: usize = 0;
    assert(b.take(0) =~= Seq::<u8>::empty());
    while j < len
        invariant
            j <= len,
            len == b.len(),
            b == s@,
            split_at_byte(b.take(j as int), sep).len() == seps + 1,
            seps <= j,
            seps >= 1 ==> first < j,
            seps >= 2 ==> first < second < j,
            seps >= 3 ==> second < third < j,
            seps == 1 ==> split_at_byte(b.take(j as int), sep)[1] == b.subrange(first + 1, j as int),
            seps >= 2 ==> split_at_byte(b.take(j as int), sep)[1] == b.subrange(first + 1, second as int),
            seps == 2 ==> split_at_byte(b.take(j as int), sep)[2] == b.subrange(second + 1, j as int),
            seps >= 3 ==> split_at_byte(b.take(j as int), sep)[2] == b.subrange(second + 1, third as int),
        decreases len - j,
    {
        let c = s[j];
        let ghost prev = b.take(j as int);
        let ghost next = b.take(j + 1);
        let ghost pieces = split_at_byte(prev, sep);
        proof {
            lemma_split_nonempty(prev, sep);
            assert(next.drop_last() =~= prev);
            assert(next.last() == c);
        }
        if c == sep {
            assert(split_at_byte(next, sep) == pieces.push(Seq::empty()));
            if seps == 0 {
                first = j;
                assert(b.subrange(j + 1, j + 1) =~= Seq::<u8>::empty());
            } else if seps == 1 {
                second = j;
                assert(b.subrange(j + 1, j + 1) =~= Seq::<u8>::empty());
            } else if seps == 2 {
                third = j;
            }
            seps = seps + 1;
        } else {
            assert(split_at_byte(next, sep) == pieces.update(pieces.len() - 1, pieces.last().push(c)));
            if seps == 1 {
                assert(b.subrange(first + 1, j + 1) =~= b.subrange(first + 1, j as int).push(c));
            } else if seps == 2 {
                assert(b.subrange(second + 1, j + 1) =~= b.subrange(second + 1, j as int).push(c));
            }
        }
        j = j + 1;
    }
    assert(b.take(len as int) =~= b);
    if seps != 3 {
        None
    } else {
        Some((first + 1, second, third))
    }
}

/// Of `dir`, a `sep`, then `name` holding no `sep`, the part after the last
/// `sep` is `name`.
pub proof fn lemma_after_last_of_joined(dir: Seq<u8>, sep: u8, name: Seq<u8>)
    requires
        forall|i: int| 0 <= i < name.len() ==> name[i] != sep,
    ensures
        after_last(dir + seq![sep] + name, sep) == name,
    decreases name.len(),
{
    let s = dir + seq![sep] + name;
    if name.len() == 0 {
        assert(s.last() == sep);
        assert(name =~= Seq::<u8>::empty());
    } else {
        let shorter = name.drop_last();
        lemma_after_last_of_joined(dir, sep, shorter);
        assert(s.drop_last() =~= dir + seq![sep] + shorter);
        assert(s.last() == name.last());
        assert(shorter.push(name.last()) =~= name);
    }
}

/// The part of `name`, which holds no `sep`, after its last `sep` is all of it.
pub proof fn lemma_after_last_whole(name: Seq<u8>, sep: u8)
    requires
        forall|i: int| 0 <= i < name.len() ==> name[i] != sep,
    ensures
        after_last(name, sep) == name,
    decreases name.len(),
{
    if name.len() > 0 {
        let shorter = name.drop_last();
        lemma_after_last_whole(shorter, sep);
        assert(shorter.push(name.last()) =~= name);
    }
}

/// The decimal digits of `n` as ASCII bytes, most significant first.
pub open spec fn decimal_bytes(n: nat) -> Seq<u8>
    decreases n,
{
    if n < 10 {
        seq![(48 + n) as u8]
    } else {
        decimal_bytes(n / 10).push((48 + n % 10) as u8)
    }
}

/// The decimal text of `v` as ASCII bytes, with a `-` before a negative number.
pub open spec fn signed_decimal_bytes(v: int) -> Seq<u8> {
    if v < 0 { seq![45u8] + decimal_bytes((-v) as nat) } else { decimal_bytes(v as nat) }
}

/// The decimal text of a number is one or more digits.
pub proof fn lemma_decimal_bytes_digits(n: nat)
    ensures
        decimal_bytes(n).len() >= 1,
        forall|i: int| 0 <= i < decimal_bytes(n).len() ==> is_digit(#[trigger] decimal_bytes(n)[i]),
    decreases n,
{
    if n >= 10 {
        lemma_decimal_bytes_digits(n / 10);
    }
}

/// Scanning the decimal text of a number no larger than the limit gives the number.
pub proof fn lemma_scan_decimal(n: nat, limit: int)
    requires
        n <= limit,
    ensures
        scan_digits(decimal_bytes(n), limit) == Ok::<int, IntErrorKind>(n as int),
    decreases n,
{
    let d = decimal_bytes(n);
    if n < 10 {
        assert(d.drop_last() =~= Seq::<u8>::empty());
        assert(scan_digits(d.drop_last(), limit) == Ok::<int, IntErrorKind>(0));
        assert(d.last() == 48 + n);
    } else {
        lemma_scan_decimal(n / 10, limit);
        assert(d.drop_last() =~= decimal_bytes(n / 10));
        assert(0 <= n % 10 < 10);
        assert(d.last() == 48 + n % 10);
        assert((n / 10) * 10 + n % 10 == n);
        assert(n / 10 <= limit);
    }
}

/// `prefix`, a `sep`, then `piece` holding no `sep` is cut into the pieces of
/// `prefix` and then `piece`.
pub proof fn lemma_split_joined(prefix: Seq<u8>, sep: u8, piece: Seq<u8>)
    requires
        forall|i: int| 0 <= i < piece.len() ==> piece[i] != sep,
    ensures
        split_at_byte(prefix + seq![sep] + piece, sep) == split_at_byte(prefix, sep).push(piece),
    decreases piece.len(),
{
    let s = prefix + seq![sep] + piece;
    if piece.len() == 0 {
        assert(s.drop_last() =~= prefix);
        assert(piece =~= Seq::<u8>::empty());
    } else {
        let shorter = piece.drop_last();
        lemma_split_joined(prefix, sep, shorter);
        assert(s.drop_last() =~= prefix + seq![sep] + shorter);
        assert(s.last() == piece.last());
        assert(shorter.push(piece.last()) =~= piece);
        assert(split_at_byte(prefix, sep).push(shorter).update(
            split_at_byte(prefix, sep).len() as int,
            shorter.push(piece.last()),
        ) =~= split_at_byte(prefix, sep).push(piece));
    }
}

/// A text holding no `sep` is one piece.
pub proof fn lemma_split_single(piece: Seq<u8>, sep: u8)
    requires
        forall|i: int| 0 <= i < piece.len() ==> piece[i] != sep,
    ensures
        split_at_byte(piece, sep) == seq![piece],
    decreases piece.len(),
{
    if piece.len() == 0 {
        assert(piece =~= Seq::<u8>::empty());
    } else {
        let shorter = piece.drop_last();
        lemma_split_single(shorter, sep);
        assert(shorter.push(piece.last()) =~= piece);
        assert(seq![shorter].update(0, shorter.push(piece.last())) =~= seq![piece]);
    }
}

/// The number that the decimal digits `d` write, most significant first.
pub open spec fn digits_value(d: Seq<u8>) -> nat
    decreases d.len(),
{
    if d.len() == 0 {
        0
    } else {
        digits_value(d.drop_last()) * 10 + (d.last() - 48) as nat
    }
}

/// Scanning digits gives their number where it is within the limit, and
/// reports an overflow where it is not.
pub proof fn lemma_scan_digits_value(d: Seq<u8>, limit: int)
    requires
        limit >= 0,
        forall|i: int| 0 <= i < d.len() ==> is_digit(#[trigger] d[i]),
    ensures
        digits_value(d) <= limit ==> scan_digits(d, limit) == Ok::<int, IntErrorKind>(digits_value(d) as int),
        digits_value(d) > limit ==> scan_digits(d, limit) == Err::<int, IntErrorKind>(IntErrorKind::PosOverflow),
    decreases d.len(),
{
    if d.len() > 0 {
        let shorter = d.drop_last();
        assert forall|i: int| 0 <= i < shorter.len() implies is_digit(#[trigger] shorter[i]) by {
            assert(shorter[i] == d[i]);
        }
        lemma_scan_digits_value(shorter, limit);
        assert(is_digit(d[d.len() - 1]));
        assert(digits_value(d) >= digits_value(shorter));
    }
}

} // verus!
