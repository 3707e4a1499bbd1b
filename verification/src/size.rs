//! The size prefix: the number of vertices, written in one, four or eight
//! printable bytes.
use crate::bits::printable;
use crate::error::IOError;
use vstd::prelude::*;

verus! {

/// The largest order that one byte holds.
pub const SHORT_MAX: u64 = 62;

/// The largest order that four bytes hold.
pub const MEDIUM_MAX: u64 = 258047;

/// The largest order that eight bytes hold: 36 bits.
pub const LONG_MAX: u64 = 68719476735;

/// The byte that announces a longer form.
pub const MARKER: u8 = 126;

/// A decoded size prefix: the order, and how many bytes spelled it.
#[derive(Debug, Clone, Copy, PartialEq, Eq, Structural)]
pub struct SizePrefix {
    /// The number of vertices.
    pub order: u64,
    /// The number of bytes that the prefix took.
    pub consumed: usize,
}

/// The number that the `count` bytes from `from` on spell, six bits to a
/// byte, the first byte most significant.
pub open spec fn base64_value(bytes: Seq<u8>, from: int, count: int) -> int
    decreases count,
{
    if count <= 0 {
        0
    } else {
        64 * base64_value(bytes, from, count - 1) + (bytes[from + count - 1] - 63)
    }
}

/// The bytes from `from` up to `to` exist and are printable.
pub open spec fn printable_run(bytes: Seq<u8>, from: int, to: int) -> bool {
    &&& to <= bytes.len()
    &&& forall|i: int| from <= i < to ==> printable(#[trigger] bytes[i])
}

/// The size prefix at the head of `bytes`.
///
/// A first byte other than 126 is the order plus 63. After one 126, three
/// bytes spell the order; after two, six bytes do. A byte of the prefix
/// outside 63..=126, or a prefix cut short, is `InvalidSizeByte`.
pub open spec fn size_of(bytes: Seq<u8>) -> Result<SizePrefix, IOError> {
    if bytes.len() >= 1 && bytes[0] != MARKER {
        if printable(bytes[0]) {
            Ok(SizePrefix { order: (bytes[0] - 63) as u64, consumed: 1 })
        } else {
            Err(IOError::InvalidSizeByte)
        }
    } else if bytes.len() >= 2 && bytes[1] != MARKER {
        if printable_run(bytes, 1, 4) {
            Ok(SizePrefix { order: base64_value(bytes, 1, 3) as u64, consumed: 4 })
        } else {
            Err(IOError::InvalidSizeByte)
        }
    } else if printable_run(bytes, 2, 8) {
        Ok(SizePrefix { order: base64_value(bytes, 2, 6) as u64, consumed: 8 })
    } else {
        Err(IOError::InvalidSizeByte)
    }
}

/// 64 to the power `k`, for the six digits of the longest form.
pub open spec fn pow64(k: int) -> int {
    if k <= 0 {
        1
    } else if k == 1 {
        64
    } else if k == 2 {
        4096
    } else if k == 3 {
        262144
    } else if k == 4 {
        16777216
    } else if k == 5 {
        1073741824
    } else {
        68719476736
    }
}

/// Digit `k` of `order` in base 64, as a printable byte; digit 0 is the last.
pub open spec fn digit(order: int, k: int) -> u8 {
    ((order / pow64(k)) % 64 + 63) as u8
}

/// The shortest size prefix of an order below 2^36.
pub open spec fn size_bytes(order: int) -> Seq<u8> {
    if order <= SHORT_MAX {
        seq![(order + 63) as u8]
    } else if order <= MEDIUM_MAX {
        seq![MARKER, digit(order, 2), digit(order, 1), digit(order, 0)]
    } else {
        seq![
            MARKER,
            MARKER,
            digit(order, 5),
            digit(order, 4),
            digit(order, 3),
            digit(order, 2),
            digit(order, 1),
            digit(order, 0),
        ]
    }
}

/// Reads `count` printable bytes from `from` on as one number.
fn read_digits(bytes: &[u8], from: usize, count: usize) -> (r: Option<u64>)
    requires
        from <= 2,
        count <= 6,
    ensures
        r is Some <==> printable_run(bytes@, from as int, from + count),
        r matches Some(v) ==> v == base64_value(bytes@, from as int, count as int) && v < pow64(
            count as int,
        ),
{
    if bytes.len() < from + count {
        return None;
    }
    let mut acc: u64 = 0;
    let mut k: usize = 0;
    while k < count
        invariant
            from <= 2,
            k <= count <= 6,
            from + count <= bytes@.len(),
            acc == base64_value(bytes@, from as int, k as int),
            acc < pow64(k as int),
            forall|i: int| from <= i < from + k ==> printable(#[trigger] bytes@[i]),
        decreases count - k,
    {
        let b: u8 = bytes[from + k];
        if b < 63 || b > 126 {
            return None;
        }
        acc = acc * 64 + (b - 63) as u64;
        k += 1;
    }
    Some(acc)
}

/// Decodes the size prefix at the head of `bytes`.
pub fn decode_size(bytes: &[u8]) -> (r: Result<SizePrefix, IOError>)
    ensures
        r == size_of(bytes@),
        r matches Ok(p) ==> p.order <= LONG_MAX && p.consumed <= bytes@.len() && (p.consumed == 1
            ==> p.order <= SHORT_MAX),
{
    if bytes.len() >= 1 && bytes[0] != MARKER {
        let b: u8 = bytes[0];
        if b < 63 || b > 126 {
            Err(IOError::InvalidSizeByte)
        } else {
            Ok(SizePrefix { order: (b - 63) as u64, consumed: 1 })
        }
    } else if bytes.len() >= 2 && bytes[1] != MARKER {
        match read_digits(bytes, 1, 3) {
            Some(v) => Ok(SizePrefix { order: v, consumed: 4 }),
            None => Err(IOError::InvalidSizeByte),
        }
    } else {
        match read_digits(bytes, 2, 6) {
            Some(v) => Ok(SizePrefix { order: v, consumed: 8 }),
            None => Err(IOError::InvalidSizeByte),
        }
    }
}

/// Encodes an order in the shortest of the three forms.
///
/// One byte up to 62, four bytes up to 258047, eight bytes beyond.
pub fn encode_size(order: u64) -> (r: Vec<u8>)
    requires
        order <= LONG_MAX,
    ensures
        r@ == size_bytes(order as int),
        r@.len() == 1 <==> order <= SHORT_MAX,
        r@.len() == 4 <==> SHORT_MAX < order <= MEDIUM_MAX,
        r@.len() == 8 <==> MEDIUM_MAX < order,
{
    let mut out: Vec<u8> = Vec::new();
    if order <= SHORT_MAX {
        out.push((order + 63) as u8);
    } else if order <= MEDIUM_MAX {
        out.push(MARKER);
        out.push(((order / 4096) % 64 + 63) as u8);
        out.push(((order / 64) % 64 + 63) as u8);
        out.push((order % 64 + 63) as u8);
    } else {
        out.push(MARKER);
        out.push(MARKER);
        out.push(((order / 1073741824) % 64 + 63) as u8);
        out.push(((order / 16777216) % 64 + 63) as u8);
        out.push(((order / 262144) % 64 + 63) as u8);
        out.push(((order / 4096) % 64 + 63) as u8);
        out.push(((order / 64) % 64 + 63) as u8);
        out.push((order % 64 + 63) as u8);
    }
    proof {
        assert(out@ =~= size_bytes(order as int));
    }
    out
}

/// Dropping the last digit of an order in base 64 is dividing by 64.
proof fn lemma_digit_step(order: int, k: int)
    requires
        0 <= order,
        0 <= k <= 5,
    ensures
        (order / pow64(k)) / 64 == order / pow64(k + 1),
        order / pow64(k) == 64 * (order / pow64(k + 1)) + (order / pow64(k)) % 64,
{
    if k == 0 {
        assert((order / 1) / 64 == order / 64);
    } else if k == 1 {
        assert((order / 64) / 64 == order / 4096);
    } else if k == 2 {
        assert((order / 4096) / 64 == order / 262144);
    } else if k == 3 {
        assert((order / 262144) / 64 == order / 16777216);
    } else if k == 4 {
        assert((order / 16777216) / 64 == order / 1073741824);
    } else {
        assert((order / 1073741824) / 64 == order / 68719476736);
    }
}

/// The first `c` of `count` digits of an order spell the order without
/// its last `count - c` digits.
proof fn lemma_digits_value(line: Seq<u8>, from: int, count: int, order: int, c: int)
    requires
        0 <= order,
        0 <= c <= count <= 6,
        0 <= from,
        from + count <= line.len(),
        forall|t: int|
            from <= t < from + count ==> #[trigger] line[t] == digit(order, from + count - 1 - t),
        order < pow64(count),
    ensures
        base64_value(line, from, c) == order / pow64(count - c),
    decreases c,
{
    let k = count - c;
    if c == 0 {
        vstd::arithmetic::div_mod::lemma_basic_div(order, pow64(count));
        assert(base64_value(line, from, 0) == 0);
    } else {
        lemma_digits_value(line, from, count, order, c - 1);
        lemma_digit_step(order, k);
        let d = line[from + c - 1];
        let q = order / pow64(k);
        assert(from + count - 1 - (from + c - 1) == k);
        assert(d == digit(order, k));
        assert(0 <= q % 64 < 64);
        assert(d == q % 64 + 63);
        assert(base64_value(line, from, c - 1) == order / pow64(k + 1));
        assert(base64_value(line, from, c) == 64 * base64_value(line, from, c - 1) + (d - 63));
    }
}

/// An encoded size is read back as the same order, whatever follows it,
/// and the prefix is as long as what was written.
pub proof fn law_size_round_trip(order: int, rest: Seq<u8>)
    requires
        0 <= order <= LONG_MAX,
    ensures
        size_of(size_bytes(order) + rest) == Ok::<SizePrefix, IOError>(
            SizePrefix { order: order as u64, consumed: size_bytes(order).len() as usize },
        ),
{
    let line = size_bytes(order) + rest;
    if order <= SHORT_MAX {
        assert(line[0] == order + 63);
    } else if order <= MEDIUM_MAX {
        assert(line[0] == MARKER);
        assert(line[1] == digit(order, 2));
        assert(line[2] == digit(order, 1));
        assert(line[3] == digit(order, 0));
        assert(order / 4096 < 63);
        lemma_digits_value(line, 1, 3, order, 3);
    } else {
        assert(line[0] == MARKER);
        assert(line[1] == MARKER);
        assert(line[2] == digit(order, 5));
        assert(line[3] == digit(order, 4));
        assert(line[4] == digit(order, 3));
        assert(line[5] == digit(order, 2));
        assert(line[6] == digit(order, 1));
        assert(line[7] == digit(order, 0));
        lemma_digits_value(line, 2, 6, order, 6);
    }
}

} // verus!
