//! Six bits to a printable byte: the alphabet of the graph6 family.
//!
//! A byte between 63 and 126 stands for the six-bit number that is left
//! when 63 is taken away, most significant bit first.
use crate::error::IOError;
use vstd::prelude::*;

verus! {

/// The bytes 63 to 126, the alphabet of the graph6 family.
pub open spec fn printable(b: u8) -> bool {
    63 <= b <= 126
}

/// Every byte of the sequence is printable.
pub open spec fn all_printable(bytes: Seq<u8>) -> bool {
    forall|i: int| 0 <= i < bytes.len() ==> printable(#[trigger] bytes[i])
}

/// What position `k` of a group of six bits is worth, the first position most.
pub open spec fn weight(k: int) -> int {
    if k == 0 {
        32
    } else if k == 1 {
        16
    } else if k == 2 {
        8
    } else if k == 3 {
        4
    } else if k == 4 {
        2
    } else {
        1
    }
}

/// Bit `k` of the six-bit number `v`, counted from the most significant.
pub open spec fn sextet_bit(v: int, k: int) -> bool {
    (v / weight(k)) % 2 == 1
}

/// The bits that a run of printable bytes stands for, six for each byte.
pub open spec fn unpacked(bytes: Seq<u8>) -> Seq<bool> {
    Seq::new((6 * bytes.len()) as nat, |t: int| sextet_bit(bytes[t / 6] - 63, t % 6))
}

/// The bit at `t`, and `false` past the end of the sequence.
pub open spec fn bit_at(bits: Seq<bool>, t: int) -> bool {
    0 <= t < bits.len() && bits[t]
}

/// What the bit at `t` adds to its group of six.
pub open spec fn bit_worth(bits: Seq<bool>, t: int) -> int {
    if bit_at(bits, t) {
        weight(t % 6)
    } else {
        0
    }
}

/// The number that group `c` of six bits stands for, missing bits counted as zero.
pub open spec fn sextet(bits: Seq<bool>, c: int) -> int {
    bit_worth(bits, 6 * c) + bit_worth(bits, 6 * c + 1) + bit_worth(bits, 6 * c + 2) + bit_worth(
        bits,
        6 * c + 3,
    ) + bit_worth(bits, 6 * c + 4) + bit_worth(bits, 6 * c + 5)
}

/// How many bytes it takes to pack `n` bits.
pub open spec fn packed_len(n: nat) -> nat {
    ((n + 5) / 6) as nat
}

/// The printable bytes that pack a sequence of bits, the last group filled with zeros.
pub open spec fn packed(bits: Seq<bool>) -> Seq<u8> {
    Seq::new(packed_len(bits.len()), |c: int| (63 + sextet(bits, c)) as u8)
}

/// The sequence of bits lengthened with zeros to a multiple of six.
pub open spec fn padded(bits: Seq<bool>) -> Seq<bool> {
    Seq::new((6 * packed_len(bits.len())) as nat, |t: int| bit_at(bits, t))
}

/// A group of six bits stands for a number below 64.
pub proof fn lemma_sextet_range(bits: Seq<bool>, c: int)
    ensures
        0 <= sextet(bits, c) < 64,
{
}

/// Unpacks printable bytes into bits, six for each byte, most significant first.
///
/// Fails with `InvalidBitByte` exactly when some byte lies outside 63..=126.
pub fn unpack(bytes: &[u8]) -> (r: Result<Vec<bool>, IOError>)
    ensures
        match r {
            Ok(bits) => all_printable(bytes@) && bits@ == unpacked(bytes@),
            Err(e) => !all_printable(bytes@) && e == IOError::InvalidBitByte,
        },
{
    let mut bits: Vec<bool> = Vec::new();
    let mut i: usize = 0;
    while i < bytes.len()
        invariant
            i <= bytes@.len(),
            forall|j: int| 0 <= j < i ==> printable(#[trigger] bytes@[j]),
            bits@.len() == 6 * i,
            forall|t: int|
                0 <= t < 6 * i ==> #[trigger] bits@[t] == sextet_bit(bytes@[t / 6] - 63, t % 6),
        decreases bytes@.len() - i,
    {
        let b: u8 = bytes[i];
        if b < 63 || b > 126 {
            return Err(IOError::InvalidBitByte);
        }
        let v: u8 = b - 63;
        bits.push(v / 32 % 2 == 1);
        bits.push(v / 16 % 2 == 1);
        bits.push(v / 8 % 2 == 1);
        bits.push(v / 4 % 2 == 1);
        bits.push(v / 2 % 2 == 1);
        bits.push(v % 2 == 1);
        i += 1;
    }
    proof {
        assert(bits@ =~= unpacked(bytes@));
    }
    Ok(bits)
}

/// Whether every byte is printable.
pub fn is_printable(bytes: &[u8]) -> (r: bool)
    ensures
        r == all_printable(bytes@),
{
    let mut i: usize = 0;
    while i < bytes.len()
        invariant
            i <= bytes@.len(),
            forall|j: int| 0 <= j < i ==> printable(#[trigger] bytes@[j]),
        decreases bytes@.len() - i,
    {
        if bytes[i] < 63 || bytes[i] > 126 {
            return false;
        }
        i += 1;
    }
    true
}

/// Packs bits into printable bytes, six to a byte, the last byte filled with zeros.
pub fn pack(bits: &Vec<bool>) -> (r: Vec<u8>)
    ensures
        r@ == packed(bits@),
{
    let n: usize = bits.len();
    let groups: usize = n / 6 + if n % 6 == 0 { 0 } else { 1 };
    let mut out: Vec<u8> = Vec::new();
    let mut c: usize = 0;
    while c < groups
        invariant
            n == bits@.len(),
            groups == packed_len(n as nat),
            c <= groups,
            out@.len() == c,
            forall|d: int| 0 <= d < c ==> #[trigger] out@[d] == 63 + sextet(bits@, d),
        decreases groups - c,
    {
        let t: usize = 6 * c;
        let mut v: u8 = 0;
        let mut w: u8 = 32;
        let mut k: usize = 0;
        while k < 6
            invariant
                n == bits@.len(),
                t < n,
                t % 6 == 0,
                k <= 6,
                w == weight(k as int) || k == 6,
                v + (if k < 6 { 2 * weight(k as int) } else { 1 }) <= 64,
                v == partial_sextet(bits@, t as int, k as int),
            decreases 6 - k,
        {
            if k < n - t && bits[t + k] {
                v = v + w;
            }
            w = w / 2;
            k += 1;
        }
        proof {
            lemma_partial_sextet(bits@, c as int);
        }
        out.push(v + 63);
        c += 1;
    }
    proof {
        assert(out@ =~= packed(bits@));
    }
    out
}

/// The worth of the first `k` bits of the group that begins at `t`.
pub open spec fn partial_sextet(bits: Seq<bool>, t: int, k: int) -> int
    decreases k,
{
    if k <= 0 {
        0
    } else {
        partial_sextet(bits, t, k - 1) + bit_worth(bits, t + k - 1)
    }
}

/// Six bits taken one after another make up the whole group.
pub proof fn lemma_partial_sextet(bits: Seq<bool>, c: int)
    ensures
        partial_sextet(bits, 6 * c, 6) == sextet(bits, c),
{
    reveal_with_fuel(partial_sextet, 7);
}

/// A six-bit number is the sum of what its bits are worth.
proof fn lemma_number_of_bits(v: int)
    requires
        0 <= v < 64,
    ensures
        v == (if sextet_bit(v, 0) { 32int } else { 0 }) + (if sextet_bit(v, 1) { 16int } else { 0 })
            + (if sextet_bit(v, 2) { 8int } else { 0 }) + (if sextet_bit(v, 3) { 4int } else { 0 })
            + (if sextet_bit(v, 4) { 2int } else { 0 }) + (if sextet_bit(v, 5) { 1int } else { 0 }),
{
}

/// The bits of a sum of weights are the bits that were added up.
proof fn lemma_bits_of_number(b0: bool, b1: bool, b2: bool, b3: bool, b4: bool, b5: bool)
    ensures
        ({
            let v = (if b0 { 32int } else { 0 }) + (if b1 { 16int } else { 0 }) + (if b2 { 8int } else { 0 })
                + (if b3 { 4int } else { 0 }) + (if b4 { 2int } else { 0 }) + (if b5 { 1int } else { 0 });
            &&& sextet_bit(v, 0) == b0
            &&& sextet_bit(v, 1) == b1
            &&& sextet_bit(v, 2) == b2
            &&& sextet_bit(v, 3) == b3
            &&& sextet_bit(v, 4) == b4
            &&& sextet_bit(v, 5) == b5
        }),
{
}

/// Packed bits are printable bytes.
pub proof fn lemma_packed_printable(bits: Seq<bool>)
    ensures
        all_printable(packed(bits)),
        packed(bits).len() == packed_len(bits.len()),
{
    assert forall|c: int| 0 <= c < packed(bits).len() implies printable(
        #[trigger] packed(bits)[c],
    ) by {
        lemma_sextet_range(bits, c);
    }
}

/// Unpacking what was packed gives the bits back, lengthened with zeros to
/// a multiple of six.
pub proof fn law_unpack_packed(bits: Seq<bool>)
    ensures
        unpacked(packed(bits)) == padded(bits),
{
    let back = unpacked(packed(bits));
    assert(back.len() == padded(bits).len());
    assert forall|t: int| 0 <= t < back.len() implies back[t] == padded(bits)[t] by {
        let c = t / 6;
        lemma_sextet_range(bits, c);
        lemma_bits_of_number(
            bit_at(bits, 6 * c),
            bit_at(bits, 6 * c + 1),
            bit_at(bits, 6 * c + 2),
            bit_at(bits, 6 * c + 3),
            bit_at(bits, 6 * c + 4),
            bit_at(bits, 6 * c + 5),
        );
        assert(packed(bits)[c] - 63 == sextet(bits, c));
    }
    assert(back =~= padded(bits));
}

/// Packing what was unpacked from printable bytes gives the same bytes.
pub proof fn law_pack_unpacked(bytes: Seq<u8>)
    requires
        all_printable(bytes),
    ensures
        packed(unpacked(bytes)) == bytes,
{
    let bits = unpacked(bytes);
    assert(packed(bits).len() == bytes.len());
    assert forall|c: int| 0 <= c < bytes.len() implies packed(bits)[c] == bytes[c] by {
        assert(printable(bytes[c]));
        lemma_number_of_bits(bytes[c] - 63);
        assert(bits[6 * c] == sextet_bit(bytes[c] - 63, 0));
        assert(bits[6 * c + 1] == sextet_bit(bytes[c] - 63, 1));
        assert(bits[6 * c + 2] == sextet_bit(bytes[c] - 63, 2));
        assert(bits[6 * c + 3] == sextet_bit(bytes[c] - 63, 3));
        assert(bits[6 * c + 4] == sextet_bit(bytes[c] - 63, 4));
        assert(bits[6 * c + 5] == sextet_bit(bytes[c] - 63, 5));
    }
    assert(packed(bits) =~= bytes);
}

} // verus!
