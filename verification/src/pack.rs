//! Packing the bits of a row, one value per pixel or eight pixels per byte.

use vstd::prelude::*;
use vstd::slice::slice_subrange;
use vstd::arithmetic::power2::{pow2, lemma2_to64};
use crate::error::ConvertError;
use crate::options::{Options, Pixel};
use crate::threshold::{compare, is_on};

verus! {

/// The number that stands for a bit.
pub open spec fn bit_value(bit: bool) -> nat {
    if bit {
        1
    } else {
        0
    }
}

/// The bit of a byte to which pixel `i` of a group goes.
pub open spec fn bit_position(i: int, flip: bool) -> int {
    if flip {
        7 - i
    } else {
        i
    }
}

/// Eight bits in the order in which they take the places of a byte, lowest
/// first: as they come, or reversed where `flip` is set.
pub open spec fn placed(bits: Seq<bool>, flip: bool) -> Seq<bool> {
    Seq::new(8, |k: int| bits[bit_position(k, flip)])
}

/// The byte that holds a group of eight bits: the bit at place `k` counts `2^k`.
pub open spec fn byte_of_bits(bits: Seq<bool>, flip: bool) -> nat {
    let p = placed(bits, flip);
    bit_value(p[0]) + 2 * bit_value(p[1]) + 4 * bit_value(p[2]) + 8 * bit_value(p[3]) + 16
        * bit_value(p[4]) + 32 * bit_value(p[5]) + 64 * bit_value(p[6]) + 128 * bit_value(p[7])
}

/// Bit `k` of `byte`.
pub open spec fn bit_at(byte: u8, k: int) -> bool {
    (byte as nat / pow2(k as nat)) % 2 == 1
}

/// The eight bits that went into `byte`, in the order of their pixels.
pub open spec fn bits_of_byte(byte: u8, flip: bool) -> Seq<bool> {
    Seq::new(8, |i: int| bit_at(byte, bit_position(i, flip)))
}

/// The bits of a row of pixels, left to right.
pub open spec fn row_bits(row: Seq<Pixel>, options: Options) -> Seq<bool> {
    Seq::new(row.len(), |i: int| is_on(row[i], options))
}

/// The values of a row: a 0 or 1 for each pixel, or one byte for each group
/// of eight pixels.
pub open spec fn packed_row(row: Seq<Pixel>, options: Options) -> Seq<u8> {
    if options.compact {
        Seq::new(
            row.len() / 8,
            |g: int| byte_of_bits(row_bits(row, options).subrange(8 * g, 8 * g + 8), options.flip) as u8,
        )
    } else {
        Seq::new(row.len(), |i: int| bit_value(row_bits(row, options)[i]) as u8)
    }
}

/// The sum of the first `n` bits, where bit `i` counts `2^i`.
spec fn weighted_sum(bits: Seq<bool>, n: nat) -> nat
    decreases n,
{
    if n == 0 {
        0
    } else {
        weighted_sum(bits, (n - 1) as nat) + bit_value(bits[n - 1]) * pow2((n - 1) as nat)
    }
}

/// The sum of all eight places is the byte of the group.
proof fn lemma_weighted_sum_is_byte(bits: Seq<bool>, flip: bool)
    ensures
        weighted_sum(placed(bits, flip), 8) == byte_of_bits(bits, flip),
{
    let p = placed(bits, flip);
    lemma2_to64();
    assert(weighted_sum(p, 0) == 0);
    assert(weighted_sum(p, 1) == weighted_sum(p, 0) + bit_value(p[0]) * 1);
    assert(weighted_sum(p, 2) == weighted_sum(p, 1) + bit_value(p[1]) * 2);
    assert(weighted_sum(p, 3) == weighted_sum(p, 2) + bit_value(p[2]) * 4);
    assert(weighted_sum(p, 4) == weighted_sum(p, 3) + bit_value(p[3]) * 8);
    assert(weighted_sum(p, 5) == weighted_sum(p, 4) + bit_value(p[4]) * 16);
    assert(weighted_sum(p, 6) == weighted_sum(p, 5) + bit_value(p[5]) * 32);
    assert(weighted_sum(p, 7) == weighted_sum(p, 6) + bit_value(p[6]) * 64);
    assert(weighted_sum(p, 8) == weighted_sum(p, 7) + bit_value(p[7]) * 128);
}

/// Packs eight bits into a byte: bit `i` goes to place `i`, or to place
/// `7 - i` where `flip` is set.
pub fn pack_bits(bits: &[bool], flip: bool) -> (byte: u8)
    requires
        bits@.len() == 8,
    ensures
        byte == byte_of_bits(bits@, flip),
{
    let mut byte: u8 = 0;
    let mut k: u8 = 0;
    proof {
        lemma2_to64();
    }
    while k < 8
        invariant
            k <= 8,
            bits@.len() == 8,
            byte == weighted_sum(placed(bits@, flip), k as nat),
            byte < pow2(k as nat),
        decreases 8 - k,
    {
        let i: usize = if flip {
            7 - k as usize
        } else {
            k as usize
        };
        proof {
            lemma2_to64();
            vstd::arithmetic::power2::lemma_pow2_unfold((k + 1) as nat);
            assert(placed(bits@, flip)[k as int] == bits@[i as int]);
        }
        if bits[i] {
            let ghost before = byte;
            assert(k < 8 && before < (1u8 << k) ==> (before | (1u8 << k)) == before + (1u8 << k)
                && before + (1u8 << k) < 256) by (bit_vector);
            assert((1u8 << k) == pow2(k as nat)) by {
                assert(k < 8 ==> (1u8 << k) == if k == 0 { 1u8 } else if k == 1 { 2u8 } else if k == 2 { 4u8 } else if k == 3 { 8u8 } else if k == 4 { 16u8 } else if k == 5 { 32u8 } else if k == 6 { 64u8 } else { 128u8 }) by (bit_vector);
            }
            byte = byte | (1u8 << k);
        }
        k += 1;
    }
    proof {
        lemma_weighted_sum_is_byte(bits@, flip);
    }
    byte
}

/// Reads the eight bits of a byte back, in the order of their pixels: the
/// inverse of `pack_bits` under the same `flip`.
pub fn unpack_byte(byte: u8, flip: bool) -> (bits: Vec<bool>)
    ensures
        bits@ == bits_of_byte(byte, flip),
{
    let mut bits: Vec<bool> = Vec::new();
    let mut i: u8 = 0;
    while i < 8
        invariant
            i <= 8,
            bits@.len() == i,
            forall|j: int| 0 <= j < i ==> bits@[j] == bit_at(byte, bit_position(j, flip)),
        decreases 8 - i,
    {
        let k: u8 = if flip {
            7 - i
        } else {
            i
        };
        proof {
            lemma2_to64();
            assert(k < 8 ==> (((byte >> k) & 1u8) == 1u8) == ((byte / (1u8 << k)) % 2u8 == 1u8))
                by (bit_vector);
            assert(k < 8 ==> (1u8 << k) == if k == 0 { 1u8 } else if k == 1 { 2u8 } else if k == 2 { 4u8 } else if k == 3 { 8u8 } else if k == 4 { 16u8 } else if k == 5 { 32u8 } else if k == 6 { 64u8 } else { 128u8 }) by (bit_vector);
            assert((1u8 << k) == pow2(k as nat));
        }
        bits.push((byte >> k) & 1u8 == 1u8);
        i += 1;
    }
    assert(bits@ =~= bits_of_byte(byte, flip));
    bits
}

/// Each binary digit of a number is found again by dividing and taking the
/// remainder.
proof fn lemma_binary_digits(
    b0: u16,
    b1: u16,
    b2: u16,
    b3: u16,
    b4: u16,
    b5: u16,
    b6: u16,
    b7: u16,
    n: u16,
)
    by (bit_vector)
    requires
        b0 <= 1,
        b1 <= 1,
        b2 <= 1,
        b3 <= 1,
        b4 <= 1,
        b5 <= 1,
        b6 <= 1,
        b7 <= 1,
        n == b0 + b1 * 2 + b2 * 4 + b3 * 8 + b4 * 16 + b5 * 32 + b6 * 64 + b7 * 128,
    ensures
        (n / 1) % 2 == b0,
        (n / 2) % 2 == b1,
        (n / 4) % 2 == b2,
        (n / 8) % 2 == b3,
        (n / 16) % 2 == b4,
        (n / 32) % 2 == b5,
        (n / 64) % 2 == b6,
        (n / 128) % 2 == b7,
{
}

/// Unpacking a packed byte under the same `flip` gives the eight bits back,
/// each at the index it was packed from.
pub proof fn lemma_unpack_pack(bits: Seq<bool>, flip: bool)
    requires
        bits.len() == 8,
    ensures
        byte_of_bits(bits, flip) < 256,
        bits_of_byte(byte_of_bits(bits, flip) as u8, flip) == bits,
{
    let p = placed(bits, flip);
    lemma2_to64();
    let byte = byte_of_bits(bits, flip) as u8;
    assert forall|i: int| 0 <= i < 8 implies bit_at(byte, bit_position(i, flip)) == bits[i] by {
        let k = bit_position(i, flip);
        assert(p[k] == bits[i]);
        lemma_binary_digits(
            bit_value(p[0]) as u16,
            bit_value(p[1]) as u16,
            bit_value(p[2]) as u16,
            bit_value(p[3]) as u16,
            bit_value(p[4]) as u16,
            bit_value(p[5]) as u16,
            bit_value(p[6]) as u16,
            bit_value(p[7]) as u16,
            byte as u16,
        );
        assert(bit_at(byte, k) == p[k]);
    }
    assert(bits_of_byte(byte, flip) =~= bits);
}

/// Classifies every pixel of a row, left to right.
pub fn classify_row(row: &[Pixel], options: &Options) -> (bits: Vec<bool>)
    ensures
        bits@ == row_bits(row@, *options),
{
    let mut bits: Vec<bool> = Vec::new();
    let mut i: usize = 0;
    while i < row.len()
        invariant
            i <= row@.len(),
            bits@.len() == i,
            forall|j: int| 0 <= j < i ==> bits@[j] == row_bits(row@, *options)[j],
        decreases row@.len() - i,
    {
        bits.push(compare(row[i], options));
        i += 1;
    }
    assert(bits@ =~= row_bits(row@, *options));
    bits
}

/// Packs one row of pixels. Without `compact` the result holds a 0 or 1 for
/// each pixel; with it, one byte for each group of eight pixels. A row that
/// does not divide into groups of eight is refused when `compact` is set.
pub fn pack_row(row: &[Pixel], options: &Options) -> (packed: Result<Vec<u8>, ConvertError>)
    ensures
        packed is Err <==> options.compact && row@.len() % 8 != 0,
        packed is Err ==> packed == Err::<Vec<u8>, ConvertError>(ConvertError::CompactDivisibility),
        packed is Ok ==> packed->Ok_0@ == packed_row(row@, *options),
        packed is Ok ==> packed->Ok_0@.len() == if options.compact {
            row@.len() / 8
        } else {
            row@.len()
        },
{
    let bits = classify_row(row, options);
    let mut values: Vec<u8> = Vec::new();
    if options.compact {
        if row.len() % 8 != 0 {
            return Err(ConvertError::CompactDivisibility);
        }
        let groups: usize = row.len() / 8;
        let mut g: usize = 0;
        while g < groups
            invariant
                g <= groups,
                8 * groups == row@.len(),
                row@.len() <= usize::MAX,
                options.compact,
                bits@ == row_bits(row@, *options),
                values@.len() == g,
                forall|j: int| 0 <= j < g ==> values@[j] == packed_row(row@, *options)[j],
            decreases groups - g,
        {
            let group = slice_subrange(bits.as_slice(), 8 * g, 8 * g + 8);
            values.push(pack_bits(group, options.flip));
            g += 1;
        }
    } else {
        let mut i: usize = 0;
        while i < bits.len()
            invariant
                i <= bits@.len(),
                !options.compact,
                bits@ == row_bits(row@, *options),
                values@.len() == i,
                forall|j: int| 0 <= j < i ==> values@[j] == packed_row(row@, *options)[j],
            decreases bits@.len() - i,
        {
            values.push(if bits[i] { 1 } else { 0 });
            i += 1;
        }
    }
    assert(values@ =~= packed_row(row@, *options));
    Ok(values)
}

} // verus!
