use vstd::prelude::*;

verus! {

/// The number that `bytes` spells when read from index `from` on, little-endian:
/// `bytes[from]` is the least significant byte.
pub open spec fn little_endian_value_from(bytes: Seq<u8>, from: int) -> nat
    decreases bytes.len() - from,
{
    if from < 0 || from >= bytes.len() {
        0
    } else {
        (bytes[from] + 256 * little_endian_value_from(bytes, from + 1)) as nat
    }
}

/// The number that `bytes` spells, little-endian.
pub open spec fn little_endian_value(bytes: Seq<u8>) -> nat {
    little_endian_value_from(bytes, 0)
}

/// 2 to the power of 64: the first number that does not fit in a `u64`.
pub open spec fn u64_limit() -> nat {
    0x1_0000_0000_0000_0000
}

/// A suffix starting further to the left never spells a smaller number.
proof fn lemma_value_from_monotone(bytes: Seq<u8>, i: int, j: int)
    requires
        0 <= i <= j,
    ensures
        little_endian_value_from(bytes, i) >= little_endian_value_from(bytes, j),
    decreases j - i,
{
    if i < j {
        lemma_value_from_monotone(bytes, i + 1, j);
        if i < bytes.len() {
            assert(little_endian_value_from(bytes, i) == bytes[i] + 256
                * little_endian_value_from(bytes, i + 1));
        } else {
            assert(little_endian_value_from(bytes, i + 1) == 0) by {
                assert(i + 1 >= bytes.len());
            }
        }
    }
}

/// 256 to the power of `count`.
pub open spec fn pow256(count: nat) -> nat
    decreases count,
{
    if count == 0 {
        1
    } else {
        256 * pow256((count - 1) as nat)
    }
}

/// `count` bytes spell a number below 256 to the power of `count`.
pub proof fn lemma_value_bound(bytes: Seq<u8>, from: int)
    requires
        0 <= from <= bytes.len(),
    ensures
        little_endian_value_from(bytes, from) < pow256((bytes.len() - from) as nat),
    decreases bytes.len() - from,
{
    if from < bytes.len() {
        lemma_value_bound(bytes, from + 1);
        let rest = little_endian_value_from(bytes, from + 1);
        let bound = pow256((bytes.len() - from - 1) as nat);
        assert(bytes[from] + 256 * rest < 256 * bound) by (nonlinear_arith)
            requires
                rest < bound,
                bytes[from] < 256,
        ;
    }
}

/// One, two and four bytes spell numbers below 2 to the 8, 16 and 32.
pub proof fn lemma_small_widths(bytes: Seq<u8>)
    ensures
        bytes.len() == 1 ==> little_endian_value(bytes) < 0x100,
        bytes.len() == 2 ==> little_endian_value(bytes) < 0x1_0000,
        bytes.len() == 4 ==> little_endian_value(bytes) < 0x1_0000_0000,
{
    lemma_value_bound(bytes, 0);
    assert(pow256(1) == 0x100) by {
        reveal_with_fuel(pow256, 2);
    }
    assert(pow256(2) == 0x1_0000) by {
        reveal_with_fuel(pow256, 3);
    }
    assert(pow256(4) == 0x1_0000_0000) by {
        reveal_with_fuel(pow256, 5);
    }
}

/// Reads `bytes` as an unsigned little-endian number. `None` when the number
/// does not fit in a `u64`.
pub fn bytes_to_nat(bytes: &[u8]) -> (result: Option<u64>)
    ensures
        little_endian_value(bytes@) < u64_limit() ==> result == Some(
            little_endian_value(bytes@) as u64,
        ),
        little_endian_value(bytes@) >= u64_limit() ==> result is None,
{
    let mut index: usize = bytes.len();
    // most significant zero bytes contribute nothing
    while index > 0 && bytes[index - 1] == 0
        invariant
            index <= bytes.len(),
            little_endian_value_from(bytes@, index as int) == 0,
        decreases index,
    {
        index = index - 1;
    }
    let mut result: u64 = 0;
    while index > 0
        invariant
            index <= bytes.len(),
            result == little_endian_value_from(bytes@, index as int),
        decreases index,
    {
        if result > 0x00FF_FFFF_FFFF_FFFF {
            proof {
                lemma_value_from_monotone(bytes@, 0, index - 1);
            }
            return None;
        }
        let byte = bytes[index - 1];
        assert(little_endian_value_from(bytes@, index - 1) == byte + 256 * result);
        result = result * 256 + byte as u64;
        index = index - 1;
    }
    Some(result)
}

/// The signed reading of `value` as a two's complement number of `bytes` bytes,
/// for the widths 1, 2, 4 and 8, when it differs from the unsigned reading.
pub open spec fn signed_if_different(value: u64, bytes: usize) -> Option<i64> {
    if bytes == 1 && value > 0x7F {
        Some((value - 0x100) as i64)
    } else if bytes == 2 && value > 0x7FFF {
        Some((value - 0x1_0000) as i64)
    } else if bytes == 4 && value > 0x7FFF_FFFF {
        Some((value - 0x1_0000_0000) as i64)
    } else if bytes == 8 && value > 0x7FFF_FFFF_FFFF_FFFF {
        Some((value - u64_limit()) as i64)
    } else {
        None
    }
}

/// The signed value of a `bytes`-byte number whose unsigned value is `value`,
/// when its top bit is set (so that the two readings differ). `None` for other
/// widths and when the top bit is clear.
pub fn nat_to_int_if_different(value: u64, bytes: usize) -> (result: Option<i64>)
    requires
        bytes == 1 ==> value <= 0xFF,
        bytes == 2 ==> value <= 0xFFFF,
        bytes == 4 ==> value <= 0xFFFF_FFFF,
    ensures
        result == signed_if_different(value, bytes),
{
    if bytes == 1 && value > 0x7F {
        Some(value as i64 - 0x100)
    } else if bytes == 2 && value > 0x7FFF {
        Some(value as i64 - 0x1_0000)
    } else if bytes == 4 && value > 0x7FFF_FFFF {
        Some(value as i64 - 0x1_0000_0000)
    } else if bytes == 8 && value > 0x7FFF_FFFF_FFFF_FFFF {
        Some(-((u64::MAX - value) as i64) - 1)
    } else {
        None
    }
}

/// The three 8-bit channels (red, green, blue) of a 15-bit colour whose
/// channels are 5 bits each, red in the lowest bits.
pub open spec fn color555_channels(color555: u16) -> Seq<u8> {
    seq![
        ((color555 % 32) * 8) as u8,
        (((color555 / 32) % 32) * 8) as u8,
        (((color555 / 1024) % 32) * 8) as u8,
    ]
}

/// Widens a 5-5-5 colour to 8-8-8 by scaling each channel by 8.
pub fn color555_to_color888(color555: u16) -> (channels: [u8; 3])
    ensures
        channels@ == color555_channels(color555),
{
    let red: u16 = color555 & 0b11111;
    let green: u16 = color555 >> 5 & 0b11111;
    let blue: u16 = color555 >> 10 & 0b11111;
    assert(red == color555 % 32 && red < 32) by (bit_vector)
        requires
            red == color555 & 0b11111,
    ;
    assert(green == (color555 / 32) % 32 && green < 32) by (bit_vector)
        requires
            green == color555 >> 5 & 0b11111,
    ;
    assert(blue == (color555 / 1024) % 32 && blue < 32) by (bit_vector)
        requires
            blue == color555 >> 10 & 0b11111,
    ;
    let channels = [red as u8 * 8, green as u8 * 8, blue as u8 * 8];
    assert(channels@ =~= color555_channels(color555));
    channels
}

/// The signed reading is two's complement: for a width of 1, 2, 4 or 8
/// bytes and a value that fits in it, there is a signed reading exactly when
/// the top bit of the width is set, and it is the value less 2 to the power
/// of the width in bits (so all bits set read as -1); it is then negative and
/// no smaller than minus 2 to the power of one bit less. Other widths have no
/// signed reading.
pub proof fn lemma_signed_reading_is_twos_complement(value: u64, bytes: usize)
    requires
        bytes == 1 || bytes == 2 || bytes == 4 || bytes == 8,
        value < vstd::arithmetic::power2::pow2((8 * bytes) as nat),
    ensures
        signed_if_different(value, bytes) is Some <==> value >= vstd::arithmetic::power2::pow2(
            (8 * bytes - 1) as nat,
        ),
        signed_if_different(value, bytes) matches Some(signed) ==> signed == value
            - vstd::arithmetic::power2::pow2((8 * bytes) as nat),
        signed_if_different(value, bytes) matches Some(signed) ==> -vstd::arithmetic::power2::pow2(
            (8 * bytes - 1) as nat,
        ) <= signed < 0,
{
    vstd::arithmetic::power2::lemma2_to64();
    vstd::arithmetic::power2::lemma2_to64_rest();
}

/// Widths other than 1, 2, 4 and 8 bytes have no signed reading.
pub proof fn lemma_no_signed_reading_for_other_widths(value: u64, bytes: usize)
    requires
        !(bytes == 1 || bytes == 2 || bytes == 4 || bytes == 8),
    ensures
        signed_if_different(value, bytes) is None,
{
}

} // verus!
