//! Numbers: in bytes, and as text.

use vstd::arithmetic::power::pow;
use vstd::prelude::*;

use crate::bytes::{le32, le64, u16_at, u32_at, u64_at};
use crate::text::{decimal, digit, hex, hex_padded};

verus! {

/// The lowest byte of a value comes first: each byte is a digit of the value in base 256.
pub proof fn law_low_byte_first(bytes: Seq<u8>, at: int)
    ensures
        u16_at(bytes, at) as int % 256 == bytes[at],
        u16_at(bytes, at) as int / 256 == bytes[at + 1],
        u32_at(bytes, at) as int % 256 == bytes[at],
        u32_at(bytes, at) as int / 256 % 256 == bytes[at + 1],
        u32_at(bytes, at) as int / 0x1_0000 % 256 == bytes[at + 2],
        u32_at(bytes, at) as int / 0x100_0000 == bytes[at + 3],
        u64_at(bytes, at) as int % 0x1_0000_0000 == u32_at(bytes, at),
        u64_at(bytes, at) as int / 0x1_0000_0000 == u32_at(bytes, at + 4),
{
}

/// The bytes that are written for a value are its digits in base 256, the lowest first.
pub proof fn law_bytes_of_a_value(short: u32, long: u64)
    ensures
        le32(short).len() == 4,
        le32(short)[0] == short as int % 256,
        le32(short)[1] == short as int / 256 % 256,
        le32(short)[2] == short as int / 0x1_0000 % 256,
        le32(short)[3] == short as int / 0x100_0000,
        le64(long).len() == 8,
        le64(long).take(4) == le32((long as int % 0x1_0000_0000) as u32),
        le64(long).skip(4) == le32((long as int / 0x1_0000_0000) as u32),
{
    assert(le64(long).take(4) =~= le32((long as int % 0x1_0000_0000) as u32));
    assert(le64(long).skip(4) =~= le32((long as int / 0x1_0000_0000) as u32));
}

/// What a character means as a digit; -1 for any other character.
pub open spec fn digit_value(c: char) -> int {
    if '0' <= c && c <= '9' {
        c as int - '0' as int
    } else if 'A' <= c && c <= 'F' {
        c as int - 'A' as int + 10
    } else {
        -1
    }
}

/// The number that a text means in a base.
pub open spec fn number_in(text: Seq<char>, base: int) -> int
    decreases text.len(),
{
    if text.len() == 0 {
        0
    } else {
        base * number_in(text.drop_last(), base) + digit_value(text.last())
    }
}

proof fn lemma_digit(value: nat)
    requires
        value < 16,
    ensures
        digit_value(digit(value)) == value,
        value < 10 <==> digit(value) <= '9',
        value == 0 <==> digit(value) == '0',
{
}

/// A number in base ten reads back as the number; it has decimal digits alone, and does not start
/// with a zero unless it is one.
pub proof fn law_decimal_reads_back(value: nat)
    ensures
        number_in(decimal(value), 10) == value,
        decimal(value).len() > 0,
        forall|i: int|
            0 <= i < decimal(value).len() ==> '0' <= #[trigger] decimal(value)[i]
                && decimal(value)[i] <= '9',
        decimal(value)[0] == '0' <==> value == 0,
        value == 0 ==> decimal(value).len() == 1,
    decreases value,
{
    let text = decimal(value);
    if value < 10 {
        lemma_digit(value);
        assert(text.drop_last() =~= Seq::empty());
        assert(number_in(text.drop_last(), 10) == 0);
    } else {
        law_decimal_reads_back(value / 10);
        lemma_digit(value % 10);
        assert(text.drop_last() =~= decimal(value / 10));
        assert(text[0] == decimal(value / 10)[0]);
        assert forall|i: int| 0 <= i < text.len() implies '0' <= #[trigger] text[i] && text[i]
            <= '9' by {
            if i < text.len() - 1 {
                assert(text[i] == decimal(value / 10)[i]);
            }
        }
    }
}

/// A number in base sixteen reads back as the number; it has the digits 0 to 9 and A to F alone, and
/// does not start with a zero unless it is one.
pub proof fn law_hex_reads_back(value: nat)
    ensures
        number_in(hex(value), 16) == value,
        hex(value).len() > 0,
        forall|i: int| 0 <= i < hex(value).len() ==> digit_value(#[trigger] hex(value)[i]) >= 0,
        hex(value)[0] == '0' <==> value == 0,
        value == 0 ==> hex(value).len() == 1,
    decreases value,
{
    let text = hex(value);
    if value < 16 {
        lemma_digit(value);
        assert(text.drop_last() =~= Seq::empty());
        assert(number_in(text.drop_last(), 16) == 0);
    } else {
        law_hex_reads_back(value / 16);
        lemma_digit(value % 16);
        assert(text.drop_last() =~= hex(value / 16));
        assert(text[0] == hex(value / 16)[0]);
        assert forall|i: int| 0 <= i < text.len() implies digit_value(#[trigger] text[i]) >= 0 by {
            if i < text.len() - 1 {
                assert(text[i] == hex(value / 16)[i]);
            }
        }
    }
}

/// A number padded to a width has that many digits, and reads back as the number if it fits, else
/// as its last digits.
pub proof fn law_padded_hex_reads_back(value: nat, width: nat)
    ensures
        hex_padded(value, width).len() == width,
        number_in(hex_padded(value, width), 16) == value as int % pow(16, width),
        forall|i: int|
            0 <= i < width ==> digit_value(#[trigger] hex_padded(value, width)[i]) >= 0,
    decreases width,
{
    let text = hex_padded(value, width);
    vstd::arithmetic::power::lemma_pow0(16);
    if width > 0 {
        let less = (width - 1) as nat;
        law_padded_hex_reads_back(value / 16, less);
        lemma_digit(value % 16);
        assert(text.drop_last() =~= hex_padded(value / 16, less));
        vstd::arithmetic::power::lemma_pow_positive(16, less);
        vstd::arithmetic::div_mod::lemma_mod_breakdown(value as int, 16, pow(16, less));
        reveal(pow);
        assert(pow(16, width) == 16 * pow(16, less));
        assert forall|i: int| 0 <= i < width implies digit_value(#[trigger] text[i]) >= 0 by {
            if i < width - 1 {
                assert(text[i] == hex_padded(value / 16, less)[i]);
            }
        }
    }
}

} // verus!
