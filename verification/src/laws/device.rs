//! Devices: what is sent over the serial port, and the rate of the timer.

use vstd::prelude::*;

use crate::kernel::pic::pit_divisor;
use crate::kernel::serial::{expanded, expanded_byte};

verus! {

/// A single byte is sent as it is, a line feed behind a carriage return.
pub proof fn law_one_byte_is_sent(byte: u8)
    ensures
        byte != 10 ==> expanded(seq![byte]) == seq![byte],
        byte == 10 ==> expanded(seq![byte]) == seq![13u8, 10u8],
{
    assert(seq![byte].drop_last() =~= Seq::empty());
    assert(expanded(seq![byte].drop_last()) =~= Seq::empty());
    assert(expanded(seq![byte]) =~= expanded_byte(byte));
}

/// Bytes are sent one after the other: what is sent for two stretches is what is sent for the first,
/// followed by what is sent for the second.
pub proof fn law_bytes_are_sent_in_order(first: Seq<u8>, second: Seq<u8>)
    ensures
        expanded(first + second) == expanded(first) + expanded(second),
    decreases second.len(),
{
    let whole = first + second;
    if second.len() == 0 {
        assert(whole =~= first);
        assert(expanded(first) + expanded(second) =~= expanded(first));
    } else {
        law_bytes_are_sent_in_order(first, second.drop_last());
        assert(whole.drop_last() =~= first + second.drop_last());
        assert(whole.last() == second.last());
        assert(expanded(whole) =~= expanded(first) + expanded(second));
    }
}

/// The divisor of the timer: no divisor that fits into 16 bits comes nearer to the wanted rate.
/// Rates above twice the input frequency of 1193182 Hz get 1, rates that are too low get 65535.
pub proof fn law_the_divisor(hz: u32)
    requires
        hz > 0,
    ensures
        1 <= pit_divisor(hz) <= 65535,
        1 < pit_divisor(hz) ==> 2 * pit_divisor(hz) * hz - 2 * 1193182 <= hz,
        pit_divisor(hz) < 65535 ==> 2 * 1193182 - 2 * pit_divisor(hz) * hz <= hz,
{
    let h = hz as int;
    let sum = 1193182 + h / 2;
    let q = sum / h;
    vstd::arithmetic::div_mod::lemma_fundamental_div_mod(sum, h);
    vstd::arithmetic::div_mod::lemma_mod_bound(sum, h);
    vstd::arithmetic::mul::lemma_mul_is_commutative(q, h);
    let d = pit_divisor(hz);
    assert(2 * d * h == 2 * (d * h)) by (nonlinear_arith);
    if q > 65535 {
        assert(65535 * h <= q * h) by (nonlinear_arith)
            requires
                q > 65535,
                h > 0,
        ;
    } else if q < 1 {
        assert(q * h <= 0) by (nonlinear_arith)
            requires
                q < 1,
                h > 0,
        ;
    }
}

} // verus!
