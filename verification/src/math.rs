//! Integer helpers: alignment and powers of two.

use vstd::prelude::*;

verus! {

/// Whether `n` is a power of two.
pub open spec fn power_of_two(n: nat) -> bool
    decreases n,
{
    n == 1 || (n > 1 && n % 2 == 0 && power_of_two(n / 2))
}

/// The powers of two are the numbers that `pow2` gives.
pub proof fn law_powers_of_two(n: nat)
    ensures
        power_of_two(n) <==> exists|k: nat| n == #[trigger] vstd::arithmetic::power2::pow2(k),
    decreases n,
{
    if power_of_two(n) {
        if n == 1 {
            vstd::arithmetic::power2::lemma2_to64();
            assert(n == vstd::arithmetic::power2::pow2(0));
        } else {
            law_powers_of_two(n / 2);
            let k = choose|k: nat| n / 2 == #[trigger] vstd::arithmetic::power2::pow2(k);
            vstd::arithmetic::power2::lemma_pow2_unfold(k + 1);
            assert(n == vstd::arithmetic::power2::pow2(k + 1));
        }
    }
    if exists|k: nat| n == #[trigger] vstd::arithmetic::power2::pow2(k) {
        let k = choose|k: nat| n == #[trigger] vstd::arithmetic::power2::pow2(k);
        vstd::arithmetic::power2::lemma_pow2_pos(k);
        if k == 0 {
            vstd::arithmetic::power2::lemma2_to64();
        } else {
            vstd::arithmetic::power2::lemma_pow2_unfold(k);
            let j = (k - 1) as nat;
            assert(n / 2 == vstd::arithmetic::power2::pow2(j));
            law_powers_of_two(n / 2);
        }
    }
}

/// A power of two divides every larger one: gives the quotient.
pub proof fn lemma_powers_divide(small: nat, large: nat) -> (quotient: int)
    requires
        power_of_two(small),
        power_of_two(large),
        small <= large,
    ensures
        large == quotient * small,
    decreases small,
{
    if small == 1 {
        large as int
    } else {
        let quotient = lemma_powers_divide(small / 2, large / 2);
        assert(large == quotient * small) by (nonlinear_arith)
            requires
                large == 2 * (large / 2),
                small == 2 * (small / 2),
                large / 2 == quotient * (small / 2),
        ;
        quotient
    }
}

/// The least multiple of `align` that is not below `value`.
pub open spec fn round_up(value: int, align: int) -> int {
    (value + align - 1) / align * align
}

/// `round_up` lands on a multiple, at most `align - 1` further on, and on the least such one.
pub proof fn lemma_round_up(value: int, align: int)
    requires
        align > 0,
    ensures
        round_up(value, align) % align == 0,
        value <= round_up(value, align) < value + align,
        forall|m: int| value <= m && #[trigger] (m % align) == 0 ==> round_up(value, align) <= m,
{
    let q = (value + align - 1) / align;
    vstd::arithmetic::div_mod::lemma_fundamental_div_mod(value + align - 1, align);
    vstd::arithmetic::div_mod::lemma_mod_bound(value + align - 1, align);
    vstd::arithmetic::mul::lemma_mul_is_commutative(q, align);
    vstd::arithmetic::div_mod::lemma_mod_multiples_basic(q, align);
    assert forall|m: int| value <= m && #[trigger] (m % align) == 0 implies round_up(value, align)
        <= m by {
        let k = m / align;
        vstd::arithmetic::div_mod::lemma_fundamental_div_mod(m, align);
        if q > k {
            assert(q * align >= (k + 1) * align) by (nonlinear_arith)
                requires
                    q >= k + 1,
                    align > 0,
            ;
            assert((k + 1) * align == align * k + align) by (nonlinear_arith);
        } else {
            assert(q * align <= k * align) by (nonlinear_arith)
                requires
                    q <= k,
                    align > 0,
            ;
            vstd::arithmetic::mul::lemma_mul_is_commutative(k, align);
        }
    }
}

/// Whether `n` is a power of two.
pub fn is_power_of_two(n: u64) -> (result: bool)
    ensures
        result == power_of_two(n as nat),
{
    if n == 0 {
        return false;
    }
    let mut rest: u64 = n;
    while rest % 2 == 0
        invariant
            rest > 0,
            power_of_two(n as nat) == power_of_two(rest as nat),
        decreases rest,
    {
        rest = rest / 2;
    }
    rest == 1
}

/// Rounds `value` up to a multiple of `align`; `None` if that overflows.
pub fn align_up(value: usize, align: usize) -> (result: Option<usize>)
    requires
        align > 0,
    ensures
        result == (if value + align - 1 <= usize::MAX {
            Some(round_up(value as int, align as int) as usize)
        } else {
            None
        }),
{
    match value.checked_add(align - 1) {
        Some(sum) => {
            proof {
                lemma_round_up(value as int, align as int);
            }
            Some(sum / align * align)
        },
        None => None,
    }
}

} // verus!
