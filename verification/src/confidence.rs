//! Confidence scoring: `confidence(count) = 100 * (1 - 2^-count)`, held
//! exactly as a rational, computed executably at a fixed scale of `10^7`,
//! and packed with the block number into one decimal integer.

use crate::decimal::{lemma_decimal_round_trip, spec_decimal, spec_decimal_value};
use vstd::arithmetic::div_mod::{lemma_fundamental_div_mod, lemma_fundamental_div_mod_converse};
use vstd::arithmetic::power2::{lemma_pow2_pos, lemma_pow2_strictly_increases, pow2};
use vstd::prelude::*;

verus! {

/// Numerator of the exact confidence after `count` verified samples, over
/// the denominator `pow2(count)`: `100 * (2^count - 1)`.
pub open spec fn confidence_numerator(count: nat) -> int {
    100 * (pow2(count) - 1)
}

/// `floor(confidence(count) * 10^7)`: the confidence percentage after
/// `count` verified samples, scaled by `10^7` and rounded down.
pub open spec fn spec_confidence_e7(count: nat) -> int {
    1_000_000_000 * (pow2(count) - 1) / pow2(count) as int
}

/// No samples verified means zero confidence.
pub proof fn lemma_confidence_at_zero()
    ensures
        confidence_numerator(0) == 0,
        spec_confidence_e7(0) == 0,
{
    vstd::arithmetic::power2::lemma2_to64();
}

/// Confidence is strictly increasing in the verified-sample count
/// (compared as fractions over the denominators `pow2`).
pub proof fn lemma_confidence_strictly_increasing(c1: nat, c2: nat)
    requires
        c1 < c2,
    ensures
        confidence_numerator(c1) * pow2(c2) < confidence_numerator(c2) * pow2(c1),
{
    lemma_pow2_pos(c1);
    lemma_pow2_pos(c2);
    lemma_pow2_strictly_increases(c1, c2);
    let p1 = pow2(c1) as int;
    let p2 = pow2(c2) as int;
    assert(100 * (p1 - 1) * p2 < 100 * (p2 - 1) * p1) by (nonlinear_arith)
        requires
            0 < p1 < p2,
    ;
}

/// Confidence never reaches 100 percent.
pub proof fn lemma_confidence_below_100(count: nat)
    ensures
        confidence_numerator(count) < 100 * pow2(count),
{
    lemma_pow2_pos(count);
}

proof fn lemma_pow2_exceeds(n: nat)
    ensures
        pow2(n) > n,
    decreases n,
{
    if n == 0 {
        vstd::arithmetic::power2::lemma2_to64();
    } else {
        lemma_pow2_exceeds((n - 1) as nat);
        assert(pow2(n) == 2 * pow2((n - 1) as nat)) by {
            vstd::arithmetic::power2::lemma_pow2_unfold(n);
        }
    }
}

/// Confidence approaches 100 percent: the shortfall `100 / 2^count` drops
/// below any positive rational bound `bound_num / bound_den` for some count.
pub proof fn lemma_confidence_approaches_100(bound_num: int, bound_den: int) -> (count: nat)
    requires
        bound_num > 0,
        bound_den > 0,
    ensures
        (100 * pow2(count) - confidence_numerator(count)) * bound_den < bound_num * pow2(count),
{
    let count = (100 * bound_den + 1) as nat;
    lemma_pow2_exceeds(count);
    let p = pow2(count) as int;
    assert(100 * p - confidence_numerator(count) == 100);
    assert(100 * bound_den < p);
    assert(p <= bound_num * p) by (nonlinear_arith)
        requires
            bound_num > 0,
            p > 0,
    ;
    count
}

/// The executable scale is the exact confidence: `spec_confidence_e7` is
/// the rational `confidence_numerator / pow2` scaled by `10^7` and rounded
/// down.
pub proof fn lemma_confidence_e7_is_scaled_confidence(count: nat)
    ensures
        spec_confidence_e7(count) == confidence_numerator(count) * 10_000_000 / pow2(count) as int,
{
    let p = pow2(count) as int;
    assert(100 * (p - 1) * 10_000_000 == 1_000_000_000 * (p - 1)) by (nonlinear_arith);
}

/// Confidence after `count` verified samples, scaled by `10^7`; for example
/// a result of `968_750_000` means 96.875 percent.
pub fn calculate_confidence(count: u32) -> (r: u64)
    ensures
        r == spec_confidence_e7(count as nat),
        r <= 999_999_999,
{
    if count >= 30 {
        proof {
            vstd::arithmetic::power2::lemma2_to64();
            if count > 30 {
                lemma_pow2_strictly_increases(30, count as nat);
            }
            let p = pow2(count as nat) as int;
            assert(p >= 0x40000000);
            assert(1_000_000_000 * (p - 1) == p * 999_999_999 + (p - 1_000_000_000))
                by (nonlinear_arith);
            lemma_fundamental_div_mod_converse(
                1_000_000_000 * (p - 1),
                p,
                999_999_999,
                p - 1_000_000_000,
            );
        }
        999_999_999
    } else {
        let mut p: u64 = 1;
        let mut i: u32 = 0;
        proof {
            vstd::arithmetic::power2::lemma2_to64();
        }
        while i < count
            invariant
                i <= count < 30,
                p == pow2(i as nat),
                p <= 0x40000000,
            decreases count - i,
        {
            proof {
                vstd::arithmetic::power2::lemma_pow2_unfold((i + 1) as nat);
                lemma_pow2_strictly_increases((i + 1) as nat, 30);
                vstd::arithmetic::power2::lemma2_to64();
            }
            p = p * 2;
            i = i + 1;
        }
        proof {
            vstd::arithmetic::power2::lemma2_to64();
            if (count as nat) < 29 {
                lemma_pow2_strictly_increases(count as nat, 29);
            }
            assert(p <= 536_870_912);
        }
        let q: u64 = 1_000_000_000 / p;
        let rem: u64 = 1_000_000_000 % p;
        let ceil: u64 = if rem > 0 {
            q + 1
        } else {
            q
        };
        proof {
            let pi = p as int;
            lemma_fundamental_div_mod(1_000_000_000, pi);
            assert(q <= 1_000_000_000) by (nonlinear_arith)
                requires
                    pi >= 1,
                    q == 1_000_000_000 as int / pi,
            ;
            assert(1 <= q && (rem > 0 ==> q < 1_000_000_000)) by (nonlinear_arith)
                requires
                    1_000_000_000 as int == pi * q + rem,
                    0 <= rem < pi,
                    1 <= pi <= 536_870_912,
            ;
            if rem > 0 {
                assert(1_000_000_000 * (pi - 1) == pi * (1_000_000_000 - q - 1) + (pi - rem))
                    by (nonlinear_arith)
                    requires
                        1_000_000_000 as int == pi * q + rem,
                ;
                lemma_fundamental_div_mod_converse(
                    1_000_000_000 * (pi - 1),
                    pi,
                    1_000_000_000 - q - 1,
                    pi - rem,
                );
            } else {
                assert(1_000_000_000 * (pi - 1) == pi * (1_000_000_000 - q) + 0)
                    by (nonlinear_arith)
                    requires
                        1_000_000_000 as int == pi * q + rem,
                        rem == 0,
                ;
                lemma_fundamental_div_mod_converse(
                    1_000_000_000 * (pi - 1),
                    pi,
                    1_000_000_000 - q,
                    0,
                );
            }
        }
        1_000_000_000 - ceil
    }
}

/// The packed serialised confidence: the block number shifted left by 32
/// bits, with the scaled confidence in the low 32 bits.
pub open spec fn pack_confidence(block: nat, factor_e7: nat) -> nat {
    block * 0x1_0000_0000 + factor_e7
}

/// Relies on `num::BigUint::from::<u128>` and `num::BigUint::to_str_radix`
/// with radix 10: the result is the decimal rendering of the value, without
/// leading zeroes and with `"0"` for zero.
#[verifier::external_body]
fn u128_to_decimal(v: u128) -> (s: String)
    ensures
        s@ == spec_decimal(v as nat),
{
    num::BigUint::from(v).to_str_radix(10)
}

/// The serialised confidence for `block` at scaled confidence `factor_e7`:
/// the decimal rendering of `block * 2^32 + factor_e7`.
pub fn serialised_confidence(block: u64, factor_e7: u64) -> (s: String)
    requires
        factor_e7 < 0x1_0000_0000,
    ensures
        s@ == spec_decimal(pack_confidence(block as nat, factor_e7 as nat)),
{
    let b: u128 = block as u128;
    let f: u128 = factor_e7 as u128;
    let packed: u128 = (b << 32) | f;
    proof {
        assert((b << 32) | f == b * 0x1_0000_0000 + f) by (bit_vector)
            requires
                b <= 0xFFFF_FFFF_FFFF_FFFFu128,
                f < 0x1_0000_0000u128,
        ;
    }
    u128_to_decimal(packed)
}

/// Round trip: reading the serialised decimal back and splitting at bit 32
/// recovers the block number and the scaled confidence exactly.
pub proof fn lemma_serialised_confidence_round_trip(block: u64, factor_e7: u64)
    requires
        factor_e7 < 0x1_0000_0000,
    ensures
        spec_decimal_value(spec_decimal(pack_confidence(block as nat, factor_e7 as nat)))
            == pack_confidence(block as nat, factor_e7 as nat),
        pack_confidence(block as nat, factor_e7 as nat) as int / 0x1_0000_0000 == block,
        pack_confidence(block as nat, factor_e7 as nat) as int % 0x1_0000_0000 == factor_e7,
{
    let packed = pack_confidence(block as nat, factor_e7 as nat);
    lemma_decimal_round_trip(packed);
    lemma_fundamental_div_mod_converse(
        packed as int,
        0x1_0000_0000,
        block as int,
        factor_e7 as int,
    );
}

} // verus!
