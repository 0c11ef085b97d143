use vstd::prelude::*;
use vstd::arithmetic::div_mod::lemma_div_denominator;
use crate::address::Address;
use crate::amount::{pow10, Amount, AMOUNT_SCALE};
use crate::uint::{u256_limit, U256};

verus! {

/// Decimal places of the native coin on every supported chain.
pub const NATIVE_DECIMALS: u32 = 18;

/// Ten to the power `e` as a 64-bit number, for exponents up to
/// nineteen.
fn pow10_u64_small(e: u32) -> (r: u64)
    requires
        e <= 19,
    ensures
        r == pow10(e as nat),
        r >= 1,
{
    proof {
        lemma_pow10_le19(e as nat);
    }
    let mut r: u64 = 1;
    let mut i: u32 = 0;
    while i < e
        invariant
            i <= e <= 19,
            r == pow10(i as nat),
        decreases e - i,
    {
        proof {
            lemma_pow10_le19(i as nat + 1);
        }
        r = r * 10;
        i = i + 1;
    }
    r
}

proof fn lemma_pow10_le19(e: nat)
    requires
        e <= 19,
    ensures
        1 <= pow10(e) <= 10_000_000_000_000_000_000,
    decreases 19 - e,
{
    assert(pow10(19nat) == 10_000_000_000_000_000_000) by {
        reveal_with_fuel(pow10, 20);
    }
    if e == 19 {
    } else {
        lemma_pow10_le19(e + 1);
    }
}

/// A raw balance in native base units as an amount: the scales agree,
/// so the value carries over, capped at what an amount can hold.
pub fn native_amount(wei: &U256) -> (r: Amount)
    ensures
        wei.val() <= u128::MAX ==> r.units == wei.val(),
        wei.val() > u128::MAX ==> r.units == u128::MAX,
{
    Amount { units: wei.to_u128_saturating() }
}

/// A whole-token count as an amount: the count scaled to eighteen
/// places, capped at what an amount can hold.
pub fn count_amount(v: &U256) -> (r: Amount)
    ensures
        v.val() * (AMOUNT_SCALE as nat) <= u128::MAX ==> r.units == v.val() * (
        AMOUNT_SCALE as nat),
        v.val() * (AMOUNT_SCALE as nat) > u128::MAX ==> r.units == u128::MAX,
{
    match v.mul_small_add(1_000_000_000_000_000_000u64, 0) {
        Some(scaled) => Amount { units: scaled.to_u128_saturating() },
        None => {
            proof {
                assert(u256_limit() > u128::MAX);
            }
            Amount { units: u128::MAX }
        },
    }
}

/// Whether a token's reported owner is the asked-for user, as an
/// amount: one when it is, zero when not.
pub fn ownership_amount(owner: &Address, user: &Address) -> (r: Amount)
    ensures
        owner@ == user@ ==> r.units == AMOUNT_SCALE,
        owner@ != user@ ==> r.units == 0,
{
    if owner.eq_addr(user) {
        Amount::one()
    } else {
        Amount::zero()
    }
}

/// A raw token balance scaled by the token's decimal places, as an
/// amount with eighteen places: multiplied up for fewer than eighteen
/// decimals, floored down for more, capped at what an amount can hold.
pub fn fungible_amount(raw: &U256, decimals: u32) -> (r: Amount)
    ensures
        decimals <= 18 ==> {
            let exact = raw.val() * pow10((18 - decimals) as nat);
            &&& exact <= u128::MAX ==> r.units == exact
            &&& exact > u128::MAX ==> r.units == u128::MAX
        },
        decimals > 18 ==> {
            let q = raw.val() / pow10((decimals - 18) as nat);
            &&& q <= u128::MAX ==> r.units == q
            &&& q > u128::MAX ==> r.units == u128::MAX
        },
{
    if decimals <= 18 {
        let f = pow10_u64_small(18 - decimals);
        match raw.mul_small_add(f, 0) {
            Some(scaled) => Amount { units: scaled.to_u128_saturating() },
            None => {
                proof {
                    assert(u256_limit() > u128::MAX);
                }
                Amount { units: u128::MAX }
            },
        }
    } else {
        let mut v = *raw;
        let mut e = decimals - 18;
        let ghost goal = decimals - 18;
        proof {
            vstd::arithmetic::div_mod::lemma_fundamental_div_mod_converse(
                raw.val() as int,
                1,
                raw.val() as int,
                0,
            );
        }
        while e > 19
            invariant
                e <= goal,
                v.val() == raw.val() / pow10((goal - e) as nat),
            decreases e,
        {
            let f = pow10_u64_small(19);
            proof {
                crate::amount::lemma_pow10_pos_pub((goal - e) as nat);
                lemma_pow10_le19(19);
                lemma_div_denominator(
                    raw.val() as int,
                    pow10((goal - e) as nat) as int,
                    pow10(19) as int,
                );
                crate::amount::lemma_pow10_adds_pub((goal - e) as nat, 19);
            }
            v = v.div_small(f);
            e = e - 19;
        }
        let f = pow10_u64_small(e);
        proof {
            crate::amount::lemma_pow10_pos_pub((goal - e) as nat);
            lemma_pow10_le19(e as nat);
            lemma_div_denominator(
                raw.val() as int,
                pow10((goal - e) as nat) as int,
                pow10(e as nat) as int,
            );
            crate::amount::lemma_pow10_adds_pub((goal - e) as nat, e as nat);
        }
        let q = v.div_small(f);
        Amount { units: q.to_u128_saturating() }
    }
}

} // verus!
