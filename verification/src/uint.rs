use vstd::prelude::*;
use vstd::arithmetic::div_mod::lemma_fundamental_div_mod;
use crate::amount::{all_digits, digits_val, is_digit};
use crate::address::{hex_val, is_hex_digit};

verus! {

/// An unsigned 256-bit integer held as four 64-bit words, least
/// significant first. Token identifiers and raw balances need this width.
#[derive(Clone, Copy, PartialEq, Eq, Structural, Debug)]
pub struct U256 {
    pub w0: u64,
    pub w1: u64,
    pub w2: u64,
    pub w3: u64,
}

/// The first value too large for 256 bits.
pub open spec fn u256_limit() -> nat {
    0x1_0000_0000_0000_0000_0000_0000_0000_0000_0000_0000_0000_0000_0000_0000_0000_0000nat
}

/// Value of a run of hexadecimal digits, most significant first.
pub open spec fn hexs_val(s: Seq<char>) -> nat
    decreases s.len(),
{
    if s.len() == 0 {
        0
    } else {
        hexs_val(s.drop_last()) * 16 + hex_val(s.last())
    }
}

pub open spec fn all_hex_digits(s: Seq<char>) -> bool {
    forall|i: int| 0 <= i < s.len() ==> is_hex_digit(#[trigger] s[i])
}

impl U256 {
    /// The number this value stands for.
    pub open spec fn val(self) -> nat {
        (self.w0 + 0x1_0000_0000_0000_0000 * (self.w1 + 0x1_0000_0000_0000_0000 * (self.w2
            + 0x1_0000_0000_0000_0000 * self.w3))) as nat
    }

    /// The zero value.
    pub fn zero() -> (r: U256)
        ensures
            r.val() == 0,
    {
        U256 { w0: 0, w1: 0, w2: 0, w3: 0 }
    }

    /// The value of a 64-bit number.
    pub fn from_u64(v: u64) -> (r: U256)
        ensures
            r.val() == v,
            r == (U256 { w0: v, w1: 0, w2: 0, w3: 0 }),
    {
        U256 { w0: v, w1: 0, w2: 0, w3: 0 }
    }

    /// The value of a 128-bit number.
    pub fn from_u128(v: u128) -> (r: U256)
        ensures
            r.val() == v,
    {
        let w0 = (v % 0x1_0000_0000_0000_0000) as u64;
        let w1 = (v / 0x1_0000_0000_0000_0000) as u64;
        proof {
            lemma_fundamental_div_mod(v as int, 0x1_0000_0000_0000_0000);
        }
        U256 { w0, w1, w2: 0, w3: 0 }
    }

    /// `self * m + a`, or nothing when the result needs more than 256 bits.
    ///
    /// This is the one primitive behind the decimal and hexadecimal parsers.
    pub fn mul_small_add(self, m: u64, a: u64) -> (r: Option<U256>)
        ensures
            match r {
                Some(v) => v.val() == self.val() * m + a,
                None => self.val() * m + a >= u256_limit(),
            },
    {
        proof {
            lemma_u64_mul_fits(self.w0 as int, m as int);
            lemma_u64_mul_fits(self.w1 as int, m as int);
            lemma_u64_mul_fits(self.w2 as int, m as int);
            lemma_u64_mul_fits(self.w3 as int, m as int);
        }
        let t0: u128 = (self.w0 as u128) * (m as u128) + (a as u128);
        let r0 = (t0 % 0x1_0000_0000_0000_0000) as u64;
        let c0 = (t0 / 0x1_0000_0000_0000_0000) as u64;
        let t1: u128 = (self.w1 as u128) * (m as u128) + (c0 as u128);
        let r1 = (t1 % 0x1_0000_0000_0000_0000) as u64;
        let c1 = (t1 / 0x1_0000_0000_0000_0000) as u64;
        let t2: u128 = (self.w2 as u128) * (m as u128) + (c1 as u128);
        let r2 = (t2 % 0x1_0000_0000_0000_0000) as u64;
        let c2 = (t2 / 0x1_0000_0000_0000_0000) as u64;
        let t3: u128 = (self.w3 as u128) * (m as u128) + (c2 as u128);
        let r3 = (t3 % 0x1_0000_0000_0000_0000) as u64;
        let c3 = (t3 / 0x1_0000_0000_0000_0000) as u64;
        proof {
            lemma_fundamental_div_mod(t0 as int, 0x1_0000_0000_0000_0000);
            lemma_fundamental_div_mod(t1 as int, 0x1_0000_0000_0000_0000);
            lemma_fundamental_div_mod(t2 as int, 0x1_0000_0000_0000_0000);
            lemma_fundamental_div_mod(t3 as int, 0x1_0000_0000_0000_0000);
            lemma_mul_small_chain(
                self.w0 as int, self.w1 as int, self.w2 as int, self.w3 as int,
                m as int, a as int,
                r0 as int, r1 as int, r2 as int, r3 as int,
                c0 as int, c1 as int, c2 as int, c3 as int,
            );
        }
        let v = U256 { w0: r0, w1: r1, w2: r2, w3: r3 };
        if c3 != 0 {
            proof {
                lemma_val_bound(v);
            }
            None
        } else {
            Some(v)
        }
    }

    /// The sum of two 256-bit values, or nothing on overflow.
    pub fn checked_add(self, other: U256) -> (r: Option<U256>)
        ensures
            match r {
                Some(v) => v.val() == self.val() + other.val(),
                None => self.val() + other.val() >= u256_limit(),
            },
    {
        let t0: u128 = (self.w0 as u128) + (other.w0 as u128);
        let r0 = (t0 % 0x1_0000_0000_0000_0000) as u64;
        let c0 = (t0 / 0x1_0000_0000_0000_0000) as u64;
        let t1: u128 = (self.w1 as u128) + (other.w1 as u128) + (c0 as u128);
        let r1 = (t1 % 0x1_0000_0000_0000_0000) as u64;
        let c1 = (t1 / 0x1_0000_0000_0000_0000) as u64;
        let t2: u128 = (self.w2 as u128) + (other.w2 as u128) + (c1 as u128);
        let r2 = (t2 % 0x1_0000_0000_0000_0000) as u64;
        let c2 = (t2 / 0x1_0000_0000_0000_0000) as u64;
        let t3: u128 = (self.w3 as u128) + (other.w3 as u128) + (c2 as u128);
        let r3 = (t3 % 0x1_0000_0000_0000_0000) as u64;
        let c3 = (t3 / 0x1_0000_0000_0000_0000) as u64;
        proof {
            lemma_fundamental_div_mod(t0 as int, 0x1_0000_0000_0000_0000);
            lemma_fundamental_div_mod(t1 as int, 0x1_0000_0000_0000_0000);
            lemma_fundamental_div_mod(t2 as int, 0x1_0000_0000_0000_0000);
            lemma_fundamental_div_mod(t3 as int, 0x1_0000_0000_0000_0000);
            lemma_add_chain(
                self.w0 as int, self.w1 as int, self.w2 as int, self.w3 as int,
                other.w0 as int, other.w1 as int, other.w2 as int, other.w3 as int,
                r0 as int, r1 as int, r2 as int, r3 as int,
                c0 as int, c1 as int, c2 as int, c3 as int,
            );
        }
        let v = U256 { w0: r0, w1: r1, w2: r2, w3: r3 };
        if c3 != 0 {
            proof {
                lemma_val_bound(v);
            }
            None
        } else {
            Some(v)
        }
    }

    /// `self / d`, flooring, for a nonzero divisor up to 64 bits.
    pub fn div_small(self, d: u64) -> (r: U256)
        requires
            d > 0,
        ensures
            r.val() == self.val() / (d as nat),
    {
        let dd: u128 = d as u128;
        let t3: u128 = self.w3 as u128;
        let q3 = (t3 / dd) as u64;
        let r3 = (t3 % dd) as u64;
        let t2: u128 = (r3 as u128) * 0x1_0000_0000_0000_0000 + (self.w2 as u128);
        proof {
            lemma_rem_step_fits(r3 as int, self.w2 as int, d as int);
        }
        let q2 = (t2 / dd) as u64;
        let r2 = (t2 % dd) as u64;
        let t1: u128 = (r2 as u128) * 0x1_0000_0000_0000_0000 + (self.w1 as u128);
        proof {
            lemma_rem_step_fits(r2 as int, self.w1 as int, d as int);
        }
        let q1 = (t1 / dd) as u64;
        let r1 = (t1 % dd) as u64;
        let t0: u128 = (r1 as u128) * 0x1_0000_0000_0000_0000 + (self.w0 as u128);
        proof {
            lemma_rem_step_fits(r1 as int, self.w0 as int, d as int);
        }
        let q0 = (t0 / dd) as u64;
        let r0 = (t0 % dd) as u64;
        let q = U256 { w0: q0, w1: q1, w2: q2, w3: q3 };
        proof {
            lemma_fundamental_div_mod(t3 as int, d as int);
            lemma_fundamental_div_mod(t2 as int, d as int);
            lemma_fundamental_div_mod(t1 as int, d as int);
            lemma_fundamental_div_mod(t0 as int, d as int);
            lemma_div_chain(
                self.w0 as int, self.w1 as int, self.w2 as int, self.w3 as int,
                d as int,
                q0 as int, q1 as int, q2 as int, q3 as int,
                r0 as int, r1 as int, r2 as int, r3 as int,
            );
            vstd::arithmetic::div_mod::lemma_fundamental_div_mod_converse(
                self.val() as int,
                d as int,
                q.val() as int,
                r0 as int,
            );
        }
        q
    }

    /// This value as a `u128`, capped at `u128::MAX` when it is wider.
    pub fn to_u128_saturating(self) -> (r: u128)
        ensures
            self.val() <= u128::MAX ==> r == self.val(),
            self.val() > u128::MAX ==> r == u128::MAX,
    {
        if self.w2 == 0 && self.w3 == 0 {
            (self.w0 as u128) + (self.w1 as u128) * 0x1_0000_0000_0000_0000
        } else {
            proof {
                lemma_val_wide(self);
            }
            u128::MAX
        }
    }

    /// Parses a run of decimal digits into a 256-bit value.
    ///
    /// Yields the number exactly when the text is nonempty, all digits, and
    /// the value fits in 256 bits; yields nothing otherwise.
    pub fn from_dec_str(s: &str) -> (r: Option<U256>)
        ensures
            r is Some <==> (s@.len() > 0 && all_digits(s@) && digits_val(s@) < u256_limit()),
            r is Some ==> r->0.val() == digits_val(s@),
    {
        let n = s.unicode_len();
        if n == 0 {
            return None;
        }
        let mut acc = U256::zero();
        let mut i: usize = 0;
        while i < n
            invariant
                i <= n == s@.len(),
                forall|j: int| 0 <= j < i ==> is_digit(#[trigger] s@[j]),
                acc.val() == digits_val(s@.take(i as int)),
                acc.val() < u256_limit(),
            decreases n - i,
        {
            let c = s.get_char(i);
            let v = c as u32;
            if v < 48 || v > 57 {
                return None;
            }
            proof {
                lemma_digits_take_step(s@, i as int);
            }
            acc = match acc.mul_small_add(10, (v - 48) as u64) {
                Some(a) => a,
                None => {
                    proof {
                        if all_digits(s@) {
                            lemma_digits_val_run_monotone(s@, i as int + 1);
                        }
                    }
                    return None;
                },
            };
            i = i + 1;
        }
        assert(s@.take(n as int) =~= s@);
        Some(acc)
    }

    /// Parses a run of hexadecimal digits, after an optional `0x` or `0X`
    /// prefix, into a 256-bit value.
    ///
    /// Yields the number exactly when at least one digit follows the prefix,
    /// every character after it is a hex digit, and the value fits.
    pub fn from_hex_str(s: &str) -> (r: Option<U256>)
        ensures
            ({
                let p = crate::address::addr_digits_start(s@);
                let digits = s@.skip(p);
                &&& r is Some <==> (digits.len() > 0 && all_hex_digits(digits) && hexs_val(
                    digits) < u256_limit())
                &&& r is Some ==> r->0.val() == hexs_val(digits)
            }),
    {
        let n = s.unicode_len();
        let p: usize = if n >= 2 && s.get_char(0) == '0' && {
            let c = s.get_char(1);
            c == 'x' || c == 'X'
        } {
            2
        } else {
            0
        };
        assert(p == crate::address::addr_digits_start(s@));
        let ghost digits = s@.skip(p as int);
        if n == p {
            return None;
        }
        let mut acc = U256::zero();
        let mut i: usize = p;
        assert(digits.take(0) =~= Seq::<char>::empty());
        while i < n
            invariant
                p <= i <= n == s@.len(),
                p == crate::address::addr_digits_start(s@),
                digits == s@.skip(p as int),
                forall|j: int| 0 <= j < i - p ==> is_hex_digit(#[trigger] digits[j]),
                acc.val() == hexs_val(digits.take(i - p)),
                acc.val() < u256_limit(),
            decreases n - i,
        {
            let d = match crate::address::hex_digit_val(s.get_char(i)) {
                Some(d) => d,
                None => {
                    assert(!all_hex_digits(digits)) by {
                        assert(digits[i - p] == s@[i as int]);
                        assert(!is_hex_digit(digits[i - p]));
                    }
                    return None;
                },
            };
            assert(digits[i - p] == s@[i as int]);
            proof {
                lemma_hexs_take_step(digits, i - p);
            }
            acc = match acc.mul_small_add(16, d as u64) {
                Some(a) => a,
                None => {
                    proof {
                        if all_hex_digits(digits) {
                            lemma_hexs_val_run_monotone(digits, i - p + 1);
                        }
                    }
                    return None;
                },
            };
            i = i + 1;
        }
        assert(digits.take(n - p) =~= digits);
        Some(acc)
    }
}

/// A remainder below the divisor, shifted up a word, stays below what a
/// division step can take.
proof fn lemma_rem_step_fits(r: int, w: int, d: int)
    requires
        0 < d < 0x1_0000_0000_0000_0000,
        0 <= r < d,
        0 <= w < 0x1_0000_0000_0000_0000,
    ensures
        r * 0x1_0000_0000_0000_0000 + w < d * 0x1_0000_0000_0000_0000,
        r * 0x1_0000_0000_0000_0000 + w < 0x1_0000_0000_0000_0000_0000_0000_0000_0000,
        (r * 0x1_0000_0000_0000_0000 + w) / d < 0x1_0000_0000_0000_0000,
{
    assert(r * 0x1_0000_0000_0000_0000 + w < d * 0x1_0000_0000_0000_0000) by (nonlinear_arith)
        requires
            0 <= r <= d - 1,
            0 <= w < 0x1_0000_0000_0000_0000,
    ;
    assert(d * 0x1_0000_0000_0000_0000
        <= 0x1_0000_0000_0000_0000_0000_0000_0000_0000) by (nonlinear_arith)
        requires d < 0x1_0000_0000_0000_0000,
    ;
    assert((r * 0x1_0000_0000_0000_0000 + w) / d < 0x1_0000_0000_0000_0000) by (nonlinear_arith)
        requires
            0 < d,
            r * 0x1_0000_0000_0000_0000 + w < d * 0x1_0000_0000_0000_0000,
            r * 0x1_0000_0000_0000_0000 + w >= 0,
    ;
}

/// The word-by-word long-division chain reassembles the dividend.
proof fn lemma_div_chain(
    w0: int, w1: int, w2: int, w3: int,
    d: int,
    q0: int, q1: int, q2: int, q3: int,
    r0: int, r1: int, r2: int, r3: int,
)
    requires
        w3 == d * q3 + r3,
        r3 * 0x1_0000_0000_0000_0000 + w2 == d * q2 + r2,
        r2 * 0x1_0000_0000_0000_0000 + w1 == d * q1 + r1,
        r1 * 0x1_0000_0000_0000_0000 + w0 == d * q0 + r0,
    ensures
        w0 + 0x1_0000_0000_0000_0000 * (w1 + 0x1_0000_0000_0000_0000 * (w2
            + 0x1_0000_0000_0000_0000 * w3)) == (q0 + 0x1_0000_0000_0000_0000 * (q1
            + 0x1_0000_0000_0000_0000 * (q2 + 0x1_0000_0000_0000_0000 * q3))) * d + r0,
{
    assert(w0 + 0x1_0000_0000_0000_0000 * (w1 + 0x1_0000_0000_0000_0000 * (w2
        + 0x1_0000_0000_0000_0000 * w3)) == (q0 + 0x1_0000_0000_0000_0000 * (q1
        + 0x1_0000_0000_0000_0000 * (q2 + 0x1_0000_0000_0000_0000 * q3))) * d + r0)
        by (nonlinear_arith)
        requires
            w3 == d * q3 + r3,
            r3 * 0x1_0000_0000_0000_0000 + w2 == d * q2 + r2,
            r2 * 0x1_0000_0000_0000_0000 + w1 == d * q1 + r1,
            r1 * 0x1_0000_0000_0000_0000 + w0 == d * q0 + r0,
    ;
}

/// Sixteen to the power `n`.
pub open spec fn pow16(n: nat) -> nat
    decreases n,
{
    if n == 0 {
        1
    } else {
        16 * pow16((n - 1) as nat)
    }
}

/// A run of hex digits writes a value below sixteen to its length.
pub proof fn lemma_hexs_val_bound(s: Seq<char>)
    requires
        all_hex_digits(s),
    ensures
        hexs_val(s) < pow16(s.len()),
    decreases s.len(),
{
    if s.len() == 0 {
    } else {
        assert(all_hex_digits(s.drop_last())) by {
            assert(forall|i: int|
                0 <= i < s.len() - 1 ==> s.drop_last()[i] == #[trigger] s[i]);
        }
        lemma_hexs_val_bound(s.drop_last());
        assert(hex_val(s.last()) <= 15);
        assert(hexs_val(s.drop_last()) * 16 <= (pow16((s.len() - 1) as nat) - 1) * 16)
            by (nonlinear_arith)
            requires hexs_val(s.drop_last()) <= pow16((s.len() - 1) as nat) - 1,
        ;
    }
}

/// Sixty-four hex digits always fit 256 bits.
pub proof fn lemma_pow16_64()
    ensures
        pow16(64) == u256_limit(),
{
    reveal_with_fuel(pow16, 65);
}

proof fn lemma_u64_mul_fits(x: int, y: int)
    requires
        0 <= x < 0x1_0000_0000_0000_0000,
        0 <= y < 0x1_0000_0000_0000_0000,
    ensures
        x * y <= (0x1_0000_0000_0000_0000 - 1) * (0x1_0000_0000_0000_0000 - 1),
{
    assert(x * y <= (0x1_0000_0000_0000_0000 - 1) * (0x1_0000_0000_0000_0000 - 1))
        by (nonlinear_arith)
        requires
            0 <= x <= 0x1_0000_0000_0000_0000 - 1,
            0 <= y <= 0x1_0000_0000_0000_0000 - 1,
    ;
}

proof fn lemma_val_bound(v: U256)
    ensures
        v.val() < u256_limit(),
{
    assert(v.val()
        < 0x1_0000_0000_0000_0000_0000_0000_0000_0000_0000_0000_0000_0000_0000_0000_0000_0000int)
        by (nonlinear_arith)
        requires
            v.w0 < 0x1_0000_0000_0000_0000 && v.w1 < 0x1_0000_0000_0000_0000 && v.w2
                < 0x1_0000_0000_0000_0000 && v.w3 < 0x1_0000_0000_0000_0000,
            v.w0 >= 0 && v.w1 >= 0 && v.w2 >= 0 && v.w3 >= 0,
            v.val() == v.w0 + 0x1_0000_0000_0000_0000 * (v.w1 + 0x1_0000_0000_0000_0000 * (v.w2
                + 0x1_0000_0000_0000_0000 * v.w3)),
    ;
}

proof fn lemma_val_wide(v: U256)
    requires
        v.w2 != 0 || v.w3 != 0,
    ensures
        v.val() > u128::MAX,
{
    assert(v.val() >= 0x1_0000_0000_0000_0000_0000_0000_0000_0000int) by (nonlinear_arith)
        requires
            v.w2 >= 1 || v.w3 >= 1,
            v.w0 >= 0 && v.w1 >= 0 && v.w2 >= 0 && v.w3 >= 0,
            v.val() == v.w0 + 0x1_0000_0000_0000_0000 * (v.w1 + 0x1_0000_0000_0000_0000 * (v.w2
                + 0x1_0000_0000_0000_0000 * v.w3)),
    ;
}

proof fn lemma_mul_small_chain(
    w0: int, w1: int, w2: int, w3: int,
    m: int, a: int,
    r0: int, r1: int, r2: int, r3: int,
    c0: int, c1: int, c2: int, c3: int,
)
    requires
        w0 * m + a == c0 * 0x1_0000_0000_0000_0000 + r0,
        w1 * m + c0 == c1 * 0x1_0000_0000_0000_0000 + r1,
        w2 * m + c1 == c2 * 0x1_0000_0000_0000_0000 + r2,
        w3 * m + c2 == c3 * 0x1_0000_0000_0000_0000 + r3,
        0 <= r0 < 0x1_0000_0000_0000_0000,
        0 <= r1 < 0x1_0000_0000_0000_0000,
        0 <= r2 < 0x1_0000_0000_0000_0000,
        0 <= r3 < 0x1_0000_0000_0000_0000,
        0 <= c3,
    ensures
        (w0 + 0x1_0000_0000_0000_0000 * (w1 + 0x1_0000_0000_0000_0000 * (w2
            + 0x1_0000_0000_0000_0000 * w3))) * m + a == r0 + 0x1_0000_0000_0000_0000 * (r1
            + 0x1_0000_0000_0000_0000 * (r2 + 0x1_0000_0000_0000_0000 * r3)) + u256_limit() * c3,
{
    assert((w0 + 0x1_0000_0000_0000_0000 * (w1 + 0x1_0000_0000_0000_0000 * (w2
        + 0x1_0000_0000_0000_0000 * w3))) * m + a == r0 + 0x1_0000_0000_0000_0000 * (r1
        + 0x1_0000_0000_0000_0000 * (r2 + 0x1_0000_0000_0000_0000 * r3))
        + 0x1_0000_0000_0000_0000_0000_0000_0000_0000_0000_0000_0000_0000_0000_0000_0000_0000int
        * c3) by (nonlinear_arith)
        requires
            w0 * m + a == c0 * 0x1_0000_0000_0000_0000 + r0,
            w1 * m + c0 == c1 * 0x1_0000_0000_0000_0000 + r1,
            w2 * m + c1 == c2 * 0x1_0000_0000_0000_0000 + r2,
            w3 * m + c2 == c3 * 0x1_0000_0000_0000_0000 + r3,
    ;
}

proof fn lemma_add_chain(
    x0: int, x1: int, x2: int, x3: int,
    y0: int, y1: int, y2: int, y3: int,
    r0: int, r1: int, r2: int, r3: int,
    c0: int, c1: int, c2: int, c3: int,
)
    requires
        x0 + y0 == c0 * 0x1_0000_0000_0000_0000 + r0,
        x1 + y1 + c0 == c1 * 0x1_0000_0000_0000_0000 + r1,
        x2 + y2 + c1 == c2 * 0x1_0000_0000_0000_0000 + r2,
        x3 + y3 + c2 == c3 * 0x1_0000_0000_0000_0000 + r3,
        0 <= r0 < 0x1_0000_0000_0000_0000,
        0 <= r1 < 0x1_0000_0000_0000_0000,
        0 <= r2 < 0x1_0000_0000_0000_0000,
        0 <= r3 < 0x1_0000_0000_0000_0000,
        0 <= c3,
    ensures
        (x0 + 0x1_0000_0000_0000_0000 * (x1 + 0x1_0000_0000_0000_0000 * (x2
            + 0x1_0000_0000_0000_0000 * x3))) + (y0 + 0x1_0000_0000_0000_0000 * (y1
            + 0x1_0000_0000_0000_0000 * (y2 + 0x1_0000_0000_0000_0000 * y3))) == r0
            + 0x1_0000_0000_0000_0000 * (r1 + 0x1_0000_0000_0000_0000 * (r2
            + 0x1_0000_0000_0000_0000 * r3)) + u256_limit() * c3,
{
    assert((x0 + 0x1_0000_0000_0000_0000 * (x1 + 0x1_0000_0000_0000_0000 * (x2
        + 0x1_0000_0000_0000_0000 * x3))) + (y0 + 0x1_0000_0000_0000_0000 * (y1
        + 0x1_0000_0000_0000_0000 * (y2 + 0x1_0000_0000_0000_0000 * y3))) == r0
        + 0x1_0000_0000_0000_0000 * (r1 + 0x1_0000_0000_0000_0000 * (r2
        + 0x1_0000_0000_0000_0000 * r3))
        + 0x1_0000_0000_0000_0000_0000_0000_0000_0000_0000_0000_0000_0000_0000_0000_0000_0000int
        * c3) by (nonlinear_arith)
        requires
            x0 + y0 == c0 * 0x1_0000_0000_0000_0000 + r0,
            x1 + y1 + c0 == c1 * 0x1_0000_0000_0000_0000 + r1,
            x2 + y2 + c1 == c2 * 0x1_0000_0000_0000_0000 + r2,
            x3 + y3 + c2 == c3 * 0x1_0000_0000_0000_0000 + r3,
    ;
}

proof fn lemma_digits_take_step(s: Seq<char>, i: int)
    requires
        0 <= i < s.len(),
    ensures
        digits_val(s.take(i + 1)) == digits_val(s.take(i)) * 10 + crate::amount::digit_val(s[i]),
{
    assert(s.take(i + 1).drop_last() =~= s.take(i));
    assert(s.take(i + 1).last() == s[i]);
}

proof fn lemma_hexs_take_step(s: Seq<char>, i: int)
    requires
        0 <= i < s.len(),
    ensures
        hexs_val(s.take(i + 1)) == hexs_val(s.take(i)) * 16 + hex_val(s[i]),
{
    assert(s.take(i + 1).drop_last() =~= s.take(i));
    assert(s.take(i + 1).last() == s[i]);
}

proof fn lemma_digits_val_run_monotone(s: Seq<char>, i: int)
    requires
        0 <= i <= s.len(),
        all_digits(s),
    ensures
        digits_val(s.take(i)) <= digits_val(s),
    decreases s.len() - i,
{
    if i == s.len() {
        assert(s.take(i) =~= s);
    } else {
        lemma_digits_take_step(s, i);
        lemma_digits_val_run_monotone(s, i + 1);
    }
}

proof fn lemma_hexs_val_run_monotone(s: Seq<char>, i: int)
    requires
        0 <= i <= s.len(),
        all_hex_digits(s),
    ensures
        hexs_val(s.take(i)) <= hexs_val(s),
    decreases s.len() - i,
{
    if i == s.len() {
        assert(s.take(i) =~= s);
    } else {
        lemma_hexs_take_step(s, i);
        lemma_hexs_val_run_monotone(s, i + 1);
    }
}

} // verus!
