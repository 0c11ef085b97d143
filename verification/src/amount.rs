use vstd::prelude::*;

verus! {

/// Scale of all token amounts held by this library: amounts are fixed-point
/// values with eighteen decimal places, stored as integer multiples of
/// 10^-18 in a `u128`. One whole coin is `AMOUNT_SCALE` units.
pub const AMOUNT_SCALE: u128 = 1_000_000_000_000_000_000;

/// Number of decimal places carried by an `Amount`.
pub const AMOUNT_DECIMALS: u32 = 18;

/// A token or coin amount with eighteen decimal places of precision.
///
/// The value represented is `units / 10^18`.
#[derive(Clone, Copy, PartialEq, Eq, Structural, Debug)]
pub struct Amount {
    pub units: u128,
}

pub open spec fn pow10(n: nat) -> nat
    decreases n,
{
    if n == 0 {
        1
    } else {
        10 * pow10((n - 1) as nat)
    }
}

pub open spec fn is_digit(c: char) -> bool {
    48 <= c as u32 <= 57
}

pub open spec fn digit_val(c: char) -> nat {
    (c as u32 - 48) as nat
}

/// Value of a run of decimal digits, most significant first.
pub open spec fn digits_val(s: Seq<char>) -> nat
    decreases s.len(),
{
    if s.len() == 0 {
        0
    } else {
        digits_val(s.drop_last()) * 10 + digit_val(s.last())
    }
}

pub open spec fn all_digits(s: Seq<char>) -> bool {
    forall|i: int| 0 <= i < s.len() ==> is_digit(#[trigger] s[i])
}

/// How many leading fraction digits are significant at eighteen decimal
/// places; anything further is truncated.
pub open spec fn frac_len(s: Seq<char>) -> nat {
    if s.len() <= 18 {
        s.len()
    } else {
        18
    }
}

/// Value in `10^-18` units of the fraction written by a digit run.
pub open spec fn frac_units(s: Seq<char>) -> nat {
    digits_val(s.take(frac_len(s) as int)) * pow10((18 - frac_len(s)) as nat)
}

/// Index of the first `'.'` in `s`, or `-1` if there is none.
pub open spec fn first_dot(s: Seq<char>) -> int
    decreases s.len(),
{
    if s.len() == 0 {
        -1
    } else if s[0] == '.' {
        0
    } else {
        let r = first_dot(s.drop_first());
        if r < 0 {
            -1
        } else {
            r + 1
        }
    }
}

/// The decimal grammar accepted for an amount: a run of digits, with one
/// optional dot splitting integer part from fraction, and at least one
/// character besides a lone dot.
///
/// Only this plain spelling is read. A sign, an exponent mark, or any
/// other spelling of a number is not an amount text, so a bound written
/// that way reads as no bound at all, exactly as an unreadable bound
/// always has.
pub open spec fn amount_text_wf(s: Seq<char>) -> bool {
    let d = first_dot(s);
    if d < 0 {
        s.len() > 0 && all_digits(s)
    } else {
        s.len() > 1 && all_digits(s.take(d)) && all_digits(s.skip(d + 1))
    }
}

/// Units written by a well-formed amount text: the integer part scaled by
/// 10^18 plus the fraction truncated to eighteen places.
pub open spec fn amount_units_nat(s: Seq<char>) -> nat {
    let d = first_dot(s);
    if d < 0 {
        digits_val(s) * pow10(18)
    } else {
        digits_val(s.take(d)) * pow10(18) + frac_units(s.skip(d + 1))
    }
}

/// What parsing an amount text yields: the fixed-point value when the text
/// is well formed and fits, nothing otherwise.
pub open spec fn spec_parse_amount(s: Seq<char>) -> Option<Amount> {
    if amount_text_wf(s) && amount_units_nat(s) <= u128::MAX {
        Some(Amount { units: amount_units_nat(s) as u128 })
    } else {
        None
    }
}

pub proof fn lemma_pow10_adds_pub(a: nat, b: nat)
    ensures
        pow10(a + b) == pow10(a) * pow10(b),
    decreases a,
{
    if a == 0 {
        assert(pow10(0 + b) == pow10(b));
        assert(pow10(0nat) == 1);
    } else {
        let a1 = (a - 1) as nat;
        lemma_pow10_adds_pub(a1, b);
        assert(a1 + b == (a + b - 1) as nat);
        assert(pow10(a + b) == 10 * pow10(a1 + b));
        assert(pow10(a) == 10 * pow10(a1));
        assert(pow10(a) * pow10(b) == 10 * (pow10(a1) * pow10(b))) by (nonlinear_arith)
            requires pow10(a) == 10 * pow10(a1),
        ;
        assert(10 * pow10(a1 + b) == 10 * (pow10(a1) * pow10(b)));
    }
}

proof fn lemma_digits_val_bound(s: Seq<char>)
    requires
        all_digits(s),
    ensures
        digits_val(s) < pow10(s.len()),
    decreases s.len(),
{
    if s.len() == 0 {
    } else {
        assert(all_digits(s.drop_last())) by {
            assert(forall|i: int|
                0 <= i < s.len() - 1 ==> s.drop_last()[i] == #[trigger] s[i]);
        }
        lemma_digits_val_bound(s.drop_last());
        assert(digit_val(s.last()) <= 9);
        assert(digits_val(s.drop_last()) * 10 <= (pow10((s.len() - 1) as nat) - 1) * 10)
            by (nonlinear_arith)
            requires digits_val(s.drop_last()) <= pow10((s.len() - 1) as nat) - 1,
        ;
    }
}

proof fn lemma_digits_val_take_step(s: Seq<char>, i: int)
    requires
        0 <= i < s.len(),
    ensures
        digits_val(s.take(i + 1)) == digits_val(s.take(i)) * 10 + digit_val(s[i]),
{
    assert(s.take(i + 1).drop_last() =~= s.take(i));
    assert(s.take(i + 1).last() == s[i]);
}

proof fn lemma_first_dot_none(s: Seq<char>)
    requires
        forall|j: int| 0 <= j < s.len() ==> s[j] != '.',
    ensures
        first_dot(s) == -1,
    decreases s.len(),
{
    if s.len() == 0 {
    } else {
        assert(forall|j: int|
            0 <= j < s.len() - 1 ==> s.drop_first()[j] == #[trigger] s[j + 1]);
        lemma_first_dot_none(s.drop_first());
    }
}

proof fn lemma_first_dot_at(s: Seq<char>, i: int)
    requires
        0 <= i < s.len(),
        s[i] == '.',
        forall|j: int| 0 <= j < i ==> s[j] != '.',
    ensures
        first_dot(s) == i,
    decreases s.len(),
{
    if i == 0 {
    } else {
        assert(forall|j: int|
            0 <= j < s.len() - 1 ==> s.drop_first()[j] == #[trigger] s[j + 1]);
        assert(s.drop_first()[i - 1] == '.');
        lemma_first_dot_at(s.drop_first(), i - 1);
    }
}

/// Index of the first `'.'` of `s`, or its length when there is none.
fn find_first_dot(s: &str) -> (r: usize)
    ensures
        r <= s@.len(),
        forall|j: int| 0 <= j < r ==> s@[j] != '.',
        r < s@.len() ==> s@[r as int] == '.',
{
    let n = s.unicode_len();
    let mut i: usize = 0;
    while i < n
        invariant
            i <= n == s@.len(),
            forall|j: int| 0 <= j < i ==> s@[j] != '.',
        decreases n - i,
    {
        if s.get_char(i) == '.' {
            return i;
        }
        i = i + 1;
    }
    n
}

/// Whether every character of `s` between `from` and `to` is a decimal digit.
fn check_digits(s: &str, from: usize, to: usize) -> (r: bool)
    requires
        from <= to <= s@.len(),
    ensures
        r == all_digits(s@.subrange(from as int, to as int)),
{
    let mut i: usize = from;
    while i < to
        invariant
            from <= i <= to <= s@.len(),
            forall|j: int| from <= j < i ==> is_digit(#[trigger] s@[j]),
        decreases to - i,
    {
        let c = s.get_char(i);
        let v = c as u32;
        if v < 48 || v > 57 {
            assert(!is_digit(s@.subrange(from as int, to as int)[i - from]));
            return false;
        }
        i = i + 1;
    }
    assert(forall|j: int|
        0 <= j < to - from ==> s@.subrange(from as int, to as int)[j] == s@[j + from]);
    true
}

/// Value of the digit run of `s` between `from` and `to`, or nothing when it
/// exceeds `u128::MAX`.
fn digit_run_value(s: &str, from: usize, to: usize) -> (r: Option<u128>)
    requires
        from <= to <= s@.len(),
        all_digits(s@.subrange(from as int, to as int)),
    ensures
        match r {
            Some(v) => v == digits_val(s@.subrange(from as int, to as int)),
            None => digits_val(s@.subrange(from as int, to as int)) > u128::MAX,
        },
{
    let ghost run = s@.subrange(from as int, to as int);
    let mut acc: u128 = 0;
    let mut i: usize = from;
    while i < to
        invariant
            from <= i <= to <= s@.len(),
            all_digits(run),
            run == s@.subrange(from as int, to as int),
            acc == digits_val(run.take(i - from)),
        decreases to - i,
    {
        let c = s.get_char(i);
        let v = c as u32;
        assert(run[i - from] == s@[i as int]);
        assert(is_digit(s@[i as int]));
        let d = (v - 48) as u128;
        let acc10 = match acc.checked_mul(10) {
            Some(a) => a,
            None => {
                proof {
                    lemma_digits_val_take_step(run, i - from);
                    lemma_digits_val_monotone(run, i - from + 1);
                }
                return None;
            },
        };
        let sum = match acc10.checked_add(d) {
            Some(a) => a,
            None => {
                proof {
                    lemma_digits_val_take_step(run, i - from);
                    lemma_digits_val_monotone(run, i - from + 1);
                }
                return None;
            },
        };
        proof {
            lemma_digits_val_take_step(run, i - from);
        }
        acc = sum;
        i = i + 1;
    }
    assert(run.take(to - from) =~= run);
    Some(acc)
}

proof fn lemma_digits_val_monotone(s: Seq<char>, i: int)
    requires
        all_digits(s),
        0 <= i <= s.len(),
    ensures
        digits_val(s.take(i)) <= digits_val(s),
    decreases s.len() - i,
{
    if i == s.len() {
        assert(s.take(i) =~= s);
    } else {
        lemma_digits_val_take_step(s, i);
        lemma_digits_val_monotone(s, i + 1);
    }
}

/// Ten to the power `e`, for exponents that fit a `u128`.
fn pow10_u128(e: u32) -> (r: u128)
    requires
        e <= 38,
    ensures
        r == pow10(e as nat),
        r >= 1,
{
    proof {
        lemma_pow10_pos_pub(e as nat);
    }
    let mut r: u128 = 1;
    let mut i: u32 = 0;
    while i < e
        invariant
            i <= e <= 38,
            r == pow10(i as nat),
        decreases e - i,
    {
        proof {
            lemma_pow10_adds_pub(i as nat, 1);
            lemma_pow10_bound38(i as nat);
        }
        r = r * 10;
        i = i + 1;
    }
    r
}

proof fn lemma_pow10_bound38(i: nat)
    requires
        i <= 37,
    ensures
        pow10(i) * 10 <= u128::MAX,
{
    lemma_pow10_monotone(i, 37);
    assert(pow10(37) == 10_000_000_000_000_000_000_000_000_000_000_000_000) by {
        reveal_with_fuel(pow10, 38);
    }
    assert(pow10(i) * 10 <= pow10(37) * 10) by (nonlinear_arith)
        requires pow10(i) <= pow10(37),
    ;
}

pub proof fn lemma_pow10_pos_pub(n: nat)
    ensures
        pow10(n) >= 1,
    decreases n,
{
    if n == 0 {
    } else {
        lemma_pow10_pos_pub((n - 1) as nat);
    }
}

proof fn lemma_pow10_monotone(a: nat, b: nat)
    requires
        a <= b,
    ensures
        pow10(a) <= pow10(b),
        pow10(a) >= 1,
    decreases b,
{
    lemma_pow10_pos_pub(a);
    if a == b {
    } else {
        lemma_pow10_monotone(a, (b - 1) as nat);
    }
}

impl Amount {
    /// The amount standing for one whole unit, such as one item owned.
    pub fn one() -> (r: Amount)
        ensures
            r.units == AMOUNT_SCALE,
    {
        Amount { units: AMOUNT_SCALE }
    }

    /// The zero amount.
    pub fn zero() -> (r: Amount)
        ensures
            r.units == 0,
    {
        Amount { units: 0 }
    }

    /// Parses a decimal text such as `"0.0004"` into a fixed-point amount.
    ///
    /// Yields the value exactly as `spec_parse_amount` states: the text must
    /// be digits with at most one dot, the fraction is truncated to eighteen
    /// places, and a value over `u128::MAX` units is rejected. Signs and
    /// exponent marks are not part of the grammar and make the text
    /// unreadable.
    pub fn parse(s: &str) -> (r: Option<Amount>)
        ensures
            r == spec_parse_amount(s@),
    {
        let n = s.unicode_len();
        let dot = find_first_dot(s);
        if dot == n {
            proof {
                lemma_first_dot_none(s@);
            }
            if n == 0 {
                return None;
            }
            if !check_digits(s, 0, n) {
                assert(s@.subrange(0, n as int) =~= s@);
                return None;
            }
            assert(s@.subrange(0, n as int) =~= s@);
            let v = match digit_run_value(s, 0, n) {
                Some(v) => v,
                None => {
                    proof {
                        lemma_units_overflow_int(s@, digits_val(s@));
                    }
                    return None;
                },
            };
            match v.checked_mul(AMOUNT_SCALE) {
                Some(units) => {
                    proof {
                        lemma_pow10_18();
                    }
                    Some(Amount { units })
                },
                None => {
                    proof {
                        lemma_pow10_18();
                    }
                    None
                },
            }
        } else {
            proof {
                lemma_first_dot_at(s@, dot as int);
            }
            if n == 1 {
                return None;
            }
            let ghost intpart = s@.take(dot as int);
            let ghost fracpart = s@.skip(dot as int + 1);
            if !check_digits(s, 0, dot) {
                assert(s@.subrange(0, dot as int) =~= intpart);
                return None;
            }
            if !check_digits(s, dot + 1, n) {
                assert(s@.subrange(dot as int + 1, n as int) =~= fracpart);
                return None;
            }
            assert(s@.subrange(0, dot as int) =~= intpart);
            assert(s@.subrange(dot as int + 1, n as int) =~= fracpart);

            // Fraction: at most eighteen digits are significant.
            let frac_digits = n - (dot + 1);
            let k = if frac_digits <= 18 { frac_digits } else { 18 };
            assert(k == frac_len(fracpart));
            let ghost fracrun = s@.subrange(dot as int + 1, dot as int + 1 + k as int);
            assert(fracrun =~= fracpart.take(k as int));
            assert(all_digits(fracrun));
            let fv = match digit_run_value(s, dot + 1, dot + 1 + k) {
                Some(v) => v,
                None => {
                    proof {
                        lemma_digits_val_bound(fracrun);
                        lemma_pow10_monotone(fracrun.len(), 18);
                        lemma_pow10_18();
                        assert(false);
                    }
                    return None;
                },
            };
            proof {
                lemma_digits_val_bound(fracrun);
                lemma_frac_units_bound(fracpart);
            }
            let scale = pow10_u128((18 - k) as u32);
            assert(fv * scale < pow10(18)) by {
                lemma_pow10_adds_pub(frac_len(fracpart), (18 - frac_len(fracpart)) as nat);
                assert(fv * scale <= (pow10(frac_len(fracpart)) - 1) * pow10(
                    (18 - frac_len(fracpart)) as nat)) by (nonlinear_arith)
                    requires
                        fv <= pow10(frac_len(fracpart)) - 1,
                        scale == pow10((18 - frac_len(fracpart)) as nat),
                        scale >= 1,
                ;
            }
            proof {
                lemma_pow10_18();
            }
            let frac_units_v = fv * scale;
            assert(frac_units_v == frac_units(fracpart));

            let iv = match digit_run_value(s, 0, dot) {
                Some(v) => v,
                None => {
                    proof {
                        lemma_units_overflow_frac(s@, digits_val(intpart));
                    }
                    return None;
                },
            };
            let int_units = match iv.checked_mul(AMOUNT_SCALE) {
                Some(units) => units,
                None => {
                    return None;
                },
            };
            match int_units.checked_add(frac_units_v) {
                Some(units) => Some(Amount { units }),
                None => None,
            }
        }
    }
}

proof fn lemma_pow10_18()
    ensures
        pow10(18) == AMOUNT_SCALE,
{
    assert(pow10(18) == 1_000_000_000_000_000_000) by {
        reveal_with_fuel(pow10, 19);
    }
}

proof fn lemma_frac_units_bound(s: Seq<char>)
    requires
        all_digits(s),
    ensures
        frac_units(s) < pow10(18),
{
    let k = frac_len(s);
    assert(all_digits(s.take(k as int))) by {
        assert(forall|i: int| 0 <= i < k ==> s.take(k as int)[i] == #[trigger] s[i]);
    }
    lemma_digits_val_bound(s.take(k as int));
    assert(s.take(k as int).len() == k);
    lemma_pow10_adds_pub(k, (18 - k) as nat);
    assert(digits_val(s.take(k as int)) * pow10((18 - k) as nat) <= (pow10(k) - 1) * pow10(
        (18 - k) as nat)) by (nonlinear_arith)
        requires
            digits_val(s.take(k as int)) <= pow10(k) - 1,
            pow10((18 - k) as nat) >= 0,
    ;
    assert((pow10(k) - 1) * pow10((18 - k) as nat) == pow10(k) * pow10((18 - k) as nat) - pow10(
        (18 - k) as nat)) by (nonlinear_arith);
    lemma_pow10_monotone(0, (18 - k) as nat);
}

proof fn lemma_units_overflow_int(s: Seq<char>, v: nat)
    requires
        v > u128::MAX,
        first_dot(s) < 0,
        v == digits_val(s),
    ensures
        amount_units_nat(s) > u128::MAX,
{
    lemma_pow10_18();
    assert(digits_val(s) * pow10(18) >= digits_val(s) * 1) by (nonlinear_arith)
        requires pow10(18) >= 1,
    ;
}

proof fn lemma_units_overflow_frac(s: Seq<char>, v: nat)
    requires
        v > u128::MAX,
        first_dot(s) >= 0,
        v == digits_val(s.take(first_dot(s))),
    ensures
        amount_units_nat(s) > u128::MAX,
{
    lemma_pow10_18();
    assert(digits_val(s.take(first_dot(s))) * pow10(18) >= digits_val(s.take(first_dot(s))) * 1)
        by (nonlinear_arith)
        requires pow10(18) >= 1,
    ;
}

} // verus!
