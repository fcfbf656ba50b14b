//! Numerals, and the floating point numbers of 64 bits that they stand for,
//! reckoned with whole numbers alone.

use vstd::prelude::*;
use vstd::string::*;
use crate::text::{all_digits, chars_of, digits_value, is_digit, same, split_at_first, split_first};
use crate::text::{a_text_is_parted_where_it_is_said, decimal, lemma_decimal_reads_back, text_of};

verus! {

// ---------------------------------------------------------------------------
// Natural numbers of any size
// ---------------------------------------------------------------------------

/// `base` times itself, `n` times.
pub open spec fn power(base: nat, n: nat) -> nat
    decreases n,
{
    if n == 0 {
        1
    } else {
        base * power(base, (n - 1) as nat)
    }
}

/// The number whose digits to the base of 2^32 these are, the lowest first.
pub open spec fn limbs_value(limbs: Seq<u32>) -> nat
    decreases limbs.len(),
{
    if limbs.len() == 0 {
        0
    } else {
        limbs_value(limbs.drop_last()) + limbs.last() as nat * power(
            0x1_0000_0000,
            (limbs.len() - 1) as nat,
        )
    }
}

/// A natural number.
pub struct Natural {
    limbs: Vec<u32>,
}

impl View for Natural {
    type V = nat;

    closed spec fn view(&self) -> nat {
        limbs_value(self.limbs@)
    }
}

/// The value of the lowest `n` digits.
spec fn low(limbs: Seq<u32>, n: nat) -> nat {
    limbs_value(limbs.take(if n <= limbs.len() { n as int } else { limbs.len() as int }))
}

/// The digit at `i`, zero behind the last one.
spec fn limb(limbs: Seq<u32>, i: nat) -> nat {
    if i < limbs.len() {
        limbs[i as int] as nat
    } else {
        0
    }
}

proof fn lemma_power_is_positive(base: nat, n: nat)
    requires
        base > 0,
    ensures
        power(base, n) > 0,
    decreases n,
{
    if n > 0 {
        lemma_power_is_positive(base, (n - 1) as nat);
        assert(base * power(base, (n - 1) as nat) > 0) by (nonlinear_arith)
            requires
                base > 0,
                power(base, (n - 1) as nat) > 0,
        ;
    }
}

proof fn lemma_next_limb(limbs: Seq<u32>, n: nat)
    ensures
        low(limbs, n + 1) == low(limbs, n) + limb(limbs, n) * power(0x1_0000_0000, n),
{
    if n < limbs.len() {
        assert(limbs.take(n as int + 1).drop_last() =~= limbs.take(n as int));
        assert(limbs.take(n as int + 1).last() == limbs[n as int]);
    } else {
        assert(0 * power(0x1_0000_0000, n) == 0) by (nonlinear_arith);
    }
}

proof fn lemma_low_is_small(limbs: Seq<u32>, n: nat)
    ensures
        low(limbs, n) < power(0x1_0000_0000, n),
    decreases n,
{
    if n == 0 {
        assert(limbs.take(0) =~= Seq::empty());
    } else {
        let m = (n - 1) as nat;
        lemma_low_is_small(limbs, m);
        lemma_next_limb(limbs, m);
        let p = power(0x1_0000_0000, m);
        let l = limb(limbs, m);
        assert(l * p + p <= 0x1_0000_0000 * p) by (nonlinear_arith)
            requires
                l <= 0xFFFF_FFFF,
        ;
    }
}

impl Natural {
    /// A small number.
    pub fn new(n: u32) -> (out: Natural)
        ensures
            out@ == n,
    {
        let mut limbs: Vec<u32> = Vec::new();
        limbs.push(n);
        assert(limbs@.drop_last() =~= Seq::empty());
        assert(power(0x1_0000_0000, 0) == 1);
        assert(limbs_value(limbs@.drop_last()) == 0);
        assert(n as nat * 1 == n) by (nonlinear_arith);
        Natural { limbs }
    }

    /// The number times `factor`, and `more`.
    pub fn times(&self, factor: u64, more: u32) -> (out: Natural)
        requires
            factor <= 0x80_0000_0000_0000,
        ensures
            out@ == self@ * factor + more,
    {
        let mut limbs: Vec<u32> = Vec::new();
        let mut carry: u128 = more as u128;
        let mut i: usize = 0;
        assert(self.limbs@.take(0) =~= Seq::empty());
        assert(power(0x1_0000_0000, 0) == 1);
        assert(0 * factor as nat == 0) by (nonlinear_arith);
        while i < self.limbs.len()
            invariant
                i <= self.limbs@.len(),
                limbs@.len() == i,
                factor <= 0x80_0000_0000_0000,
                carry <= 0x100_0000_0000_0000,
                limbs_value(limbs@) + carry * power(0x1_0000_0000, i as nat) == low(
                    self.limbs@,
                    i as nat,
                ) * factor + more,
            decreases self.limbs.len() - i,
        {
            let digit: u32 = self.limbs[i];
            assert(digit as u128 * factor as u128 <= 0xFFFF_FFFFu128 * 0x80_0000_0000_0000u128)
                by (nonlinear_arith)
                requires
                    digit <= 0xFFFF_FFFF,
                    factor <= 0x80_0000_0000_0000,
            ;
            let sum: u128 = digit as u128 * factor as u128 + carry;
            let rest: u32 = (sum % 0x1_0000_0000) as u32;
            let ghost (before, old_carry) = (limbs@, carry as nat);
            carry = sum / 0x1_0000_0000;
            limbs.push(rest);
            proof {
                let p = power(0x1_0000_0000, i as nat);
                assert(limbs@.drop_last() =~= before);
                lemma_next_limb(self.limbs@, i as nat);
                lemma_carry(
                    limbs_value(before),
                    low(self.limbs@, i as nat),
                    p,
                    digit as nat,
                    factor as nat,
                    more as nat,
                    old_carry,
                    rest as nat,
                    carry as nat,
                );
            }
            i += 1;
        }
        assert(self.limbs@.take(i as int) =~= self.limbs@);
        while carry > 0
            invariant
                limbs_value(limbs@) + carry * power(0x1_0000_0000, limbs@.len()) == self@ * factor
                    + more,
            decreases carry,
        {
            let rest: u32 = (carry % 0x1_0000_0000) as u32;
            let ghost (before, old_carry) = (limbs@, carry as nat);
            carry = carry / 0x1_0000_0000;
            limbs.push(rest);
            proof {
                assert(limbs@.drop_last() =~= before);
                let p = power(0x1_0000_0000, before.len());
                lemma_spread(p, old_carry, rest as nat, carry as nat);
            }
        }
        assert(0 * power(0x1_0000_0000, limbs@.len()) == 0) by (nonlinear_arith);
        Natural { limbs }
    }

    /// Tells whether the number is at most `other`.
    pub fn at_most(&self, other: &Natural) -> (out: bool)
        ensures
            out == (self@ <= other@),
    {
        let len: usize = if self.limbs.len() < other.limbs.len() {
            other.limbs.len()
        } else {
            self.limbs.len()
        };
        let mut out: bool = true;
        let mut i: usize = 0;
        assert(self.limbs@.take(0) =~= Seq::empty());
        assert(other.limbs@.take(0) =~= Seq::empty());
        while i < len
            invariant
                i <= len,
                self.limbs@.len() <= len,
                other.limbs@.len() <= len,
                out == (low(self.limbs@, i as nat) <= low(other.limbs@, i as nat)),
            decreases len - i,
        {
            let a: u32 = if i < self.limbs.len() {
                self.limbs[i]
            } else {
                0
            };
            let b: u32 = if i < other.limbs.len() {
                other.limbs[i]
            } else {
                0
            };
            proof {
                lemma_next_limb(self.limbs@, i as nat);
                lemma_next_limb(other.limbs@, i as nat);
                lemma_low_is_small(self.limbs@, i as nat);
                lemma_low_is_small(other.limbs@, i as nat);
                lemma_higher_digit_decides(
                    low(self.limbs@, i as nat),
                    low(other.limbs@, i as nat),
                    a as nat,
                    b as nat,
                    power(0x1_0000_0000, i as nat),
                );
            }
            if a < b {
                out = true;
            } else if a > b {
                out = false;
            }
            i += 1;
        }
        assert(self.limbs@.take(self.limbs@.len() as int) =~= self.limbs@);
        assert(other.limbs@.take(other.limbs@.len() as int) =~= other.limbs@);
        out
    }
}

proof fn lemma_spread(p: nat, whole: nat, rest: nat, carry: nat)
    requires
        whole == rest + 0x1_0000_0000 * carry,
    ensures
        rest * p + carry * (0x1_0000_0000 * p) == whole * p,
{
    assert(rest * p + carry * (0x1_0000_0000 * p) == (rest + 0x1_0000_0000 * carry) * p)
        by (nonlinear_arith);
}

proof fn lemma_carry(
    done: nat,
    read: nat,
    p: nat,
    digit: nat,
    factor: nat,
    more: nat,
    old_carry: nat,
    rest: nat,
    carry: nat,
)
    requires
        done + old_carry * p == read * factor + more,
        digit * factor + old_carry == rest + 0x1_0000_0000 * carry,
    ensures
        done + rest * p + carry * (0x1_0000_0000 * p) == (read + digit * p) * factor + more,
{
    lemma_spread(p, digit * factor + old_carry, rest, carry);
    assert((digit * factor + old_carry) * p == digit * p * factor + old_carry * p)
        by (nonlinear_arith);
    assert((read + digit * p) * factor == read * factor + digit * p * factor)
        by (nonlinear_arith);
}

proof fn lemma_higher_digit_decides(x: nat, y: nat, a: nat, b: nat, p: nat)
    requires
        x < p,
        y < p,
    ensures
        a < b ==> x + a * p <= y + b * p,
        a > b ==> x + a * p > y + b * p,
        a == b ==> (x + a * p <= y + b * p <==> x <= y),
{
    if a < b {
        assert(a * p + p <= b * p) by (nonlinear_arith)
            requires
                a + 1 <= b,
        ;
    } else if a > b {
        assert(b * p + p <= a * p) by (nonlinear_arith)
            requires
                b + 1 <= a,
        ;
    }
}

// ---------------------------------------------------------------------------
// Rounding
// ---------------------------------------------------------------------------

/// How many units are nearest to a number; of two that are equally near the
/// even one.
pub open spec fn nearest(n: nat, unit: nat) -> nat {
    if 2 * (n % unit) < unit || (2 * (n % unit) == unit && (n / unit) % 2 == 0) {
        n / unit
    } else {
        n / unit + 1
    }
}

/// The distance of the numbers of 53 bits around `n / d`, if it is at least
/// `unit`.
pub open spec fn spacing_of(n: nat, d: nat, unit: nat) -> nat
    decreases n - unit,
{
    if unit == 0 || d == 0 || n < 0x20_0000_0000_0000 * (unit * d) {
        unit
    } else {
        proof {
            assert(unit * d >= unit) by (nonlinear_arith)
                requires
                    d > 0,
            ;
        }
        spacing_of(n, d, 2 * unit)
    }
}

/// The number of 53 bits that is nearest to `n / d`.
pub open spec fn rounded(n: nat, d: nat) -> nat {
    let unit = spacing_of(n, d, 1);
    nearest(n, unit * d) * unit
}

proof fn lemma_nearest(n: nat, u: nat, q: nat)
    requires
        u > 0,
        q * u <= n < (q + 1) * u,
    ensures
        2 * n < (2 * q + 1) * u ==> nearest(n, u) == q,
        2 * n > (2 * q + 1) * u ==> nearest(n, u) == q + 1,
        2 * n == (2 * q + 1) * u ==> nearest(n, u) == (if q % 2 == 0 {
            q
        } else {
            q + 1
        }),
{
    let r = n - q * u;
    assert((q + 1) * u == q * u + u) by (nonlinear_arith);
    assert((2 * q + 1) * u == 2 * (q * u) + u) by (nonlinear_arith);
    vstd::arithmetic::mul::lemma_mul_is_commutative(q as int, u as int);
    vstd::arithmetic::div_mod::lemma_fundamental_div_mod_converse(
        n as int,
        u as int,
        q as int,
        r,
    );
}

/// Rounds `n / d` to 53 bits.
pub fn round(n: &Natural, d: &Natural) -> (out: Natural)
    requires
        d@ > 0,
    ensures
        out@ == rounded(n@, d@),
{
    let mut unit = Natural::new(1);
    let mut u = d.times(1, 0);
    assert(u@ == d@) by (nonlinear_arith)
        requires
            u@ == d@ * 1 + 0,
    ;
    assert(u@ == unit@ * d@) by (nonlinear_arith)
        requires
            u@ == d@,
            unit@ == 1,
    ;
    loop
        invariant
            d@ > 0,
            unit@ > 0,
            u@ == unit@ * d@,
            spacing_of(n@, d@, 1) == spacing_of(n@, d@, unit@),
        ensures
            d@ > 0,
            unit@ > 0,
            u@ == unit@ * d@,
            spacing_of(n@, d@, 1) == unit@,
            n@ < 0x20_0000_0000_0000 * u@,
        decreases n@ - unit@,
    {
        let limit = u.times(0x20_0000_0000_0000, 0);
        assert(limit@ == 0x20_0000_0000_0000 * u@);
        if !limit.at_most(n) {
            break ;
        }
        assert(unit@ * d@ >= unit@) by (nonlinear_arith)
            requires
                d@ > 0,
        ;
        let ghost (old_unit, old_u) = (unit@, u@);
        unit = unit.times(2, 0);
        u = u.times(2, 0);
        assert(old_unit * 2 * d@ == old_unit * d@ * 2) by (nonlinear_arith);
    }
    assert(u@ > 0) by (nonlinear_arith)
        requires
            unit@ > 0,
            d@ > 0,
            u@ == unit@ * d@,
    ;
    let mut q: u64 = 0;
    let mut width: u64 = 0x20_0000_0000_0000;
    assert(0 * u@ == 0) by (nonlinear_arith);
    while width > 1
        invariant
            width >= 1,
            q + width <= 0x20_0000_0000_0000,
            q * u@ <= n@ < (q + width) * u@,
        decreases width,
    {
        let half: u64 = width / 2;
        let reached = u.times(q + half, 0);
        assert(reached@ == (q + half) * u@) by (nonlinear_arith)
            requires
                reached@ == u@ * (q + half) as nat + 0,
        ;
        if reached.at_most(n) {
            q = q + half;
            width = width - half;
        } else {
            width = half;
        }
    }
    let twice = n.times(2, 0);
    let middle = u.times(2 * q + 1, 0);
    proof {
        assert(middle@ == (2 * q + 1) * u@) by (nonlinear_arith)
            requires
                middle@ == u@ * (2 * q + 1) as nat + 0,
        ;
        lemma_nearest(n@, u@, q as nat);
    }
    let count: u64 = if !middle.at_most(&twice) {
        q
    } else if twice.at_most(&middle) {
        q + q % 2
    } else {
        q + 1
    };
    assert(unit@ * count as nat == count as nat * unit@) by (nonlinear_arith);
    unit.times(count, 0)
}

// ---------------------------------------------------------------------------
// Floating point numbers
// ---------------------------------------------------------------------------

/// The floating point number that is nearest to `digits` times ten to the power
/// of `scale`, in units of 2^-1074. From 2^1024 on it is infinity.
pub open spec fn double_of(digits: nat, scale: int) -> nat {
    let n = digits * power(2, 1074) * power(
        10,
        if scale > 0 {
            scale as nat
        } else {
            0
        },
    );
    let d = power(
        10,
        if scale < 0 {
            -scale as nat
        } else {
            0
        },
    );
    let infinity = power(2, 2098);
    if rounded(n, d) < infinity {
        rounded(n, d)
    } else {
        infinity
    }
}

/// The whole number that the part of a numeral behind the `e` stands for.
pub open spec fn exponent_of(s: Seq<char>) -> Option<int> {
    let negative = s.len() > 0 && s[0] == '-';
    let digits = if s.len() > 0 && (s[0] == '-' || s[0] == '+') {
        s.skip(1)
    } else {
        s
    };
    if digits.len() == 0 || !all_digits(digits) {
        None
    } else if negative {
        Some(-(digits_value(digits) as int))
    } else {
        Some(digits_value(digits) as int)
    }
}

/// The sign of a numeral, its digits, and the power of ten that they are
/// multiplied by.
pub open spec fn numeral_of(s: Seq<char>) -> Option<(bool, Seq<char>, int)> {
    let negative = s.len() > 0 && s[0] == '-';
    let unsigned = if negative {
        s.skip(1)
    } else {
        s
    };
    let (mantissa, exponent) = match split_first(unsigned, 'e') {
        Some((m, e)) => (m, exponent_of(e)),
        None => match split_first(unsigned, 'E') {
            Some((m, e)) => (m, exponent_of(e)),
            None => (unsigned, Some(0)),
        },
    };
    let (whole, fraction) = match split_first(mantissa, '.') {
        Some(parts) => parts,
        None => (mantissa, Seq::empty()),
    };
    let digits = whole + fraction;
    match exponent {
        Some(e) => if digits.len() > 0 && all_digits(digits) {
            Some((negative, digits, e - fraction.len()))
        } else {
            None
        },
        None => None,
    }
}

/// The floating point number that a text stands for: whether it is below zero,
/// and how far from zero it is.
pub open spec fn number_of(s: Seq<char>) -> Option<(bool, nat)> {
    match numeral_of(s) {
        Some((negative, digits, scale)) => {
            let size = double_of(digits_value(digits), scale);
            Some((negative && size > 0, size))
        },
        None => None,
    }
}

/// Two numerals stand for the same floating point number. Texts that are no
/// numerals are the same where their characters are.
pub open spec fn same_number(a: Seq<char>, b: Seq<char>) -> bool {
    match (number_of(a), number_of(b)) {
        (Some(x), Some(y)) => x == y,
        (None, None) => a == b,
        _ => false,
    }
}

proof fn lemma_power_adds(base: nat, a: nat, b: nat)
    ensures
        power(base, a + b) == power(base, a) * power(base, b),
    decreases a,
{
    if a == 0 {
        assert(1 * power(base, b) == power(base, b)) by (nonlinear_arith);
    } else {
        let m = (a - 1) as nat;
        lemma_power_adds(base, m, b);
        assert((a + b - 1) as nat == m + b);
        assert(base * (power(base, m) * power(base, b)) == base * power(base, m) * power(base, b))
            by (nonlinear_arith);
    }
}

/// Ten is more than eight.
proof fn lemma_tens(n: nat)
    ensures
        power(10, n) >= power(2, 3 * n) > 0,
    decreases n,
{
    if n > 0 {
        let m = (n - 1) as nat;
        lemma_tens(m);
        lemma_power_adds(2, 3, 3 * m);
        assert(3 * n == 3 + 3 * m);
        assert(power(2, 3) == 8) by {
            reveal_with_fuel(power, 4);
        }
    }
}

/// A unit is one, or so small that the number has 53 bits.
proof fn lemma_spacing(n: nat, d: nat, unit: nat)
    requires
        unit > 0,
        d > 0,
    ensures
        ({
            let found = spacing_of(n, d, unit);
            found >= unit && (found == unit || n >= 0x10_0000_0000_0000 * (found * d))
        }),
    decreases n - unit,
{
    if n >= 0x20_0000_0000_0000 * (unit * d) {
        assert(unit * d >= unit) by (nonlinear_arith)
            requires
                d > 0,
        ;
        lemma_spacing(n, d, 2 * unit);
        assert(2 * unit * d == 2 * (unit * d)) by (nonlinear_arith);
    }
}

proof fn lemma_rounding_keeps_half(n: nat)
    ensures
        2 * rounded(n, 1) >= n,
{
    let unit = spacing_of(n, 1, 1);
    lemma_spacing(n, 1, 1);
    assert(unit * 1 == unit);
    let q = n / unit;
    vstd::arithmetic::div_mod::lemma_fundamental_div_mod(n as int, unit as int);
    assert(unit * q == q * unit) by (nonlinear_arith);
    assert(nearest(n, unit) * unit >= q * unit) by (nonlinear_arith)
        requires
            nearest(n, unit) >= q,
    ;
    assert(n % unit < unit);
}

/// Nothing stays nothing, what is large is infinite, and what is small is
/// nothing.
proof fn lemma_extremes(digits: nat, count: nat, scale: int)
    requires
        digits < power(10, count),
    ensures
        digits == 0 ==> double_of(digits, scale) == 0,
        digits > 0 && scale >= 342 ==> double_of(digits, scale) == power(2, 2098),
        scale <= -(count + 360) ==> double_of(digits, scale) == 0,
{
    let up: nat = if scale > 0 {
        scale as nat
    } else {
        0
    };
    let down: nat = if scale < 0 {
        -scale as nat
    } else {
        0
    };
    let two = power(2, 1074);
    let n = digits * two * power(10, up);
    let d = power(10, down);
    lemma_power_is_positive(2, 1074);
    lemma_power_is_positive(2, 2098);
    lemma_power_is_positive(10, down);
    if digits == 0 {
        assert(n == 0) by (nonlinear_arith)
            requires
                n == digits * two * power(10, up),
                digits == 0,
        ;
        lemma_small_is_nothing(n, d);
    }
    if digits > 0 && scale >= 342 {
        lemma_power_adds(10, 342, (up - 342) as nat);
        lemma_power_is_positive(10, (up - 342) as nat);
        lemma_tens(342);
        lemma_power_adds(2, 1074, 1026);
        lemma_power_adds(2, 2, 2098);
        assert(power(2, 2) == 4) by {
            reveal_with_fuel(power, 3);
        }
        let ten = power(10, 342);
        let rest = power(10, (up - 342) as nat);
        assert(n >= two * power(2, 1026)) by (nonlinear_arith)
            requires
                n == digits * two * power(10, up),
                power(10, up) == ten * rest,
                ten >= power(2, 1026),
                rest > 0,
                digits > 0,
                two > 0,
        ;
        assert(d == 1);
        lemma_rounding_keeps_half(n);
    }
    if scale <= -(count + 360) {
        lemma_power_adds(10, count, (down - count) as nat);
        lemma_power_adds(10, 360, (down - count - 360) as nat);
        lemma_power_is_positive(10, (down - count - 360) as nat);
        lemma_power_is_positive(10, count);
        lemma_tens(360);
        lemma_power_adds(2, 6, 1074);
        assert(power(2, 6) == 64) by {
            reveal_with_fuel(power, 7);
        }
        let ten = power(10, 360);
        let rest = power(10, (down - count - 360) as nat);
        let most = power(10, count);
        assert(power(10, (down - count) as nat) >= 64 * two) by (nonlinear_arith)
            requires
                power(10, (down - count) as nat) == ten * rest,
                ten >= 64 * two,
                rest > 0,
        ;
        assert(d >= most * (64 * two)) by (nonlinear_arith)
            requires
                d == most * power(10, (down - count) as nat),
                power(10, (down - count) as nat) >= 64 * two,
        ;
        assert(power(10, up) == 1);
        assert(n == digits * two) by (nonlinear_arith)
            requires
                n == digits * two * power(10, up),
                power(10, up) == 1,
        ;
        assert(most * (64 * two) >= 64 * (digits * two)) by (nonlinear_arith)
            requires
                most >= digits,
        ;
        assert(most * (64 * two) > 0) by (nonlinear_arith)
            requires
                most > 0,
                two > 0,
        ;
        lemma_small_is_nothing(n, d);
    }
}

proof fn lemma_small_is_nothing(n: nat, d: nat)
    requires
        2 * n < d,
    ensures
        rounded(n, d) == 0,
{
    assert(1 * d == d);
    assert(spacing_of(n, d, 1) == 1);
    vstd::arithmetic::div_mod::lemma_small_mod(n, d);
    vstd::arithmetic::div_mod::lemma_basic_div(n as int, d as int);
    assert(nearest(n, d) == 0);
}

proof fn lemma_digits_are_few(s: Seq<char>)
    requires
        all_digits(s),
    ensures
        digits_value(s) < power(10, s.len()),
    decreases s.len(),
{
    if s.len() > 0 {
        let rest = s.drop_last();
        assert(all_digits(rest)) by {
            assert forall|i: int| 0 <= i < rest.len() implies is_digit(#[trigger] rest[i]) by {
                assert(rest[i] == s[i]);
            }
        }
        lemma_digits_are_few(rest);
        assert(is_digit(s[s.len() - 1]));
    }
}

/// The number times `base`, `count` times.
fn raised(n: &Natural, base: u64, count: u128) -> (out: Natural)
    requires
        base <= 10,
    ensures
        out@ == n@ * power(base as nat, count as nat),
{
    let mut out = n.times(1, 0);
    let mut i: u128 = 0;
    assert(n@ * 1 == n@);
    while i < count
        invariant
            i <= count,
            base <= 10,
            out@ == n@ * power(base as nat, i as nat),
        decreases count - i,
    {
        let ghost p = power(base as nat, i as nat);
        out = out.times(base, 0);
        i += 1;
        assert(n@ * p * base as nat == n@ * (base as nat * p)) by (nonlinear_arith);
    }
    out
}

/// The floating point number that is nearest; the digits are `count` long.
fn double(digits: &Natural, count: usize, scale: i128) -> (out: Natural)
    requires
        digits@ < power(10, count as nat),
        -0x1000_0000_0000_0000_0000 <= scale <= 0x1000_0000_0000_0000_0000,
    ensures
        out@ == double_of(digits@, scale as int),
{
    proof {
        lemma_extremes(digits@, count as nat, scale as int);
    }
    let one = Natural::new(1);
    let infinity = raised(&one, 2, 2098);
    assert(infinity@ == power(2, 2098)) by (nonlinear_arith)
        requires
            infinity@ == one@ * power(2, 2098),
            one@ == 1,
    ;
    let nothing = Natural::new(0);
    if digits.at_most(&nothing) || scale <= -(count as i128 + 360) {
        return nothing;
    }
    if scale >= 342 {
        return infinity;
    }
    let up: u128 = if scale > 0 {
        scale as u128
    } else {
        0
    };
    let down: u128 = if scale < 0 {
        (-scale) as u128
    } else {
        0
    };
    let n = raised(&raised(digits, 2, 1074), 10, up);
    let d = raised(&one, 10, down);
    assert(d@ == power(10, down as nat)) by (nonlinear_arith)
        requires
            d@ == one@ * power(10, down as nat),
            one@ == 1,
    ;
    proof {
        lemma_power_is_positive(10, down as nat);
    }
    let nearest = round(&n, &d);
    if infinity.at_most(&nearest) {
        infinity
    } else {
        nearest
    }
}

/// Two numbers are the same, or both are far from zero on the same side.
spec fn is_near(x: int, y: int) -> bool {
    ||| x == y
    ||| x >= 0x4_0000_0000_0000_0000 && y >= 0x4_0000_0000_0000_0000
    ||| x <= -0x4_0000_0000_0000_0000 && y <= -0x4_0000_0000_0000_0000
}

/// Reads digits from `from` on. A number that is too large to matter is read as
/// some large number.
fn read_digits(chars: &Vec<char>, from: usize) -> (out: Option<u128>)
    requires
        from <= chars@.len(),
    ensures
        ({
            let digits = chars@.skip(from as int);
            match out {
                Some(n) => {
                    &&& digits.len() > 0 && all_digits(digits)
                    &&& is_near(n as int, digits_value(digits) as int)
                    &&& n <= 0x80_0000_0000_0000_0000
                },
                None => digits.len() == 0 || !all_digits(digits),
            }
        }),
{
    let ghost digits = chars@.skip(from as int);
    if from == chars.len() {
        return None;
    }
    let mut value: u128 = 0;
    let mut i: usize = from;
    assert(digits.take(0) =~= Seq::empty());
    while i < chars.len()
        invariant
            from <= i <= chars@.len(),
            digits == chars@.skip(from as int),
            all_digits(digits.take(i - from)),
            is_near(value as int, digits_value(digits.take(i - from)) as int),
            value <= 0x80_0000_0000_0000_0000,
        decreases chars.len() - i,
    {
        let c: char = chars[i];
        let ghost seen = digits.take(i - from);
        let ghost next = digits.take(i - from + 1);
        assert(next.drop_last() =~= seen);
        assert(next.last() == c);
        if c < '0' || c > '9' {
            assert(!is_digit(digits[i - from]));
            return None;
        }
        assert(all_digits(next)) by {
            assert forall|j: int| 0 <= j < next.len() implies is_digit(#[trigger] next[j]) by {
                if j < seen.len() {
                    assert(seen[j] == next[j]);
                }
            }
        }
        if value < 0x4_0000_0000_0000_0000 {
            value = value * 10 + (c as u128 - 48);
        }
        i += 1;
    }
    assert(digits.take(i - from) =~= digits);
    Some(value)
}

fn read_exponent(s: &str) -> (out: Option<i128>)
    ensures
        match (out, exponent_of(s@)) {
            (Some(x), Some(y)) => is_near(x as int, y) && -0x80_0000_0000_0000_0000 <= x
                <= 0x80_0000_0000_0000_0000,
            (None, None) => true,
            _ => false,
        },
{
    let chars = chars_of(s);
    let negative: bool = chars.len() > 0 && chars[0] == '-';
    let start: usize = if chars.len() > 0 && (chars[0] == '-' || chars[0] == '+') { 1 } else { 0 };
    assert(s@.skip(0) =~= s@);
    match read_digits(&chars, start) {
        None => None,
        Some(n) => if negative {
            Some(-(n as i128))
        } else {
            Some(n as i128)
        },
    }
}

/// Reads a row of digits.
fn read_natural(s: &str) -> (out: Option<Natural>)
    ensures
        match out {
            Some(n) => s@.len() > 0 && all_digits(s@) && n@ == digits_value(s@),
            None => s@.len() == 0 || !all_digits(s@),
        },
{
    let chars = chars_of(s);
    if chars.len() == 0 {
        return None;
    }
    let mut value = Natural::new(0);
    let mut i: usize = 0;
    assert(s@.take(0) =~= Seq::empty());
    while i < chars.len()
        invariant
            i <= chars@.len(),
            chars@ == s@,
            all_digits(s@.take(i as int)),
            value@ == digits_value(s@.take(i as int)),
        decreases chars.len() - i,
    {
        let c: char = chars[i];
        let ghost seen = s@.take(i as int);
        let ghost next = s@.take(i + 1);
        assert(next.drop_last() =~= seen);
        assert(next.last() == c);
        if c < '0' || c > '9' {
            assert(!is_digit(s@[i as int]));
            return None;
        }
        assert(all_digits(next)) by {
            assert forall|j: int| 0 <= j < next.len() implies is_digit(#[trigger] next[j]) by {
                if j < seen.len() {
                    assert(seen[j] == next[j]);
                }
            }
        }
        value = value.times(10, c as u32 - 48);
        i += 1;
    }
    assert(s@.take(i as int) =~= s@);
    Some(value)
}

/// Reads a numeral as the floating point number that it stands for.
pub fn read_number(s: &str) -> (out: Option<(bool, Natural)>)
    ensures
        match out {
            Some((negative, size)) => number_of(s@) == Some((negative, size@)),
            None => number_of(s@) is None,
        },
{
    let chars = chars_of(s);
    let negative: bool = chars.len() > 0 && chars[0] == '-';
    let unsigned = text_of(&chars, if negative { 1 } else { 0 }, chars.len());
    assert(negative ==> unsigned@ =~= s@.skip(1));
    assert(!negative ==> unsigned@ =~= s@);
    let (mantissa, exponent) = match split_at_first(unsigned.as_str(), 'e') {
        Some((m, e)) => (m, read_exponent(e.as_str())),
        None => match split_at_first(unsigned.as_str(), 'E') {
            Some((m, e)) => (m, read_exponent(e.as_str())),
            None => (unsigned, Some(0)),
        },
    };
    let (whole, fraction) = match split_at_first(mantissa.as_str(), '.') {
        Some(parts) => parts,
        None => (mantissa, String::new()),
    };
    let behind: usize = chars_of(fraction.as_str()).len();
    let mut digits = whole;
    digits.append(fraction.as_str());
    let count: usize = chars_of(digits.as_str()).len();
    match (exponent, read_natural(digits.as_str())) {
        (Some(power), Some(value)) => {
            let scale: i128 = power - behind as i128;
            proof {
                assert(numeral_of(s@) is Some);
                lemma_digits_are_few(digits@);
                lemma_extremes(value@, count as nat, scale as int);
                let (_, _, meant) = numeral_of(s@)->0;
                lemma_extremes(value@, count as nat, meant);
            }
            let size = double(&value, count, scale);
            let nothing = Natural::new(0);
            Some((negative && !size.at_most(&nothing), size))
        },
        _ => None,
    }
}

/// Tells whether two numerals stand for the same number.
pub fn equal_numbers(a: &str, b: &str) -> (out: bool)
    ensures
        out == same_number(a@, b@),
{
    match (read_number(a), read_number(b)) {
        (Some((below, size)), Some((other_below, other_size))) => below == other_below
            && size.at_most(&other_size) && other_size.at_most(&size),
        (None, None) => same(a, b),
        _ => false,
    }
}

// ---------------------------------------------------------------------------
// Laws
// ---------------------------------------------------------------------------

/// What is rounded is off by no more than half the distance of its neighbours.
pub proof fn a_number_is_rounded_to_its_nearest_neighbour(n: nat, d: nat)
    requires
        d > 0,
    ensures
        ({
            let unit = spacing_of(n, d, 1);
            &&& unit > 0
            &&& rounded(n, d) % unit == 0
            &&& -(unit * d) <= 2 * (rounded(n, d) * d - n) <= unit * d
            &&& unit == 1 || n >= 0x10_0000_0000_0000 * (unit * d)
        }),
{
    let unit = spacing_of(n, d, 1);
    lemma_spacing(n, d, 1);
    let step = unit * d;
    assert(step > 0) by (nonlinear_arith)
        requires
            unit > 0,
            d > 0,
            step == unit * d,
    ;
    let count = nearest(n, step);
    let (q, r) = (n / step, n % step);
    vstd::arithmetic::div_mod::lemma_fundamental_div_mod(n as int, step as int);
    vstd::arithmetic::mul::lemma_mul_is_commutative(step as int, q as int);
    vstd::arithmetic::mul::lemma_mul_is_distributive_add_other_way(step as int, q as int, 1);
    assert(-(step as int) <= 2 * (count * step - n) <= step);
    assert(count * unit * d == count * (unit * d)) by (nonlinear_arith);
    vstd::arithmetic::div_mod::lemma_mod_multiples_basic(count as int, unit as int);
}

proof fn lemma_spacing_of_whole(n: nat, top: nat, k: nat)
    requires
        n < 0x20_0000_0000_0000,
        k <= top,
    ensures
        exists|j: nat|
            k <= j <= top && spacing_of(n * power(2, top), 1, power(2, k)) == #[trigger] power(2, j),
    decreases top - k,
{
    let whole = n * power(2, top);
    let unit = power(2, k);
    lemma_power_is_positive(2, k);
    assert(unit * 1 == unit);
    if whole < 0x20_0000_0000_0000 * unit {
        assert(spacing_of(whole, 1, unit) == power(2, k));
    } else {
        assert(k < top) by {
            if k == top {
                assert(n * unit < 0x20_0000_0000_0000 * unit) by (nonlinear_arith)
                    requires
                        n < 0x20_0000_0000_0000,
                        unit > 0,
                ;
            }
        }
        assert(power(2, k + 1) == 2 * unit);
        lemma_spacing_of_whole(n, top, k + 1);
        assert(spacing_of(whole, 1, unit) == spacing_of(whole, 1, 2 * unit));
    }
}

/// A number of 53 bits is kept as it is.
proof fn lemma_53_bits_are_kept(n: nat, top: nat)
    requires
        n < 0x20_0000_0000_0000,
    ensures
        rounded(n * power(2, top), 1) == n * power(2, top),
{
    let whole = n * power(2, top);
    assert(power(2, 0) == 1);
    lemma_spacing_of_whole(n, top, 0);
    let j = choose|j: nat|
        0 <= j <= top && spacing_of(whole, 1, power(2, 0)) == #[trigger] power(2, j);
    let unit = power(2, j);
    lemma_power_is_positive(2, j);
    lemma_power_adds(2, (top - j) as nat, j);
    let count = n * power(2, (top - j) as nat);
    assert(whole == count * unit) by (nonlinear_arith)
        requires
            whole == n * power(2, top),
            power(2, top) == power(2, (top - j) as nat) * unit,
            count == n * power(2, (top - j) as nat),
    ;
    vstd::arithmetic::div_mod::lemma_mod_multiples_basic(count as int, unit as int);
    vstd::arithmetic::div_mod::lemma_div_by_multiple(count as int, unit as int);
    assert(unit * 1 == unit);
    assert(nearest(whole, unit) == count);
}

/// A whole number of 53 bits, with zeros behind them up to 1024 bits in all, is kept
/// as it is.
proof fn lemma_whole_is_kept(n: nat, zeros: nat)
    requires
        n < 0x20_0000_0000_0000,
        zeros <= 971,
    ensures
        double_of(n * power(2, zeros), 0) == n * power(2, zeros) * power(2, 1074),
        n * power(2, zeros) * power(2, 1074) < power(2, 2098),
{
    let top = zeros + 1074;
    lemma_power_adds(2, zeros, 1074);
    let whole = n * power(2, top);
    assert(n * power(2, zeros) * power(2, 1074) == whole) by (nonlinear_arith)
        requires
            whole == n * power(2, top),
            power(2, top) == power(2, zeros) * power(2, 1074),
    ;
    assert(power(10, 0) == 1);
    assert(whole * 1 == whole);
    lemma_53_bits_are_kept(n, top);
    lemma_whole_is_finite(n, zeros);
}

proof fn lemma_two_to_53()
    ensures
        power(2, 53) == 0x20_0000_0000_0000,
{
    lemma_power_adds(2, 10, 10);
    lemma_power_adds(2, 20, 20);
    lemma_power_adds(2, 40, 10);
    lemma_power_adds(2, 50, 3);
    assert(power(2, 10) == 1024) by {
        reveal_with_fuel(power, 11);
    }
    assert(power(2, 3) == 8) by {
        reveal_with_fuel(power, 4);
    }
    assert(power(2, 20) == 0x10_0000);
    assert(power(2, 40) == 0x100_0000_0000) by {
        assert(0x10_0000 * 0x10_0000 == 0x100_0000_0000) by (nonlinear_arith);
    }
    assert(power(2, 50) == 0x4_0000_0000_0000);
}

proof fn lemma_whole_is_finite(n: nat, zeros: nat)
    requires
        n < 0x20_0000_0000_0000,
        zeros <= 971,
    ensures
        n * power(2, zeros + 1074) < power(2, 2098),
{
    let rest = (971 - zeros) as nat;
    lemma_power_adds(2, 53, rest);
    lemma_power_adds(2, 53 + rest, zeros + 1074);
    lemma_power_is_positive(2, rest);
    lemma_power_is_positive(2, zeros + 1074);
    lemma_two_to_53();
    let (p, q, r) = (power(2, zeros + 1074), power(2, 53 + rest), power(2, rest));
    assert(n * p < q * p) by (nonlinear_arith)
        requires
            n < 0x20_0000_0000_0000,
            q == 0x20_0000_0000_0000 * r,
            r > 0,
            p > 0,
    ;
}

proof fn lemma_decimal_number(n: nat)
    ensures
        number_of(decimal(n)) == Some((false, double_of(n, 0))),
        number_of(seq!['-'] + decimal(n)) == Some((double_of(n, 0) > 0, double_of(n, 0))),
{
    let s = decimal(n);
    lemma_decimal_reads_back(n);
    assert(is_digit(s[0]));
    assert forall|c: char| !is_digit(c) implies !s.contains(c) by {
        if s.contains(c) {
            let i = choose|i: int| 0 <= i < s.len() && s[i] == c;
            assert(is_digit(s[i]));
        }
    }
    s.index_of_first_ensures('e');
    s.index_of_first_ensures('E');
    s.index_of_first_ensures('.');
    assert(s + Seq::<char>::empty() =~= s);
    let t = seq!['-'] + s;
    assert(t[0] == '-' && t.skip(1) =~= s);
}

proof fn lemma_whole_numeral(n: nat)
    requires
        n < 0x20_0000_0000_0000,
    ensures
        number_of(decimal(n)) == Some((false, n * power(2, 1074))),
        number_of(seq!['-'] + decimal(n)) == Some((n > 0, n * power(2, 1074))),
{
    lemma_decimal_number(n);
    lemma_whole_is_kept(n, 0);
    assert(power(2, 0) == 1 && n * 1 == n);
    lemma_power_is_positive(2, 1074);
    assert(n > 0 ==> n * power(2, 1074) > 0) by (nonlinear_arith)
        requires
            power(2, 1074) > 0,
    ;
    assert(n == 0 ==> n * power(2, 1074) == 0) by (nonlinear_arith);
}

/// Whole numbers of 53 bits are equal where they are the same number, and a minus
/// makes a difference unless the number is zero.
pub proof fn whole_numbers_are_equal_where_they_are_the_same(
    n: nat,
    m: nat,
    texts: (&str, &str, &str),
    outs: (bool, bool, bool),
)
    requires
        n < 0x20_0000_0000_0000,
        m < 0x20_0000_0000_0000,
        texts.0@ == decimal(n),
        texts.1@ == decimal(m),
        texts.2@ == seq!['-'] + decimal(m),
        call_ensures(equal_numbers, (texts.0, texts.1), outs.0),
        call_ensures(equal_numbers, (texts.0, texts.2), outs.1),
        call_ensures(equal_numbers, (texts.2, texts.2), outs.2),
    ensures
        outs.0 <==> n == m,
        outs.1 <==> n == 0 && m == 0,
        outs.2,
{
    lemma_whole_numeral(n);
    lemma_whole_numeral(m);
    let p = power(2, 1074);
    lemma_power_is_positive(2, 1074);
    assert(n * p == m * p ==> n == m) by (nonlinear_arith)
        requires
            p > 0,
    ;
}

/// Being equal does not depend on the order, and goes on from one pair to the next.
pub proof fn equal_numbers_are_one_number(
    a: &str,
    b: &str,
    c: &str,
    outs: (bool, bool, bool, bool),
)
    requires
        call_ensures(equal_numbers, (a, b), outs.0),
        call_ensures(equal_numbers, (b, a), outs.1),
        call_ensures(equal_numbers, (b, c), outs.2),
        call_ensures(equal_numbers, (a, c), outs.3),
    ensures
        outs.0 == outs.1,
        outs.0 && outs.2 ==> outs.3,
        a@ == b@ ==> outs.0,
{
}

/// The digits of a numeral may stand before the point or behind it: a digit that moves
/// behind it is worth one power of ten less, and the exponent says how many powers are
/// added.
pub proof fn a_numeral_has_digits_and_a_power(
    whole: Seq<char>,
    fraction: Seq<char>,
    digits: Seq<char>,
    minus: bool,
)
    requires
        all_digits(whole) && all_digits(fraction) && all_digits(digits),
        whole.len() > 0 && digits.len() > 0,
    ensures
        ({
            let sign = if minus {
                seq!['-']
            } else {
                Seq::<char>::empty()
            };
            let all = whole + fraction;
            let n = fraction.len() as int;
            let plain = sign + (whole + seq!['.'] + fraction);
            let value = digits_value(digits) as int;
            &&& numeral_of(plain) == Some((minus, all, -n))
            &&& numeral_of(sign + (whole + seq!['.'] + fraction + seq!['e'] + digits)) == Some(
                (minus, all, value - n),
            )
            &&& numeral_of(sign + (whole + seq!['.'] + fraction + seq!['E', '-'] + digits)) == Some(
                (minus, all, -value - n),
            )
        }),
{
    let none = Seq::<char>::empty();
    let sign = if minus {
        seq!['-']
    } else {
        none
    };
    let mantissa = whole + seq!['.'] + fraction;
    assert forall|c: char| !is_digit(c) implies !whole.contains(c) && !fraction.contains(c)
        && !digits.contains(c) by {
        if whole.contains(c) {
            let i = choose|i: int| 0 <= i < whole.len() && whole[i] == c;
            assert(is_digit(whole[i]));
        }
        if fraction.contains(c) {
            let i = choose|i: int| 0 <= i < fraction.len() && fraction[i] == c;
            assert(is_digit(fraction[i]));
        }
        if digits.contains(c) {
            let i = choose|i: int| 0 <= i < digits.len() && digits[i] == c;
            assert(is_digit(digits[i]));
        }
    }
    assert forall|c: char| !is_digit(c) && c != '.' implies !mantissa.contains(c) by {
        if mantissa.contains(c) {
            let i = choose|i: int| 0 <= i < mantissa.len() && mantissa[i] == c;
            if i < whole.len() {
                assert(whole[i] == c);
            } else if i > whole.len() {
                assert(fraction[i - whole.len() - 1] == c);
            }
        }
    }
    a_text_is_parted_where_it_is_said(whole, '.', fraction);
    let all = whole + fraction;
    assert(all_digits(all)) by {
        assert forall|i: int| 0 <= i < all.len() implies is_digit(#[trigger] all[i]) by {
            if i < whole.len() {
                assert(all[i] == whole[i]);
            } else {
                assert(all[i] == fraction[i - whole.len()]);
            }
        }
    }
    assert(is_digit(whole[0]));
    let small = mantissa + seq!['e'] + digits;
    let large = mantissa + seq!['E', '-'] + digits;
    let back = seq!['-'] + digits;
    assert(large =~= mantissa + seq!['E'] + back);
    a_text_is_parted_where_it_is_said(mantissa, 'e', digits);
    a_text_is_parted_where_it_is_said(mantissa, 'E', back);
    a_text_is_parted_where_it_is_said(mantissa, 'E', none);
    a_text_is_parted_where_it_is_said(large, 'e', none);
    assert(!large.contains('e')) by {
        if large.contains('e') {
            let i = choose|i: int| 0 <= i < large.len() && large[i] == 'e';
            if i < mantissa.len() {
                assert(mantissa[i] == 'e');
            } else if i > mantissa.len() + 1 {
                assert(digits[i - mantissa.len() - 2] == 'e');
            }
        }
    }
    assert(is_digit(digits[0]));
    assert(back[0] == '-' && back.skip(1) =~= digits);
    assert(exponent_of(digits) == Some(digits_value(digits) as int));
    assert(exponent_of(back) == Some(-(digits_value(digits) as int)));
    lemma_sign(sign, minus, mantissa);
    lemma_sign(sign, minus, small);
    lemma_sign(sign, minus, large);
    assert(mantissa[0] == whole[0] && small[0] == whole[0] && large[0] == whole[0]);
}

proof fn lemma_sign(sign: Seq<char>, minus: bool, rest: Seq<char>)
    requires
        sign == (if minus {
            seq!['-']
        } else {
            Seq::<char>::empty()
        }),
    ensures
        minus ==> (sign + rest)[0] == '-' && (sign + rest).skip(1) == rest,
        !minus ==> sign + rest == rest,
{
    if minus {
        assert((sign + rest).skip(1) =~= rest);
    } else {
        assert(sign + rest =~= rest);
    }
}

/// Two numerals of one number are equal, however the point and the exponent are
/// written: a numeral with fewer powers of ten has as many times the digits.
pub proof fn numerals_of_one_number_are_equal(
    a: &str,
    b: &str,
    minus: bool,
    digits: (Seq<char>, Seq<char>),
    scales: (int, int),
    out: bool,
)
    requires
        call_ensures(equal_numbers, (a, b), out),
        numeral_of(a@) == Some((minus, digits.0, scales.0)),
        numeral_of(b@) == Some((minus, digits.1, scales.1)),
        scales.0 >= scales.1,
        digits_value(digits.1) == digits_value(digits.0) * power(10, (scales.0 - scales.1) as nat),
    ensures
        out,
{
    lemma_moved_point(digits_value(digits.0), (scales.0 - scales.1) as nat, scales.1);
}

proof fn lemma_spacing_keeps(n: nat, d: nat, unit: nat, c: nat)
    requires
        c > 0,
    ensures
        spacing_of(n * c, d * c, unit) == spacing_of(n, d, unit),
    decreases n - unit,
{
    let limit = 0x20_0000_0000_0000 * (unit * d);
    assert(0x20_0000_0000_0000 * (unit * (d * c)) == limit * c) by (nonlinear_arith)
        requires
            limit == 0x20_0000_0000_0000 * (unit * d),
    ;
    assert(n * c < limit * c <==> n < limit) by (nonlinear_arith)
        requires
            c > 0,
    ;
    assert(d * c == 0 <==> d == 0) by (nonlinear_arith)
        requires
            c > 0,
    ;
    if unit == 0 || d == 0 || n < limit {
    } else {
        assert(unit * d >= unit) by (nonlinear_arith)
            requires
                d > 0,
        ;
        lemma_spacing_keeps(n, d, 2 * unit, c);
        assert(n * c >= limit * c);
        assert(spacing_of(n * c, d * c, unit) == spacing_of(n * c, d * c, 2 * unit));
    }
}

proof fn lemma_nearest_keeps(n: nat, u: nat, c: nat)
    requires
        u > 0,
        c > 0,
    ensures
        nearest(n * c, u * c) == nearest(n, u),
{
    let (q, r) = (n / u, n % u);
    vstd::arithmetic::div_mod::lemma_fundamental_div_mod(n as int, u as int);
    assert(n * c == q * (u * c) + r * c && 0 <= r * c < u * c) by (nonlinear_arith)
        requires
            n == u * q + r,
            0 <= r < u,
            c > 0,
    ;
    vstd::arithmetic::div_mod::lemma_fundamental_div_mod_converse(
        (n * c) as int,
        (u * c) as int,
        q as int,
        (r * c) as int,
    );
    assert((2 * (r * c) < u * c <==> 2 * r < u) && (2 * (r * c) == u * c <==> 2 * r == u))
        by (nonlinear_arith)
        requires
            c > 0,
    ;
}

proof fn lemma_rounded_keeps(n: nat, d: nat, c: nat)
    requires
        d > 0,
        c > 0,
    ensures
        rounded(n * c, d * c) == rounded(n, d),
{
    lemma_spacing_keeps(n, d, 1, c);
    lemma_spacing(n, d, 1);
    let unit = spacing_of(n, d, 1);
    assert(unit * (d * c) == (unit * d) * c) by (nonlinear_arith);
    assert(unit * d > 0) by (nonlinear_arith)
        requires
            unit > 0,
            d > 0,
    ;
    lemma_nearest_keeps(n, unit * d, c);
}

proof fn lemma_moved_point(digits: nat, k: nat, scale: int)
    ensures
        double_of(digits * power(10, k), scale) == double_of(digits, scale + k),
{
    let p = power(2, 1074);
    let tens = power(10, k);
    lemma_power_is_positive(10, k);
    if scale >= 0 {
        lemma_power_adds(10, k, scale as nat);
        let more = power(10, scale as nat);
        assert(digits * tens * p * more == digits * p * (tens * more)) by (nonlinear_arith);
    } else {
        let down = -scale as nat;
        lemma_power_is_positive(10, down);
        let d = power(10, down);
        assert(digits * tens * p * 1 == digits * p * 1 * tens) by (nonlinear_arith);
        if k >= down {
            let up = (k - down) as nat;
            lemma_power_adds(10, up, down);
            let more = power(10, up);
            assert(digits * p * 1 * tens == (digits * p * more) * d) by (nonlinear_arith)
                requires
                    tens == more * d,
            ;
            lemma_rounded_keeps(digits * p * more, 1, d);
            assert(1 * d == d);
            assert(power(10, 0) == 1);
        } else {
            let left = (down - k) as nat;
            lemma_power_adds(10, left, k);
            lemma_power_is_positive(10, left);
            lemma_rounded_keeps(digits * p * 1, power(10, left), tens);
            assert(power(10, 0) == 1);
        }
    }
}

proof fn lemma_spacing_is_a_power(n: nat, d: nat, k: nat)
    requires
        d > 0,
    ensures
        exists|j: nat| j >= k && spacing_of(n, d, power(2, k)) == #[trigger] power(2, j),
        n < 0x20_0000_0000_0000 * (spacing_of(n, d, power(2, k)) * d),
    decreases n - power(2, k),
{
    let unit = power(2, k);
    lemma_power_is_positive(2, k);
    if n < 0x20_0000_0000_0000 * (unit * d) {
        assert(spacing_of(n, d, unit) == power(2, k));
    } else {
        assert(unit * d >= unit) by (nonlinear_arith)
            requires
                d > 0,
        ;
        assert(power(2, k + 1) == 2 * unit);
        lemma_spacing_is_a_power(n, d, k + 1);
        assert(spacing_of(n, d, unit) == spacing_of(n, d, 2 * unit));
    }
}

/// `size` is the number of 53 bits that is nearest to `n / d`: `count` units, where
/// the unit is as small as 53 bits allow. Of two that are equally near it is the one
/// with an even count.
pub open spec fn is_nearest(n: nat, d: nat, size: nat, count: nat, exponent: nat) -> bool {
    let unit = power(2, exponent);
    &&& size == count * unit
    &&& count <= 0x20_0000_0000_0000
    &&& n < 0x20_0000_0000_0000 * (unit * d)
    &&& exponent == 0 || n >= 0x10_0000_0000_0000 * (unit * d)
    &&& -(unit * d) <= 2 * (size * d - n) <= unit * d
    &&& 2 * (size * d - n) == unit * d || 2 * (size * d - n) == -(unit * d) ==> count % 2 == 0
}

/// What is rounded becomes the nearest number of 53 bits.
pub proof fn the_nearest_number_of_53_bits_is_taken(n: &Natural, d: &Natural, out: Natural)
    requires
        d@ > 0,
        call_ensures(round, (n, d), out),
    ensures
        exists|count: nat, exponent: nat| #[trigger] is_nearest(n@, d@, out@, count, exponent),
{
    lemma_is_nearest(n@, d@);
}

pub proof fn lemma_is_nearest(n: nat, d: nat)
    requires
        d > 0,
    ensures
        exists|count: nat, exponent: nat|
            #[trigger] is_nearest(n, d, rounded(n, d), count, exponent),
{
    assert(power(2, 0) == 1);
    lemma_spacing_is_a_power(n, d, 0);
    lemma_spacing(n, d, 1);
    let unit = spacing_of(n, d, 1);
    let exponent = choose|j: nat| j >= 0 && spacing_of(n, d, power(2, 0)) == #[trigger] power(2, j);
    if unit == 1 && exponent > 0 {
        lemma_power_is_positive(2, (exponent - 1) as nat);
        assert(power(2, exponent) == 2 * power(2, (exponent - 1) as nat));
    }
    let step = unit * d;
    assert(step > 0) by (nonlinear_arith)
        requires
            unit > 0,
            d > 0,
            step == unit * d,
    ;
    let count = nearest(n, step);
    let (q, r) = (n / step, n % step);
    vstd::arithmetic::div_mod::lemma_fundamental_div_mod(n as int, step as int);
    vstd::arithmetic::mul::lemma_mul_is_commutative(step as int, q as int);
    vstd::arithmetic::mul::lemma_mul_is_distributive_add_other_way(step as int, q as int, 1);
    assert(q < 0x20_0000_0000_0000) by (nonlinear_arith)
        requires
            q * step <= n,
            n < 0x20_0000_0000_0000 * step,
            step > 0,
    ;
    assert(count * unit * d == count * step) by (nonlinear_arith)
        requires
            step == unit * d,
    ;
    assert(count == q ==> count * step == n - r);
    assert(count == q + 1 ==> count * step == n - r + step);
    assert(is_nearest(n, d, rounded(n, d), count, exponent));
}

proof fn lemma_rounded_down(n: nat, limit: nat)
    requires
        n >= power(2, limit),
        limit >= 53,
    ensures
        rounded(n, 1) >= power(2, limit),
{
    assert(power(2, 0) == 1);
    lemma_spacing_is_a_power(n, 1, 0);
    lemma_spacing(n, 1, 1);
    let unit = spacing_of(n, 1, 1);
    let j = choose|j: nat| j >= 0 && spacing_of(n, 1, power(2, 0)) == #[trigger] power(2, j);
    lemma_power_is_positive(2, j);
    assert(unit * 1 == unit);
    let q = n / unit;
    vstd::arithmetic::div_mod::lemma_fundamental_div_mod(n as int, unit as int);
    assert((q + 1) * unit == unit * q + unit) by (nonlinear_arith);
    let count = nearest(n, unit);
    if j <= limit {
        let rest = power(2, (limit - j) as nat);
        lemma_power_adds(2, (limit - j) as nat, j);
        assert(q >= rest) by (nonlinear_arith)
            requires
                n >= rest * unit,
                n < (q + 1) * unit,
                unit > 0,
        ;
        assert(count * unit >= rest * unit) by (nonlinear_arith)
            requires
                count >= rest,
        ;
    } else {
        lemma_power_adds(2, (j - limit) as nat, limit);
        lemma_power_is_positive(2, (j - limit) as nat);
        lemma_power_is_positive(2, limit);
        assert(unit >= power(2, limit)) by (nonlinear_arith)
            requires
                unit == power(2, (j - limit) as nat) * power(2, limit),
                power(2, (j - limit) as nat) > 0,
        ;
        assert(q >= 1) by (nonlinear_arith)
            requires
                n < (q + 1) * unit,
                n >= unit,
        ;
        assert(count * unit >= unit) by (nonlinear_arith)
            requires
                count >= 1,
        ;
    }
}

/// Whole numbers from 2^1024 on are all infinity. A number of 53 bits with zeros
/// behind them, up to 1024 bits in all, is never that.
pub proof fn from_1024_bits_on_all_numbers_are_equal(
    n: nat,
    m: nat,
    bits: nat,
    zeros: nat,
    texts: (&str, &str, &str),
    outs: (bool, bool),
)
    requires
        n >= power(2, 1024),
        m >= power(2, 1024),
        bits < 0x20_0000_0000_0000,
        zeros <= 971,
        texts.0@ == decimal(n),
        texts.1@ == decimal(m),
        texts.2@ == decimal(bits * power(2, zeros)),
        call_ensures(equal_numbers, (texts.0, texts.1), outs.0),
        call_ensures(equal_numbers, (texts.0, texts.2), outs.1),
    ensures
        outs.0,
        !outs.1,
{
    lemma_decimal_number(n);
    lemma_decimal_number(m);
    lemma_decimal_number(bits * power(2, zeros));
    lemma_infinite(n);
    lemma_infinite(m);
    lemma_whole_is_kept(bits, zeros);
}

proof fn lemma_infinite(n: nat)
    requires
        n >= power(2, 1024),
    ensures
        double_of(n, 0) == power(2, 2098),
{
    let p = power(2, 1074);
    lemma_power_is_positive(2, 1074);
    lemma_power_adds(2, 1024, 1074);
    assert(n * p >= power(2, 1024) * p) by (nonlinear_arith)
        requires
            n >= power(2, 1024),
    ;
    assert(power(10, 0) == 1);
    assert(n * p * 1 == n * p);
    lemma_rounded_down(n * p, 2098);
}

/// Multiplying, adding and comparing agree: a number grows by what is added, and is at
/// most another where it is not greater.
pub proof fn a_number_is_multiplied_and_compared(
    n: &Natural,
    m: &Natural,
    factor: u64,
    more: u32,
    product: Natural,
    outs: (bool, bool),
)
    requires
        factor <= 0x80_0000_0000_0000,
        call_ensures(Natural::times, (n, factor, more), product),
        call_ensures(Natural::at_most, (n, m), outs.0),
        call_ensures(Natural::at_most, (m, n), outs.1),
    ensures
        product@ - more == n@ * factor,
        outs.0 || outs.1,
        outs.0 && outs.1 <==> n@ == m@,
        outs.0 && !outs.1 <==> n@ < m@,
{
}

} // verus!
