//! Numbers in double precision, worked out on whole numbers: each result is the number nearest to
//! the exact one that a mantissa of 53 bits can give, and of two that are equally near the one
//! with the even mantissa.

use crate::clock::Duration;
use vstd::arithmetic::power2::{
    lemma2_to64, lemma2_to64_rest, lemma_pow2_adds, lemma_pow2_pos, lemma_pow2_strictly_increases,
    lemma_pow2_unfold, pow2,
};
use vstd::prelude::*;

verus! {

/// Two to the 52nd: the least mantissa.
pub const LEAST_MANTISSA: u64 = 0x10_0000_0000_0000;

/// Two to the 53rd: what every mantissa stays below.
pub const MANTISSA_END: u64 = 0x20_0000_0000_0000;

pub const NANOS_PER_SECOND: u128 = 1_000_000_000;

/// A number that is not negative: `mantissa` times two to the power of `exponent`. The mantissa
/// of zero is zero, and any other has all its bits.
#[derive(Debug, Clone, Copy, PartialEq, Eq, Structural)]
pub struct Double {
    pub mantissa: u64,
    pub exponent: i32,
}

/// The same, with whole numbers of any size.
#[verifier::ext_equal]
pub struct DoubleView {
    pub mantissa: int,
    pub exponent: int,
}

impl View for Double {
    type V = DoubleView;

    open spec fn view(&self) -> DoubleView {
        DoubleView { mantissa: self.mantissa as int, exponent: self.exponent as int }
    }
}

impl Double {
    /// The mantissa has all its bits, or the number is zero.
    pub open spec fn wf(&self) -> bool {
        if self.mantissa == 0 {
            self.exponent == 0
        } else {
            LEAST_MANTISSA <= self.mantissa < MANTISSA_END
        }
    }
}

/// `num / den` times two to the power of `exponent`, with `den` doubled until the fraction is
/// below the end of the mantissas.
pub open spec fn narrowed(num: int, den: int, exponent: int) -> (int, int, int)
    decreases num - den,
{
    if 0 < den && num >= MANTISSA_END * den {
        narrowed(num, 2 * den, exponent + 1)
    } else {
        (num, den, exponent)
    }
}

/// `num / den` times two to the power of `exponent`, with `num` doubled until the fraction is no
/// less than the least mantissa.
pub open spec fn widened(num: int, den: int, exponent: int) -> (int, int, int)
    decreases 2 * (LEAST_MANTISSA * den) - num,
{
    if 0 < num < LEAST_MANTISSA * den {
        widened(2 * num, den, exponent - 1)
    } else {
        (num, den, exponent)
    }
}

/// The whole number nearest to `num / den`, the even one of two that are equally near.
pub open spec fn half_even(num: int, den: int) -> int {
    let below = num / den;
    let rest = num % den;
    if 2 * rest < den || (2 * rest == den && below % 2 == 0) {
        below
    } else {
        below + 1
    }
}

/// The double nearest to `num / den` times two to the power of `exponent`.
pub open spec fn nearest(num: int, den: int, exponent: int) -> DoubleView {
    if num == 0 {
        DoubleView { mantissa: 0, exponent: 0 }
    } else {
        let (n, d, e) = narrowed(num, den, exponent);
        let (n, d, e) = widened(n, d, e);
        let mantissa = half_even(n, d);
        if mantissa == MANTISSA_END {
            DoubleView { mantissa: LEAST_MANTISSA as int, exponent: e + 1 }
        } else {
            DoubleView { mantissa, exponent: e }
        }
    }
}

/// `a + b`.
pub open spec fn sum(a: DoubleView, b: DoubleView) -> DoubleView {
    if a.mantissa == 0 {
        b
    } else if b.mantissa == 0 {
        a
    } else {
        let e = if a.exponent <= b.exponent { a.exponent } else { b.exponent };
        nearest(
            a.mantissa * pow2((a.exponent - e) as nat) + b.mantissa * pow2(
                (b.exponent - e) as nat,
            ),
            1,
            e,
        )
    }
}

/// `a * b`.
pub open spec fn product(a: DoubleView, b: DoubleView) -> DoubleView {
    nearest(a.mantissa * b.mantissa, 1, a.exponent + b.exponent)
}

/// `a / b`, where `b` is not zero.
pub open spec fn quotient(a: DoubleView, b: DoubleView) -> DoubleView {
    nearest(a.mantissa, b.mantissa, a.exponent - b.exponent)
}

/// The whole part of `a`.
pub open spec fn floor(a: DoubleView) -> int {
    if a.exponent >= 0 {
        a.mantissa * pow2(a.exponent as nat)
    } else {
        a.mantissa / (pow2((-a.exponent) as nat) as int)
    }
}

/// How far `a` is from one, where it is below the end of the mantissas.
pub open spec fn off_one(a: DoubleView) -> DoubleView {
    let one = pow2((-a.exponent) as nat) as int;
    nearest(
        if one >= a.mantissa {
            one - a.mantissa
        } else {
            a.mantissa - one
        },
        1,
        a.exponent,
    )
}

/// `a >= b`.
pub open spec fn at_least(a: DoubleView, b: DoubleView) -> bool {
    if b.mantissa == 0 {
        true
    } else if a.mantissa == 0 {
        false
    } else {
        a.exponent > b.exponent || (a.exponent == b.exponent && a.mantissa >= b.mantissa)
    }
}

/// A span in seconds: the whole seconds, and the rest of it as a fraction of one.
pub open spec fn seconds(span: Duration) -> DoubleView {
    sum(
        nearest(span.nanos as int / NANOS_PER_SECOND as int, 1, 0),
        nearest(span.nanos as int % NANOS_PER_SECOND as int, NANOS_PER_SECOND as int, 0),
    )
}

proof fn lemma_powers()
    ensures
        pow2(0) == 1,
        pow2(34) == 0x4_0000_0000,
        pow2(52) == LEAST_MANTISSA,
        pow2(53) == MANTISSA_END,
        pow2(74) == 0x400_0000_0000_0000_0000,
        pow2(87) == 0x80_0000_0000_0000_0000_0000,
        pow2(98) == 0x4_0000_0000_0000_0000_0000_0000,
{
    lemma2_to64();
    lemma2_to64_rest();
    lemma_pow2_adds(64, 10);
    lemma_pow2_adds(64, 23);
    lemma_pow2_adds(64, 34);
}

/// Where two to the power of `k` is below that of `end`, `k` is below `end`.
proof fn lemma_below(k: nat, end: nat)
    requires
        pow2(k) < pow2(end),
    ensures
        k < end,
{
    if k > end {
        lemma_pow2_strictly_increases(end, k);
    }
}

proof fn lemma_narrowed_stays(num: int, den: int, exponent: int)
    requires
        0 <= num,
        0 < den,
    ensures
        narrowed(num, den, exponent).0 == num,
        narrowed(num, den, exponent).1 > 0,
    decreases num - den,
{
    if num >= MANTISSA_END * den {
        lemma_narrowed_stays(num, 2 * den, exponent + 1);
    }
}

proof fn lemma_widened_stays(num: int, den: int, exponent: int)
    requires
        0 <= num,
        0 < den,
    ensures
        widened(num, den, exponent).0 >= 0,
        num > 0 ==> widened(num, den, exponent).0 >= LEAST_MANTISSA * den,
        widened(num, den, exponent).1 == den,
    decreases 2 * (LEAST_MANTISSA * den) - num,
{
    if 0 < num < LEAST_MANTISSA * den {
        lemma_widened_stays(2 * num, den, exponent - 1);
    }
}

/// What is nearest to a number is zero where that is, and above it where that is.
pub proof fn lemma_nearest(num: int, den: int, exponent: int)
    requires
        0 <= num,
        0 < den,
    ensures
        nearest(num, den, exponent).mantissa >= 0,
        nearest(num, den, exponent).mantissa == 0 <==> num == 0,
{
    lemma_narrowed_stays(num, den, exponent);
    let (n, d, e) = narrowed(num, den, exponent);
    lemma_widened_stays(n, d, e);
    let (n, d, e) = widened(n, d, e);
    if num > 0 {
        assert(n / d >= LEAST_MANTISSA) by (nonlinear_arith)
            requires
                n >= LEAST_MANTISSA * d,
                d > 0,
        ;
    }
}

/// The seconds of a span are not negative, and none only where the span is none.
pub proof fn lemma_seconds(span: Duration)
    ensures
        seconds(span).mantissa >= 0,
        seconds(span).mantissa == 0 <==> span.nanos == 0,
{
    let secs = span.nanos as int / NANOS_PER_SECOND as int;
    let rest = span.nanos as int % NANOS_PER_SECOND as int;
    lemma_nearest(secs, 1, 0);
    lemma_nearest(rest, NANOS_PER_SECOND as int, 0);
    let (a, b) = (nearest(secs, 1, 0), nearest(rest, NANOS_PER_SECOND as int, 0));
    let e = if a.exponent <= b.exponent { a.exponent } else { b.exponent };
    let (up_a, up_b) = (pow2((a.exponent - e) as nat), pow2((b.exponent - e) as nat));
    lemma_pow2_pos((a.exponent - e) as nat);
    lemma_pow2_pos((b.exponent - e) as nat);
    assert(a.mantissa * up_a + b.mantissa * up_b >= 0) by (nonlinear_arith)
        requires
            a.mantissa >= 0,
            b.mantissa >= 0,
            up_a > 0,
            up_b > 0,
    ;
    if a.mantissa > 0 {
        assert(a.mantissa * up_a + b.mantissa * up_b > 0) by (nonlinear_arith)
            requires
                a.mantissa > 0,
                b.mantissa >= 0,
                up_a > 0,
                up_b > 0,
        ;
    }
    lemma_nearest(a.mantissa * up_a + b.mantissa * up_b, 1, e);
}

/// The whole part of a quotient is not negative.
pub proof fn lemma_quotient(a: DoubleView, b: DoubleView)
    requires
        a.mantissa >= 0,
        b.mantissa > 0,
    ensures
        floor(quotient(a, b)) >= 0,
{
    lemma_nearest(a.mantissa, b.mantissa, a.exponent - b.exponent);
    let q = quotient(a, b);
    if q.exponent >= 0 {
        assert(q.mantissa * pow2(q.exponent as nat) >= 0) by (nonlinear_arith)
            requires
                q.mantissa >= 0,
        ;
    } else {
        let unit = pow2((-q.exponent) as nat);
        lemma_pow2_pos((-q.exponent) as nat);
        assert(q.mantissa / (unit as int) >= 0) by (nonlinear_arith)
            requires
                q.mantissa >= 0,
                unit > 0,
        ;
    }
}

/// Two to the power of `k`.
fn two_to(k: u32) -> (r: u128)
    requires
        k <= 98,
    ensures
        r == pow2(k as nat),
{
    let mut r: u128 = 1;
    let mut i: u32 = 0;
    proof {
        lemma_powers();
    }
    while i < k
        invariant
            i <= k <= 98,
            r == pow2(i as nat),
        decreases k - i,
    {
        proof {
            lemma_powers();
            lemma_pow2_strictly_increases(i as nat, 98);
            lemma_pow2_unfold((i + 1) as nat);
        }
        r = r * 2;
        i += 1;
    }
    r
}

/// Rounds a fraction that has all the bits of a mantissa.
fn rounded(num: u128, den: u128, exponent: i32) -> (r: Double)
    requires
        0 < den,
        LEAST_MANTISSA * den <= num < MANTISSA_END * den,
        den <= 0x400_0000_0000_0000_0000,
        -1000 <= exponent <= 1000,
    ensures
        r@ == ({
            let mantissa = half_even(num as int, den as int);
            if mantissa == MANTISSA_END {
                DoubleView { mantissa: LEAST_MANTISSA as int, exponent: exponent + 1 }
            } else {
                DoubleView { mantissa, exponent: exponent as int }
            }
        }),
        r.mantissa != 0,
        r.wf(),
        r.exponent == exponent || r.exponent == exponent + 1,
{
    let below: u128 = num / den;
    let rest: u128 = num % den;
    assert(LEAST_MANTISSA <= below < MANTISSA_END) by (nonlinear_arith)
        requires
            0 < den,
            LEAST_MANTISSA * den <= num < MANTISSA_END * den,
            below == num as int / den as int,
    ;
    let mantissa: u128 = if 2 * rest < den || (2 * rest == den && below % 2 == 0) {
        below
    } else {
        below + 1
    };
    if mantissa == MANTISSA_END as u128 {
        Double { mantissa: LEAST_MANTISSA, exponent: exponent + 1 }
    } else {
        Double { mantissa: mantissa as u64, exponent }
    }
}

/// The double nearest to `num / den` times two to the power of `exponent`.
fn to_nearest(num: u128, den: u128, exponent: i32) -> (r: Double)
    requires
        0 < den <= 0x400_0000_0000_0000_0000,
        num < 0x4000_0000_0000_0000_0000_0000_0000_0000,
        num == 0 || den <= 0x4_0000_0000 * num,
        -500 <= exponent <= 500,
    ensures
        r@ == nearest(num as int, den as int, exponent as int),
        r.wf(),
        r.mantissa == 0 <==> num == 0,
        num != 0 ==> exponent - 86 <= r.exponent <= exponent + 75,
        num != 0 && num < LEAST_MANTISSA * den ==> r.exponent <= exponent,
        num >= den ==> r.exponent >= exponent - 52,
        num != 0 && num < den ==> r.exponent <= exponent - 52,
{
    if num == 0 {
        return Double { mantissa: 0, exponent: 0 };
    }
    let mut n: u128 = num;
    let mut d: u128 = den;
    let mut e: i32 = exponent;
    let ghost mut k: nat = 0;
    proof {
        lemma_powers();
        assert(den * pow2(0) == den) by (nonlinear_arith)
            requires
                pow2(0) == 1,
        ;
    }
    while n >= MANTISSA_END as u128 * d
        invariant
            0 < den <= d <= 0x400_0000_0000_0000_0000,
            0 < num < 0x4000_0000_0000_0000_0000_0000_0000_0000,
            n == num,
            -500 <= exponent <= 500,
            d == den * pow2(k),
            e == exponent + k,
            k <= 74,
            k == 0 || num >= LEAST_MANTISSA * d,
            narrowed(num as int, den as int, exponent as int) == narrowed(
                n as int,
                d as int,
                e as int,
            ),
        decreases n - d,
    {
        let ghost before = d;
        assert(d < 0x200_0000_0000_0000_0000) by (nonlinear_arith)
            requires
                MANTISSA_END * d <= n,
                n < 0x4000_0000_0000_0000_0000_0000_0000_0000,
        ;
        d = d * 2;
        e = e + 1;
        proof {
            lemma_powers();
            lemma_pow2_unfold(k + 1);
            assert(d == den * pow2(k + 1)) by (nonlinear_arith)
                requires
                    d == before * 2,
                    before == den * pow2(k),
                    pow2(k + 1) == 2 * pow2(k),
            ;
            assert(pow2(k) < pow2(74)) by (nonlinear_arith)
                requires
                    before == den * pow2(k),
                    0 < den,
                    before < 0x200_0000_0000_0000_0000,
                    pow2(74) == 0x400_0000_0000_0000_0000,
            ;
            lemma_below(k, 74);
            k = k + 1;
        }
    }
    let ghost raised = e;
    let ghost mut j: nat = 0;
    assert(num * pow2(0) == num) by (nonlinear_arith)
        requires
            pow2(0) == 1,
    ;
    while n < LEAST_MANTISSA as u128 * d
        invariant
            0 < den <= d <= 0x400_0000_0000_0000_0000,
            0 < num <= n < MANTISSA_END * d,
            num == 0 || den <= 0x4_0000_0000 * num,
            -500 <= exponent <= 500,
            exponent <= raised <= exponent + 74,
            n == num * pow2(j),
            e == raised - j,
            j <= 86,
            j > 0 ==> num < LEAST_MANTISSA * d,
            raised > exponent ==> num >= LEAST_MANTISSA * d,
            raised == exponent ==> d == den,
            widened(num as int, d as int, raised as int) == widened(
                n as int,
                d as int,
                e as int,
            ),
        decreases 2 * (LEAST_MANTISSA * d) - n,
    {
        let ghost before = n;
        assert(raised == exponent) by {
            lemma_powers();
            lemma_pow2_pos(j);
            assert(n >= num) by (nonlinear_arith)
                requires
                    n == num * pow2(j),
                    pow2(j) > 0,
            ;
        }
        n = n * 2;
        e = e - 1;
        proof {
            lemma_powers();
            lemma_pow2_pos(j);
            lemma_pow2_unfold(j + 1);
            assert(n == num * pow2(j + 1)) by (nonlinear_arith)
                requires
                    n == before * 2,
                    before == num * pow2(j),
                    pow2(j + 1) == 2 * pow2(j),
            ;
            lemma_pow2_adds(52, 34);
            assert(pow2(j) < pow2(86)) by (nonlinear_arith)
                requires
                    before == num * pow2(j),
                    before < LEAST_MANTISSA * d,
                    d <= 0x4_0000_0000 * num,
                    0 < num,
                    pow2(86) == pow2(52) * pow2(34),
                    pow2(52) == LEAST_MANTISSA,
                    pow2(34) == 0x4_0000_0000,
            ;
            lemma_below(j, 86);
            j = j + 1;
        }
    }
    proof {
        lemma_powers();
        lemma_pow2_pos(j);
        if num >= den && j > 0 {
            assert(pow2(j) < pow2(53)) by (nonlinear_arith)
                requires
                    n == num * pow2(j),
                    n < MANTISSA_END * d,
                    d == den,
                    den <= num,
                    0 < num,
                    pow2(53) == MANTISSA_END,
            ;
            lemma_below(j, 53);
        }
        if num < den {
            assert(pow2(j) > pow2(52)) by (nonlinear_arith)
                requires
                    n == num * pow2(j),
                    n >= LEAST_MANTISSA * d,
                    d >= den,
                    den > num,
                    0 < num,
                    pow2(52) == LEAST_MANTISSA,
            ;
            lemma_below(52, j);
        }
    }
    rounded(n, d, e)
}

/// Dividing by a power of two as often as there are bits too many stops at the last that is
/// needed.
proof fn lemma_narrowed(num: int, den: int, exponent: int, k: nat)
    requires
        0 < den,
        LEAST_MANTISSA * (den * pow2(k)) <= num < MANTISSA_END * (den * pow2(k)),
    ensures
        narrowed(num, den, exponent) == (num, den * pow2(k), exponent + k),
    decreases k,
{
    lemma_powers();
    if k == 0 {
        assert(den * pow2(0) == den) by (nonlinear_arith)
            requires
                pow2(0) == 1,
        ;
    } else {
        let half = pow2((k - 1) as nat);
        lemma_pow2_unfold(k);
        lemma_pow2_pos((k - 1) as nat);
        assert(den * pow2(k) == (2 * den) * half) by (nonlinear_arith)
            requires
                pow2(k) == 2 * half,
        ;
        assert(MANTISSA_END * den <= LEAST_MANTISSA * ((2 * den) * half)) by (nonlinear_arith)
            requires
                half >= 1,
                0 < den,
                MANTISSA_END == 2 * LEAST_MANTISSA,
        ;
        lemma_narrowed(num, 2 * den, exponent + 1, (k - 1) as nat);
    }
}

/// A number far below the last bit of another does not change it.
proof fn lemma_too_small_to_add(a: Double, b: Double)
    requires
        a.wf(),
        b.wf(),
        a.mantissa != 0,
        b.mantissa != 0,
        a.exponent > b.exponent + 54,
    ensures
        sum(a@, b@) == a@,
{
    let k = (a.exponent - b.exponent) as nat;
    let unit = pow2(k) as int;
    lemma_powers();
    lemma_pow2_strictly_increases(54, k);
    lemma_pow2_unfold(54);
    assert(2 * b.mantissa < unit);
    let num = a.mantissa * unit + b.mantissa;
    assert(a.mantissa * pow2((a.exponent - b.exponent) as nat) + b.mantissa * pow2(0) == num)
        by (nonlinear_arith)
        requires
            pow2(0) == 1,
            pow2((a.exponent - b.exponent) as nat) == unit,
            num == a.mantissa * unit + b.mantissa,
    ;
    assert(LEAST_MANTISSA * (1 * unit) <= num < MANTISSA_END * (1 * unit)) by (nonlinear_arith)
        requires
            num == a.mantissa * unit + b.mantissa,
            LEAST_MANTISSA <= a.mantissa,
            a.mantissa + 1 <= MANTISSA_END,
            0 <= 2 * b.mantissa < unit,
    ;
    lemma_narrowed(num, 1, b.exponent as int, k);
    assert(1 * pow2(k) == unit);
    assert(num / unit == a.mantissa && num % unit == b.mantissa) by (nonlinear_arith)
        requires
            num == a.mantissa * unit + b.mantissa,
            0 <= 2 * b.mantissa < unit,
    ;
}

impl Double {
    /// `self + other`, where neither's last bit lies below that of `other`.
    fn plus(&self, other: &Double) -> (r: Double)
        requires
            self.wf(),
            other.wf(),
            self.mantissa != 0 && other.mantissa != 0 ==> other.exponent <= self.exponent,
            -86 <= self.exponent <= 75,
            -86 <= other.exponent <= 75,
        ensures
            r@ == sum(self@, other@),
            r.wf(),
            r.mantissa == 0 <==> self.mantissa == 0 && other.mantissa == 0,
            -172 <= r.exponent <= 150,
    {
        if self.mantissa == 0 {
            return *other;
        }
        if other.mantissa == 0 {
            return *self;
        }
        let apart: u32 = (self.exponent - other.exponent) as u32;
        if apart > 54 {
            proof {
                lemma_too_small_to_add(*self, *other);
            }
            return *self;
        }
        let unit: u128 = two_to(apart);
        proof {
            lemma_powers();
            lemma_pow2_pos(apart as nat);
            if apart < 54 {
                lemma_pow2_strictly_increases(apart as nat, 54);
            }
            lemma_pow2_unfold(54);
            assert(self.mantissa * unit <= 0x20_0000_0000_0000 * 0x40_0000_0000_0000)
                by (nonlinear_arith)
                requires
                    0 <= self.mantissa <= 0x20_0000_0000_0000,
                    0 <= unit <= 0x40_0000_0000_0000,
            ;
            assert(other.mantissa * pow2(0) == other.mantissa) by (nonlinear_arith)
                requires
                    pow2(0) == 1,
            ;
            assert(self.mantissa * unit >= 0) by (nonlinear_arith)
                requires
                    self.mantissa >= 0,
                    unit >= 0,
            ;
        }
        to_nearest(
            self.mantissa as u128 * unit + other.mantissa as u128,
            1,
            other.exponent,
        )
    }

    /// `self * other`.
    pub fn times(&self, other: &Double) -> (r: Double)
        requires
            self.wf(),
            other.wf(),
            -500 <= self.exponent + other.exponent <= 500,
        ensures
            r@ == product(self@, other@),
            r.wf(),
    {
        assert(0 <= self.mantissa * other.mantissa <= 0x20_0000_0000_0000 * 0x20_0000_0000_0000)
            by (nonlinear_arith)
            requires
                0 <= self.mantissa <= 0x20_0000_0000_0000,
                0 <= other.mantissa <= 0x20_0000_0000_0000,
        ;
        to_nearest(
            self.mantissa as u128 * other.mantissa as u128,
            1,
            self.exponent + other.exponent,
        )
    }

    /// `self / other`.
    pub fn over(&self, other: &Double) -> (r: Double)
        requires
            self.wf(),
            other.wf(),
            other.mantissa != 0,
            -500 <= self.exponent - other.exponent <= 500,
        ensures
            r@ == quotient(self@, other@),
            r.wf(),
            r.mantissa == 0 ==> self.mantissa == 0,
            -600 <= r.exponent <= 600,
    {
        to_nearest(
            self.mantissa as u128,
            other.mantissa as u128,
            self.exponent - other.exponent,
        )
    }

    /// The whole part, or the highest number where that is less.
    pub fn whole_part(&self) -> (r: usize)
        requires
            self.wf(),
            -600 <= self.exponent <= 600,
        ensures
            r == (if floor(self@) <= usize::MAX {
                floor(self@)
            } else {
                usize::MAX as int
            }),
    {
        if self.mantissa == 0 {
            proof {
                lemma_powers();
                assert(0 * pow2(0) == 0);
            }
            return 0;
        }
        if self.exponent >= 0 {
            let up: u32 = self.exponent as u32;
            if up > 12 {
                proof {
                    lemma2_to64();
                    lemma_pow2_strictly_increases(12, up as nat);
                    assert(self.mantissa * pow2(up as nat) > 0xFFFF_FFFF_FFFF_FFFF)
                        by (nonlinear_arith)
                        requires
                            self.mantissa >= 0x10_0000_0000_0000,
                            pow2(up as nat) > 0x1000,
                    ;
                }
                return usize::MAX;
            }
            let unit: u128 = two_to(up);
            proof {
                lemma2_to64();
                if up < 12 {
                    lemma_pow2_strictly_increases(up as nat, 12);
                }
                assert(0 <= self.mantissa * unit <= 0x20_0000_0000_0000 * 0x1000)
                    by (nonlinear_arith)
                    requires
                        0 <= self.mantissa <= 0x20_0000_0000_0000,
                        0 <= unit <= 0x1000,
                ;
            }
            let whole: u128 = self.mantissa as u128 * unit;
            if whole <= usize::MAX as u128 {
                whole as usize
            } else {
                usize::MAX
            }
        } else {
            let down: u32 = (-self.exponent) as u32;
            if down > 53 {
                proof {
                    lemma_powers();
                    lemma_pow2_strictly_increases(53, down as nat);
                    assert(self.mantissa as int / (pow2(down as nat) as int) == 0)
                        by (nonlinear_arith)
                        requires
                            0 <= self.mantissa < pow2(down as nat),
                    ;
                }
                return 0;
            }
            let unit: u128 = two_to(down);
            proof {
                lemma_pow2_pos(down as nat);
                assert(self.mantissa as int / unit as int <= self.mantissa) by (nonlinear_arith)
                    requires
                        unit >= 1,
                        self.mantissa >= 0,
                ;
            }
            let whole: u128 = self.mantissa as u128 / unit;
            if whole <= usize::MAX as u128 {
                whole as usize
            } else {
                usize::MAX
            }
        }
    }

    /// How far the number is from one.
    pub fn off_one(&self) -> (r: Double)
        requires
            self.wf(),
            -86 <= self.exponent <= 0,
        ensures
            r@ == off_one(self@),
            r.wf(),
    {
        let one: u128 = two_to((-self.exponent) as u32);
        proof {
            lemma_powers();
            lemma_pow2_strictly_increases((-self.exponent) as nat, 87);
        }
        let mantissa: u128 = self.mantissa as u128;
        let off: u128 = if one >= mantissa {
            one - mantissa
        } else {
            mantissa - one
        };
        to_nearest(off, 1, self.exponent)
    }

    /// `self >= other`.
    pub fn at_least(&self, other: &Double) -> (r: bool)
        ensures
            r == at_least(self@, other@),
    {
        if other.mantissa == 0 {
            true
        } else if self.mantissa == 0 {
            false
        } else {
            self.exponent > other.exponent || (self.exponent == other.exponent && self.mantissa
                >= other.mantissa)
        }
    }
}

/// A whole number.
pub fn whole(n: u64) -> (r: Double)
    ensures
        r@ == nearest(n as int, 1, 0),
        r.wf(),
        -86 <= r.exponent <= 75,
{
    to_nearest(n as u128, 1, 0)
}

/// One whole number over another.
pub fn ratio(a: u64, b: u64) -> (r: Double)
    requires
        0 < b <= 0xFFFF_FFFF,
        a < LEAST_MANTISSA,
    ensures
        r@ == nearest(a as int, b as int, 0),
        r.wf(),
        -86 <= r.exponent <= 0,
{
    assert(a < LEAST_MANTISSA * b) by (nonlinear_arith)
        requires
            a < LEAST_MANTISSA,
            0 < b,
    ;
    to_nearest(a as u128, b as u128, 0)
}

/// A span in seconds.
pub fn to_seconds(span: Duration) -> (r: Double)
    ensures
        r@ == seconds(span),
        r.wf(),
        -172 <= r.exponent <= 150,
        r.mantissa == 0 <==> span.nanos == 0,
{
    let whole: Double = to_nearest(span.nanos / NANOS_PER_SECOND, 1, 0);
    let part: Double = to_nearest(span.nanos % NANOS_PER_SECOND, NANOS_PER_SECOND, 0);
    whole.plus(&part)
}

} // verus!
