//! Division and multiplication of non-negative numbers with the rounding of
//! IEEE 754 double precision, carried out on integers.
//!
//! A number is written `num / 2^scale`. Results keep 53 significant bits and
//! are the nearest such number, ties going to the even significand.

use vstd::arithmetic::power2::pow2;
use vstd::prelude::*;

verus! {

/// `2^52`, the least significand with 53 bits.
pub const TWO_52: u64 = 4503599627370496;

/// `2^53`, the least number with more than 53 bits.
pub const TWO_53: u64 = 9007199254740992;

/// The integer nearest to `n / d`; of two equally near ones, the even one.
pub open spec fn half_even(n: nat, d: nat) -> nat {
    let q = n / d;
    let r = n % d;
    if 2 * r < d {
        q
    } else if 2 * r > d {
        q + 1
    } else if q % 2 == 0 {
        q
    } else {
        q + 1
    }
}

/// The integer nearest to `n / d`; of two equally near ones, the greater one.
pub open spec fn half_up(n: nat, d: nat) -> nat {
    (2 * n + d) / (2 * d)
}

/// How many low bits `n` has beyond its first 53 significant ones.
pub open spec fn excess(n: nat) -> nat
    decreases n,
{
    if n < TWO_53 {
        0
    } else {
        1 + excess(n / 2)
    }
}

/// `n` rounded to 53 significant bits.
pub open spec fn round53(n: nat) -> nat {
    half_even(n, pow2(excess(n))) * pow2(excess(n))
}

/// How often `n` has to be doubled until `n / d` has 53 bits before the point.
pub open spec fn scale(n: nat, d: nat) -> nat
    decreases
            if n < TWO_52 * d {
                TWO_52 * d - n
            } else {
                0
            },
{
    if n == 0 || n >= TWO_52 * d {
        0
    } else {
        1 + scale(2 * n, d)
    }
}

/// `n / d` rounded to 53 significant bits, for `n < d`: numerator and scale.
pub open spec fn quotient(n: nat, d: nat) -> (nat, nat) {
    let k = scale(n, d);
    (half_even(n * pow2(k), d), k)
}

/// Whether the number `a` is less than the number `b`.
pub open spec fn less(a: (nat, nat), b: (nat, nat)) -> bool {
    a.0 * pow2(b.1) < b.0 * pow2(a.1)
}

/// Whether the number `a` is at most the number `b`.
pub open spec fn at_most(a: (nat, nat), b: (nat, nat)) -> bool {
    a.0 * pow2(b.1) <= b.0 * pow2(a.1)
}

proof fn lemma_half_even_bounds(n: nat, d: nat)
    requires
        d > 0,
    ensures
        half_even(n, d) == n / d || half_even(n, d) == n / d + 1,
        half_even(n, d) * d <= n + d,
        2 * n <= 2 * (half_even(n, d) * d) + d,
        2 * (half_even(n, d) * d) <= 2 * n + d,
{
    let q = n / d;
    let r = n % d;
    vstd::arithmetic::div_mod::lemma_fundamental_div_mod(n as int, d as int);
    assert(d * q == q * d) by (nonlinear_arith);
    assert((q + 1) * d == q * d + d) by (nonlinear_arith);
}

pub fn nearest(n: u128, d: u128) -> (r: u128)
    requires
        0 < d <= 0x1000_0000_0000_0000_0000_0000_0000_0000,
        n <= 0x1000_0000_0000_0000_0000_0000_0000_0000,
    ensures
        r == half_even(n as nat, d as nat),
        r <= n + 1,
{
    let q: u128 = n / d;
    let r: u128 = n % d;
    assert(q <= n) by (nonlinear_arith)
        requires
            q == n / d,
            d > 0,
    ;
    if 2 * r < d {
        q
    } else if 2 * r > d {
        q + 1
    } else if q % 2 == 0 {
        q
    } else {
        q + 1
    }
}

pub fn nearest_up(n: u128, d: u128) -> (r: u128)
    requires
        0 < d <= 0x1000_0000_0000_0000_0000_0000_0000_0000,
        n <= 0x1000_0000_0000_0000_0000_0000_0000_0000,
    ensures
        r == half_up(n as nat, d as nat),
{
    (2 * n + d) / (2 * d)
}

/// `n` rounded to 53 significant bits, as the conversion of an integer to
/// double precision rounds it.
pub fn round_integer(n: u64) -> (r: u128)
    ensures
        r == round53(n as nat),
        r <= 2 * n,
        n > 0 ==> r > 0,
{
    let mut unit: u128 = 1;
    let mut top: u64 = n;
    let ghost mut k: nat = 0;
    proof {
        vstd::arithmetic::power2::lemma2_to64();
    }
    while top >= TWO_53
        invariant
            excess(n as nat) == k + excess(top as nat),
            unit == pow2(k),
            1 <= unit,
            top * unit <= n,
            n > 0 ==> top > 0,
        decreases top,
    {
        let ghost before = top;
        let ghost size = unit;
        assert(unit <= n) by (nonlinear_arith)
            requires
                top * unit <= n,
                top >= 1,
        ;
        top = top / 2;
        unit = unit * 2;
        proof {
            vstd::arithmetic::power2::lemma_pow2_unfold((k + 1) as nat);
            k = k + 1;
            assert(top * unit <= n) by (nonlinear_arith)
                requires
                    top == before / 2,
                    unit == size * 2,
                    before * size <= n,
            ;
        }
    }
    assert(n > 0 ==> unit <= n) by (nonlinear_arith)
        requires
            top * unit <= n,
            n > 0 ==> top > 0,
    ;
    let q = nearest(n as u128, unit);
    proof {
        lemma_half_even_bounds(n as nat, unit as nat);
        if n > 0 {
            assert(q > 0) by (nonlinear_arith)
                requires
                    q == n as nat / unit as nat || q == n as nat / unit as nat + 1,
                    n >= unit > 0,
            ;
            assert(q * unit > 0) by (nonlinear_arith)
                requires
                    q > 0,
                    unit > 0,
            ;
        }
    }
    q * unit
}

/// `n / d` rounded to 53 significant bits, for `0 < n < d`: the numerator, and
/// `2^scale`.
pub fn divide(n: u128, d: u128) -> (r: (u128, u128))
    requires
        0 < n < d <= 0x2_0000_0000_0000_0000,
    ensures
        r.0 == quotient(n as nat, d as nat).0,
        r.1 == pow2(quotient(n as nat, d as nat).1),
        TWO_52 <= r.0 <= TWO_53,
        TWO_53 <= r.1 <= 0x80_0000_0000_0000_0000_0000_0000_0000,
        r.1 > TWO_53 ==> r.1 >= 2 * TWO_53,
{
    let limit: u128 = 4503599627370496 * d;
    let mut num: u128 = n;
    let mut unit: u128 = 1;
    let ghost mut k: nat = 0;
    proof {
        vstd::arithmetic::power2::lemma2_to64();
        vstd::arithmetic::power2::lemma2_to64_rest();
    }
    while num < limit
        invariant
            0 < n < d <= 0x2_0000_0000_0000_0000,
            limit == TWO_52 * d,
            num == n * pow2(k),
            unit == pow2(k),
            scale(n as nat, d as nat) == k + scale(num as nat, d as nat),
            n <= num < 2 * limit,
            1 <= unit <= num,
        decreases 2 * limit - num,
    {
        proof {
            vstd::arithmetic::power2::lemma_pow2_unfold((k + 1) as nat);
            assert(n * (2 * pow2(k)) == 2 * (n * pow2(k))) by (nonlinear_arith);
            k = k + 1;
        }
        num = num * 2;
        unit = unit * 2;
    }
    proof {
        lemma_quotient_range(n as nat, d as nat);
        if k > 54 {
            vstd::arithmetic::power2::lemma_pow2_strictly_increases(54, k);
        }
    }
    (nearest(num, d), unit)
}

pub proof fn lemma_half_even_monotone(n1: nat, n2: nat, d: nat)
    requires
        n1 <= n2,
        d > 0,
    ensures
        half_even(n1, d) <= half_even(n2, d),
{
    vstd::arithmetic::div_mod::lemma_fundamental_div_mod(n1 as int, d as int);
    vstd::arithmetic::div_mod::lemma_fundamental_div_mod(n2 as int, d as int);
    vstd::arithmetic::div_mod::lemma_div_is_ordered(n1 as int, n2 as int, d as int);
    let q1 = n1 / d;
    let q2 = n2 / d;
    if q1 == q2 {
        assert(d * q1 == d * q2);
    }
}

pub proof fn lemma_half_even_scaled(n: nat, d: nat, m: nat)
    requires
        d > 0,
        m > 0,
    ensures
        half_even(n * m, d * m) == half_even(n, d),
{
    let q = n / d;
    let r = n % d;
    vstd::arithmetic::div_mod::lemma_fundamental_div_mod(n as int, d as int);
    assert(n * m == q * (d * m) + r * m) by (nonlinear_arith)
        requires
            n == d * q + r,
    ;
    assert(0 <= r * m < d * m) by (nonlinear_arith)
        requires
            0 <= r < d,
            m > 0,
    ;
    vstd::arithmetic::div_mod::lemma_fundamental_div_mod_converse(
        (n * m) as int,
        (d * m) as int,
        q as int,
        (r * m) as int,
    );
    assert(2 * (r * m) < d * m <==> 2 * r < d) by (nonlinear_arith)
        requires
            m > 0,
    ;
    assert(2 * (r * m) > d * m <==> 2 * r > d) by (nonlinear_arith)
        requires
            m > 0,
    ;
}

pub proof fn lemma_half_even_exact(k: nat, d: nat)
    requires
        d > 0,
    ensures
        half_even(k * d, d) == k,
{
    vstd::arithmetic::div_mod::lemma_fundamental_div_mod_converse(
        (k * d) as int,
        d as int,
        k as int,
        0,
    );
}

pub proof fn lemma_half_up_monotone(n1: nat, n2: nat, d: nat)
    requires
        n1 <= n2,
        d > 0,
    ensures
        half_up(n1, d) <= half_up(n2, d),
{
    vstd::arithmetic::div_mod::lemma_div_is_ordered(
        (2 * n1 + d) as int,
        (2 * n2 + d) as int,
        (2 * d) as int,
    );
}

pub proof fn lemma_half_up_scaled(n: nat, d: nat, m: nat)
    requires
        d > 0,
        m > 0,
    ensures
        half_up(n * m, d * m) == half_up(n, d),
{
    let a = 2 * n + d;
    let b = 2 * d;
    assert(2 * (n * m) + d * m == a * m && 2 * (d * m) == b * m) by (nonlinear_arith)
        requires
            a == 2 * n + d,
            b == 2 * d,
    ;
    let q = a / b;
    let r = a % b;
    vstd::arithmetic::div_mod::lemma_fundamental_div_mod(a as int, b as int);
    assert(a * m == q * (b * m) + r * m) by (nonlinear_arith)
        requires
            a == b * q + r,
    ;
    assert(0 <= r * m < b * m) by (nonlinear_arith)
        requires
            0 <= r < b,
            m > 0,
    ;
    vstd::arithmetic::div_mod::lemma_fundamental_div_mod_converse(
        (a * m) as int,
        (b * m) as int,
        q as int,
        (r * m) as int,
    );
}

proof fn lemma_excess(n: nat)
    ensures
        n < TWO_53 * pow2(excess(n)),
        excess(n) > 0 ==> n >= TWO_52 * pow2(excess(n)),
        n >= TWO_53 ==> excess(n) > 0,
    decreases n,
{
    vstd::arithmetic::power2::lemma2_to64();
    if n >= TWO_53 {
        let e = excess(n / 2);
        lemma_excess(n / 2);
        vstd::arithmetic::power2::lemma_pow2_unfold((e + 1) as nat);
        assert(pow2((e + 1) as nat) == 2 * pow2(e));
        assert(TWO_53 * (2 * pow2(e)) == 2 * (TWO_53 * pow2(e))) by (nonlinear_arith);
        assert(TWO_52 * (2 * pow2(e)) == 2 * (TWO_52 * pow2(e))) by (nonlinear_arith);
    }
}

proof fn lemma_excess_monotone(n1: nat, n2: nat)
    requires
        n1 <= n2,
    ensures
        excess(n1) <= excess(n2),
    decreases n2,
{
    if n1 >= TWO_53 {
        lemma_excess_monotone(n1 / 2, n2 / 2);
    }
}

pub proof fn lemma_round53_monotone(n1: nat, n2: nat)
    requires
        n1 <= n2,
    ensures
        round53(n1) <= round53(n2),
{
    let e1 = excess(n1);
    let e2 = excess(n2);
    lemma_excess_monotone(n1, n2);
    lemma_excess(n1);
    lemma_excess(n2);
    vstd::arithmetic::power2::lemma_pow2_pos(e1);
    vstd::arithmetic::power2::lemma_pow2_pos(e2);
    let p1 = pow2(e1);
    let p2 = pow2(e2);
    if e1 == e2 {
        lemma_half_even_monotone(n1, n2, p1);
        vstd::arithmetic::mul::lemma_mul_inequality(
            half_even(n1, p1) as int,
            half_even(n2, p2) as int,
            p1 as int,
        );
    } else {
        lemma_half_even_monotone(n1, TWO_53 as nat * p1, p1);
        lemma_half_even_exact(TWO_53 as nat, p1);
        lemma_half_even_monotone(TWO_52 as nat * p2, n2, p2);
        lemma_half_even_exact(TWO_52 as nat, p2);
        vstd::arithmetic::power2::lemma_pow2_unfold(e2);
        if e1 + 1 < e2 {
            vstd::arithmetic::power2::lemma_pow2_strictly_increases(e1, (e2 - 1) as nat);
        }
        assert(p2 >= 2 * p1);
        assert(half_even(n1, p1) * p1 <= half_even(n2, p2) * p2) by (nonlinear_arith)
            requires
                half_even(n1, p1) <= 2 * TWO_52,
                half_even(n2, p2) >= TWO_52,
                p2 >= 2 * p1,
        ;
    }
}

proof fn lemma_round53_double(n: nat)
    ensures
        round53(2 * n) == 2 * round53(n),
{
    vstd::arithmetic::power2::lemma2_to64();
    let e = excess(n);
    lemma_excess(n);
    vstd::arithmetic::power2::lemma_pow2_pos(e);
    vstd::arithmetic::power2::lemma_pow2_unfold((e + 1) as nat);
    assert((2 * n) / 2 == n);
    if 2 * n < TWO_53 {
        lemma_half_even_exact(n, 1);
        lemma_half_even_exact(2 * n, 1);
    } else {
        assert(excess(2 * n) == 1 + e);
        lemma_half_even_scaled(n, pow2(e), 2);
        assert(half_even(2 * n, 2 * pow2(e)) == half_even(n, pow2(e)));
        assert(half_even(n, pow2(e)) * (2 * pow2(e)) == 2 * (half_even(n, pow2(e)) * pow2(e)))
            by (nonlinear_arith);
    }
}

pub proof fn lemma_round53_shifted(n: nat, j: nat)
    ensures
        round53(n * pow2(j)) == round53(n) * pow2(j),
    decreases j,
{
    vstd::arithmetic::power2::lemma2_to64();
    if j > 0 {
        let i = (j - 1) as nat;
        lemma_round53_shifted(n, i);
        vstd::arithmetic::power2::lemma_pow2_unfold(j);
        lemma_round53_double(n * pow2(i));
        assert(n * (2 * pow2(i)) == 2 * (n * pow2(i))) by (nonlinear_arith);
        assert(round53(n) * (2 * pow2(i)) == 2 * (round53(n) * pow2(i))) by (nonlinear_arith);
    } else {
        let one = pow2(0);
        assert(n * one == n && round53(n) * one == round53(n)) by (nonlinear_arith)
            requires
                one == 1,
        ;
    }
}

/// Scaled by its scale, a quotient has 53 bits before the point.
proof fn lemma_scale_range(n: nat, d: nat)
    requires
        0 < n < TWO_53 * d,
    ensures
        TWO_52 * d <= n * pow2(scale(n, d)) < TWO_53 * d,
    decreases
            if n < TWO_52 * d {
                TWO_52 * d - n
            } else {
                0
            },
{
    vstd::arithmetic::power2::lemma2_to64();
    if n < TWO_52 * d {
        lemma_scale_range(2 * n, d);
        let k = scale(2 * n, d);
        vstd::arithmetic::power2::lemma_pow2_unfold((k + 1) as nat);
        assert(n * (2 * pow2(k)) == (2 * n) * pow2(k)) by (nonlinear_arith);
    } else {
        assert(n * pow2(0) == n) by (nonlinear_arith)
            requires
                pow2(0) == 1,
        ;
    }
}

pub proof fn lemma_quotient_range(n: nat, d: nat)
    requires
        0 < n < d,
    ensures
        TWO_52 <= quotient(n, d).0 <= TWO_53,
        quotient(n, d).1 >= 53,
{
    assert(n < TWO_53 * d) by (nonlinear_arith)
        requires
            n < d,
    ;
    lemma_scale_range(n, d);
    let k = scale(n, d);
    let m = n * pow2(k);
    vstd::arithmetic::power2::lemma2_to64();
    vstd::arithmetic::power2::lemma2_to64_rest();
    if k <= 52 {
        if k < 52 {
            vstd::arithmetic::power2::lemma_pow2_strictly_increases(k, 52);
        }
        assert(n * pow2(k) < TWO_52 * d) by (nonlinear_arith)
            requires
                n < d,
                pow2(k) <= TWO_52,
        ;
    }
    lemma_half_even_monotone(TWO_52 as nat * d, m, d);
    lemma_half_even_exact(TWO_52 as nat, d);
    lemma_half_even_monotone(m, TWO_53 as nat * d, d);
    lemma_half_even_exact(TWO_53 as nat, d);
}

proof fn lemma_scale_monotone(n1: nat, n2: nat, d: nat)
    requires
        0 < n1 <= n2,
    ensures
        scale(n2, d) <= scale(n1, d),
    decreases
            if n2 < TWO_52 * d {
                TWO_52 * d - n2
            } else {
                0
            },
{
    if n2 < TWO_52 * d {
        lemma_scale_monotone(2 * n1, 2 * n2, d);
    }
}

/// Rounded division is monotone in the dividend.
pub proof fn lemma_quotient_monotone(n1: nat, n2: nat, d: nat)
    requires
        n1 <= n2 < d,
    ensures
        at_most(quotient(n1, d), quotient(n2, d)),
{
    if n1 == 0 {
        vstd::arithmetic::power2::lemma2_to64();
        lemma_half_even_exact(0, d);
        assert(0 * pow2(0) == 0 && 0 * d == 0) by (nonlinear_arith);
        let a = quotient(n1, d);
        let b = quotient(n2, d);
        assert(a.0 == 0);
        assert(0 * pow2(b.1) <= b.0 * pow2(a.1)) by (nonlinear_arith);
    } else {
        lemma_quotient_range(n1, d);
        lemma_quotient_range(n2, d);
        lemma_scale_monotone(n1, n2, d);
        let k1 = scale(n1, d);
        let k2 = scale(n2, d);
        let p1 = pow2(k1);
        let p2 = pow2(k2);
        let q1 = quotient(n1, d).0;
        let q2 = quotient(n2, d).0;
        if k1 == k2 {
            vstd::arithmetic::mul::lemma_mul_inequality(n1 as int, n2 as int, p1 as int);
            lemma_half_even_monotone(n1 * p1, n2 * p1, d);
            vstd::arithmetic::mul::lemma_mul_inequality(q1 as int, q2 as int, p1 as int);
        } else {
            vstd::arithmetic::power2::lemma_pow2_unfold(k1);
            if k2 + 1 < k1 {
                vstd::arithmetic::power2::lemma_pow2_strictly_increases(k2, (k1 - 1) as nat);
            }
            assert(q1 * p2 <= q2 * p1) by (nonlinear_arith)
                requires
                    q1 <= 2 * TWO_52,
                    q2 >= TWO_52,
                    p1 >= 2 * p2,
            ;
        }
    }
}

pub proof fn lemma_less_antitone(a: (nat, nat), b: (nat, nat), t: (nat, nat))
    requires
        at_most(a, b),
        less(b, t),
    ensures
        less(a, t),
{
    vstd::arithmetic::power2::lemma_pow2_pos(a.1);
    vstd::arithmetic::power2::lemma_pow2_pos(b.1);
    vstd::arithmetic::power2::lemma_pow2_pos(t.1);
    let (x, p) = (a.0, pow2(a.1));
    let (y, q) = (b.0, pow2(b.1));
    let (z, r) = (t.0, pow2(t.1));
    assert((x * r) * q < (z * p) * q) by {
        assert((x * q) * r <= (y * p) * r) by (nonlinear_arith)
            requires
                x * q <= y * p,
        ;
        assert((y * r) * p < (z * q) * p) by (nonlinear_arith)
            requires
                y * r < z * q,
                p > 0,
        ;
        assert((x * r) * q == (x * q) * r && (y * p) * r == (y * r) * p && (z * q) * p == (z * p)
            * q) by (nonlinear_arith);
    }
    assert(x * r < z * p) by (nonlinear_arith)
        requires
            (x * r) * q < (z * p) * q,
            q > 0,
    ;
}

/// The nearest integer to a multiple of a number grows with the number.
pub proof fn lemma_product_monotone(a: (nat, nat), b: (nat, nat), m: nat)
    requires
        at_most(a, b),
    ensures
        half_up(round53(a.0 * m), pow2(a.1)) <= half_up(round53(b.0 * m), pow2(b.1)),
        half_even(round53(a.0 * m), pow2(a.1)) <= half_even(round53(b.0 * m), pow2(b.1)),
{
    vstd::arithmetic::power2::lemma_pow2_pos(a.1);
    vstd::arithmetic::power2::lemma_pow2_pos(b.1);
    let p = pow2(a.1);
    let q = pow2(b.1);
    let x = round53(a.0 * m);
    let y = round53(b.0 * m);
    assert((a.0 * m) * q <= (b.0 * m) * p) by (nonlinear_arith)
        requires
            a.0 * q <= b.0 * p,
    ;
    lemma_round53_monotone((a.0 * m) * q, (b.0 * m) * p);
    lemma_round53_shifted(a.0 * m, b.1);
    lemma_round53_shifted(b.0 * m, a.1);
    assert(p * q == q * p) by (nonlinear_arith);
    assert(p * q > 0) by (nonlinear_arith)
        requires
            p > 0,
            q > 0,
    ;
    lemma_half_up_scaled(x, p, q);
    lemma_half_up_scaled(y, q, p);
    lemma_half_up_monotone(x * q, y * p, p * q);
    lemma_half_even_scaled(x, p, q);
    lemma_half_even_scaled(y, q, p);
    lemma_half_even_monotone(x * q, y * p, p * q);
}

/// Rounding to 53 bits is off by no more than one part in `2^52`.
pub proof fn lemma_round53_near(n: nat)
    ensures
        4503599627370496 * round53(n) <= 4503599627370497 * n,
        4503599627370495 * n <= 4503599627370496 * round53(n),
{
    let p = pow2(excess(n));
    vstd::arithmetic::power2::lemma2_to64();
    vstd::arithmetic::power2::lemma_pow2_pos(excess(n));
    lemma_excess(n);
    if excess(n) == 0 {
        lemma_half_even_exact(n, 1);
        assert(round53(n) == n);
    } else {
        lemma_half_even_bounds(n, p);
    }
}

/// Rounded division is off by no more than one part in `2^52`.
pub proof fn lemma_quotient_near(n: nat, d: nat)
    requires
        0 < n < d,
    ensures
        4503599627370496 * (quotient(n, d).0 * d) <= 4503599627370497 * (n * pow2(quotient(n, d).1)),
        4503599627370495 * (n * pow2(quotient(n, d).1)) <= 4503599627370496 * (quotient(n, d).0 * d),
{
    assert(n < TWO_53 * d) by (nonlinear_arith)
        requires
            n < d,
    ;
    lemma_scale_range(n, d);
    lemma_half_even_bounds(n * pow2(scale(n, d)), d);
}

/// The nearest integers are off by no more than one half.
pub proof fn lemma_nearest_near(n: nat, d: nat)
    requires
        d > 0,
    ensures
        2 * (half_even(n, d) * d) <= 2 * n + d,
        2 * n <= 2 * (half_even(n, d) * d) + d,
        2 * (half_up(n, d) * d) <= 2 * n + d,
        2 * n <= 2 * (half_up(n, d) * d) + d,
{
    lemma_half_even_bounds(n, d);
    let a = 2 * n + d;
    let b = 2 * d;
    let q = half_up(n, d);
    vstd::arithmetic::div_mod::lemma_fundamental_div_mod(a as int, b as int);
    assert(b * q == 2 * (q * d)) by (nonlinear_arith)
        requires
            b == 2 * d,
    ;
}

/// Of two integers equally near, the even one is taken where ties go to the
/// even one, and the greater one where they go up.
pub proof fn law_ties(q: nat, d: nat)
    requires
        d > 0,
    ensures
        half_even(2 * q * d + d, 2 * d) == if q % 2 == 0 {
            q
        } else {
            q + 1
        },
        half_up(2 * q * d + d, 2 * d) == q + 1,
{
    let n = 2 * q * d + d;
    assert(n == q * (2 * d) + d) by (nonlinear_arith)
        requires
            n == 2 * q * d + d,
    ;
    vstd::arithmetic::div_mod::lemma_fundamental_div_mod_converse(
        n as int,
        (2 * d) as int,
        q as int,
        d as int,
    );
    assert(2 * n + 2 * d == (q + 1) * (4 * d)) by (nonlinear_arith)
        requires
            n == q * (2 * d) + d,
    ;
    vstd::arithmetic::div_mod::lemma_fundamental_div_mod_converse(
        (2 * n + 2 * d) as int,
        (4 * d) as int,
        q as int + 1,
        0,
    );
}

} // verus!
