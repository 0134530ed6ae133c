//! How full a context window is: the cells of the bar, its color and the
//! percentage, computed as double-precision arithmetic computes them, and the
//! line that shows them.

use crate::rounding::{divide, nearest, nearest_up, round_integer, TWO_53};
use vstd::arithmetic::power2::pow2;
use crate::text::{decimal, push_decimal, push_repeated, repeated};
use vstd::prelude::*;
use vstd::string::*;

verus! {

/// Number of cells in the bar.
pub const WIDTH: u64 = 24;

/// The color of the filled cells.
#[derive(Debug, Clone, Copy, PartialEq, Eq, Structural)]
pub enum Level {
    Green,
    Yellow,
    Red,
}

/// A measured fill.
#[derive(Debug, Clone, Copy, PartialEq, Eq, Structural)]
pub struct Gauge {
    /// Filled cells, out of [`WIDTH`].
    pub filled: u64,
    pub level: Level,
    pub percent: u64,
}

/// The filled fraction of the window as a double-precision number, clamped to
/// at most 1: `used / capacity`, each rounded to 53 bits before the division.
pub open spec fn fraction(used: nat, capacity: nat) -> (nat, nat) {
    let u = crate::rounding::round53(used);
    let c = crate::rounding::round53(capacity);
    if u >= c {
        (1, 0)
    } else {
        crate::rounding::quotient(u, c)
    }
}

/// The number of filled cells for a fraction: the nearest to `WIDTH` times it.
pub open spec fn filled_cells(f: (nat, nat)) -> nat {
    let cells = crate::rounding::half_up(crate::rounding::round53(f.0 * 24), pow2(f.1));
    if cells <= WIDTH {
        cells
    } else {
        WIDTH as nat
    }
}

/// The color for a fraction: green below 0.7, yellow below 0.9, red from there.
pub open spec fn level_of(f: (nat, nat)) -> Level {
    if crate::rounding::less(f, crate::rounding::quotient(7, 10)) {
        Level::Green
    } else if crate::rounding::less(f, crate::rounding::quotient(9, 10)) {
        Level::Yellow
    } else {
        Level::Red
    }
}

/// The percentage shown for a fraction.
pub open spec fn percent_of(f: (nat, nat)) -> nat {
    crate::rounding::half_even(crate::rounding::round53(f.0 * 100), pow2(f.1))
}

proof fn lemma_scale_exact(n: nat, d: nat, k: nat)
    requires
        0 < n,
        0 < k,
        n * pow2(k) >= crate::rounding::TWO_52 * d,
        n * pow2((k - 1) as nat) < crate::rounding::TWO_52 * d,
    ensures
        crate::rounding::scale(n, d) == k,
    decreases k,
{
    vstd::arithmetic::power2::lemma2_to64();
    vstd::arithmetic::power2::lemma_pow2_unfold(k);
    let half = pow2((k - 1) as nat);
    vstd::arithmetic::power2::lemma_pow2_pos((k - 1) as nat);
    assert(n <= n * half) by (nonlinear_arith)
        requires
            half >= 1,
    ;
    assert((2 * n) * half == n * (2 * half)) by (nonlinear_arith);
    if k > 1 {
        vstd::arithmetic::power2::lemma_pow2_unfold((k - 1) as nat);
        let quarter = pow2((k - 2) as nat);
        assert((2 * n) * quarter == n * (2 * quarter)) by (nonlinear_arith);
        lemma_scale_exact(2 * n, d, (k - 1) as nat);
    } else {
        assert(crate::rounding::scale(2 * n, d) == 0) by {
            assert(n * (2 * half) == 2 * n) by (nonlinear_arith)
                requires
                    half == 1,
            ;
        }
    }
}

/// The double-precision numbers nearest to 0.7 and 0.9.
proof fn lemma_thresholds()
    ensures
        crate::rounding::quotient(7, 10) == (6305039478318694nat, 53nat),
        crate::rounding::quotient(9, 10) == (8106479329266893nat, 53nat),
        pow2(53) == TWO_53,
{
    vstd::arithmetic::power2::lemma2_to64();
    vstd::arithmetic::power2::lemma2_to64_rest();
    lemma_scale_exact(7, 10, 53);
    lemma_scale_exact(9, 10, 53);
}

/// Whether `num / unit` is below the limit `bound / 2^53`.
fn below(num: u128, unit: u128, bound: u128) -> (r: bool)
    requires
        num <= TWO_53,
        crate::rounding::TWO_52 < bound <= TWO_53,
        1 <= unit,
        unit > TWO_53 ==> unit >= 2 * TWO_53,
    ensures
        r == (num * TWO_53 < bound * unit),
{
    if unit <= TWO_53 as u128 {
        assert(num * TWO_53 <= TWO_53 * TWO_53 && bound * unit <= TWO_53 * TWO_53)
            by (nonlinear_arith)
            requires
                num <= TWO_53,
                bound <= TWO_53,
                unit <= TWO_53,
        ;
        num * (TWO_53 as u128) < bound * unit
    } else {
        assert(num * TWO_53 < bound * unit) by {
            vstd::arithmetic::mul::lemma_mul_inequality(num as int, TWO_53 as int, TWO_53 as int);
            vstd::arithmetic::mul::lemma_mul_upper_bound(
                crate::rounding::TWO_52 + 1,
                bound as int,
                2 * TWO_53,
                unit as int,
            );
        }
        true
    }
}

/// Measures how full a window of `capacity` tokens is with `used` of them.
pub fn measure(used: u64, capacity: u64) -> (g: Gauge)
    requires
        capacity > 0,
    ensures
        g.filled == filled_cells(fraction(used as nat, capacity as nat)),
        g.filled <= WIDTH,
        g.level == level_of(fraction(used as nat, capacity as nat)),
        g.percent == percent_of(fraction(used as nat, capacity as nat)),
{
    let u = round_integer(used);
    let c = round_integer(capacity);
    let ghost f = fraction(used as nat, capacity as nat);
    proof {
        vstd::arithmetic::power2::lemma2_to64();
        lemma_thresholds();
    }
    let parts: (u128, u128) = if u >= c {
        (1, 1)
    } else if u == 0 {
        (0, 1)
    } else {
        divide(u, c)
    };
    let num: u128 = parts.0;
    let unit: u128 = parts.1;
    assert(u == 0 ==> 0nat / c as nat == 0 && 0nat % c as nat == 0) by (nonlinear_arith)
        requires
            c > 0,
    ;
    assert(num == f.0 && unit == pow2(f.1));
    let cells: u128 = nearest_up(round_integer((num * 24) as u64), unit);
    let filled: u64 = if cells <= WIDTH as u128 {
        cells as u64
    } else {
        WIDTH
    };
    let level = if below(num, unit, 6305039478318694) {
        Level::Green
    } else if below(num, unit, 8106479329266893) {
        Level::Yellow
    } else {
        Level::Red
    };
    let percent: u128 = nearest(round_integer((num * 100) as u64), unit);
    Gauge { filled, level, percent: percent as u64 }
}

/// The terminal sequence that switches to a color.
pub open spec fn color(level: Level) -> Seq<char> {
    match level {
        Level::Green => "\x1b[32m"@,
        Level::Yellow => "\x1b[33m"@,
        Level::Red => "\x1b[31m"@,
    }
}

/// The line that shows how full the context is.
pub open spec fn bar_text(used: nat, capacity: Option<u64>) -> Seq<char> {
    match capacity {
        Some(cap) if cap > 0 => {
            let f = fraction(used, cap as nat);
            "ctx ["@ + color(level_of(f)) + repeated('█', filled_cells(f)) + "\x1b[0m"@ + repeated(
                '░',
                (WIDTH - filled_cells(f)) as nat,
            ) + "] "@ + decimal(used) + "/"@ + decimal(cap as nat) + " ("@ + decimal(percent_of(f))
                + "%)"@
        },
        _ => "ctx ["@ + decimal(used) + " tokens, window unknown]"@,
    }
}

/// Renders a context-fill bar: `ctx [████░░░░] 1234/4096 (30%)`, colored green,
/// yellow and red as it fills. If the window is unknown, just shows the count.
pub fn context_bar(used: u64, capacity: Option<u64>) -> (line: String)
    ensures
        line@ == bar_text(used as nat, capacity),
{
    let mut line = String::from_str("ctx [");
    match capacity {
        Some(cap) if cap > 0 => {
            let gauge = measure(used, cap);
            line.append(
                match gauge.level {
                    Level::Green => "\x1b[32m",
                    Level::Yellow => "\x1b[33m",
                    Level::Red => "\x1b[31m",
                },
            );
            push_repeated(&mut line, '█', gauge.filled);
            line.append("\x1b[0m");
            push_repeated(&mut line, '░', WIDTH - gauge.filled);
            line.append("] ");
            push_decimal(&mut line, used);
            line.append("/");
            push_decimal(&mut line, cap);
            line.append(" (");
            push_decimal(&mut line, gauge.percent);
            line.append("%)");
        },
        _ => {
            push_decimal(&mut line, used);
            line.append(" tokens, window unknown]");
        },
    }
    line
}

proof fn lemma_fraction_monotone(used1: nat, used2: nat, capacity: nat)
    requires
        used1 <= used2,
        capacity > 0,
    ensures
        crate::rounding::at_most(fraction(used1, capacity), fraction(used2, capacity)),
{
    crate::rounding::lemma_round53_monotone(used1, used2);
    let u1 = crate::rounding::round53(used1);
    let u2 = crate::rounding::round53(used2);
    let c = crate::rounding::round53(capacity);
    vstd::arithmetic::power2::lemma2_to64();
    vstd::arithmetic::power2::lemma2_to64_rest();
    if u2 < c {
        crate::rounding::lemma_quotient_monotone(u1, u2, c);
    } else if u1 < c {
        lemma_quotient_at_most_one(u1, c);
    }
}

proof fn lemma_quotient_at_most_one(n: nat, d: nat)
    requires
        n < d,
    ensures
        crate::rounding::at_most(crate::rounding::quotient(n, d), (1, 0)),
{
    vstd::arithmetic::power2::lemma2_to64();
    vstd::arithmetic::power2::lemma2_to64_rest();
    let q = crate::rounding::quotient(n, d);
    let one = pow2(0);
    if n == 0 {
        crate::rounding::lemma_half_even_exact(0, d);
        assert(0 * one == 0 && 0 * d == 0) by (nonlinear_arith);
    } else {
        crate::rounding::lemma_quotient_range(n, d);
        if q.1 > 53 {
            vstd::arithmetic::power2::lemma_pow2_strictly_increases(53, q.1);
        }
    }
    assert(q.0 * one == q.0) by (nonlinear_arith)
        requires
            one == 1,
    ;
    assert(1 * pow2(q.1) == pow2(q.1));
}

/// The position of a color in the order green, yellow, red.
pub open spec fn heat(level: Level) -> nat {
    match level {
        Level::Green => 0,
        Level::Yellow => 1,
        Level::Red => 2,
    }
}

/// As the window fills, no cell of the bar empties, the percentage does not
/// drop and the color moves only from green to yellow to red.
pub proof fn law_bar_grows_with_use(used1: nat, used2: nat, capacity: nat)
    requires
        used1 <= used2,
        capacity > 0,
    ensures
        filled_cells(fraction(used1, capacity)) <= filled_cells(fraction(used2, capacity)),
        percent_of(fraction(used1, capacity)) <= percent_of(fraction(used2, capacity)),
        heat(level_of(fraction(used1, capacity))) <= heat(level_of(fraction(used2, capacity))),
{
    let a = fraction(used1, capacity);
    let b = fraction(used2, capacity);
    lemma_fraction_monotone(used1, used2, capacity);
    crate::rounding::lemma_product_monotone(a, b, 24);
    crate::rounding::lemma_product_monotone(a, b, 100);
    lemma_thresholds();
    let yellow = crate::rounding::quotient(7, 10);
    let red = crate::rounding::quotient(9, 10);
    if crate::rounding::less(b, yellow) {
        crate::rounding::lemma_less_antitone(a, b, yellow);
    }
    if crate::rounding::less(b, red) {
        crate::rounding::lemma_less_antitone(a, b, red);
    }
}

/// A full or overfull window shows a full red bar and 100 percent.
pub proof fn law_full_window(used: nat, capacity: nat)
    requires
        used >= capacity > 0,
    ensures
        filled_cells(fraction(used, capacity)) == WIDTH,
        percent_of(fraction(used, capacity)) == 100,
        level_of(fraction(used, capacity)) == Level::Red,
{
    crate::rounding::lemma_round53_monotone(capacity, used);
    vstd::arithmetic::power2::lemma2_to64();
    lemma_thresholds();
    crate::rounding::lemma_half_even_exact(24, 1);
    crate::rounding::lemma_half_even_exact(100, 1);
    vstd::arithmetic::div_mod::lemma_fundamental_div_mod_converse(49, 2, 24, 1);
    let full = (1nat, 0nat);
    assert(fraction(used, capacity) == full);
    assert(!crate::rounding::less(full, (6305039478318694, 53)));
    assert(!crate::rounding::less(full, (8106479329266893, 53)));
}

/// An unused window shows an empty green bar and 0 percent.
pub proof fn law_empty_window(capacity: nat)
    requires
        capacity > 0,
    ensures
        filled_cells(fraction(0, capacity)) == 0,
        percent_of(fraction(0, capacity)) == 0,
        level_of(fraction(0, capacity)) == Level::Green,
{
    vstd::arithmetic::power2::lemma2_to64();
    lemma_thresholds();
    let c = crate::rounding::round53(capacity);
    crate::rounding::lemma_round53_monotone(1, capacity);
    crate::rounding::lemma_half_even_exact(0, 1);
    crate::rounding::lemma_half_even_exact(1, 1);
    crate::rounding::lemma_half_even_exact(0, c);
    assert(0 * c == 0) by (nonlinear_arith);
    assert(fraction(0, capacity) == (0nat, 0nat));
    vstd::arithmetic::div_mod::lemma_fundamental_div_mod_converse(1, 2, 0, 1);
}

/// The bar never overflows: the percentage is at most 100.
pub proof fn law_percent_bounded(used: nat, capacity: nat)
    requires
        capacity > 0,
    ensures
        percent_of(fraction(used, capacity)) <= 100,
{
    if used <= capacity {
        law_bar_grows_with_use(used, capacity, capacity);
        law_full_window(capacity, capacity);
    } else {
        law_full_window(used, capacity);
    }
}

/// The fraction is that of the used tokens, up to a few parts in `2^52`.
proof fn lemma_fraction_near(used: nat, capacity: nat)
    requires
        used <= capacity,
        capacity > 0,
    ensures
        ({
            let f = fraction(used, capacity);
            let p = pow2(f.1);
            &&& p > 0
            &&& f.0 <= p
            &&& 4503599627370496 * (f.0 * capacity) <= 4503599627370501 * (used * p)
            &&& 4503599627370496 * (used * p) <= 4503599627370501 * (f.0 * capacity)
        }),
{
    let u = crate::rounding::round53(used);
    let c = crate::rounding::round53(capacity);
    let f = fraction(used, capacity);
    let x = f.0;
    let p = pow2(f.1);
    vstd::arithmetic::power2::lemma2_to64();
    vstd::arithmetic::power2::lemma_pow2_pos(f.1);
    crate::rounding::lemma_round53_near(used);
    crate::rounding::lemma_round53_near(capacity);
    if u >= c {
        assert(1 * capacity == capacity && used * 1 == used);
    } else if used == 0 {
        law_empty_window(capacity);
        crate::rounding::lemma_half_even_exact(0, c);
        crate::rounding::lemma_half_even_exact(0, 1);
        assert(0 * c == 0 && 0 * capacity == 0 && 0 * p == 0) by (nonlinear_arith);
    } else {
        assert(u > 0);
        crate::rounding::lemma_quotient_near(u, c);
        lemma_quotient_at_most_one(u, c);
        assert(x * pow2(0) == x && 1 * p == p) by (nonlinear_arith)
            requires
                pow2(0) == 1,
        ;
        let xc = x * c;
        let up = u * p;
        let big = x * capacity;
        let part = used * p;
        // Each rounding multiplies by a factor close to 1.
        assert(4503599627370495 * big <= 4503599627370496 * xc) by (nonlinear_arith)
            requires
                4503599627370495 * capacity <= 4503599627370496 * c,
                big == x * capacity,
                xc == x * c,
        ;
        assert(4503599627370496 * xc <= 4503599627370497 * big) by (nonlinear_arith)
            requires
                4503599627370496 * c <= 4503599627370497 * capacity,
                big == x * capacity,
                xc == x * c,
        ;
        assert(4503599627370496 * up <= 4503599627370497 * part) by (nonlinear_arith)
            requires
                4503599627370496 * u <= 4503599627370497 * used,
                up == u * p,
                part == used * p,
        ;
        assert(4503599627370495 * part <= 4503599627370496 * up) by (nonlinear_arith)
            requires
                4503599627370495 * used <= 4503599627370496 * u,
                up == u * p,
                part == used * p,
        ;
    }
}

/// A rounded multiple of the fraction is that multiple of the used part of the
/// window, up to one half and a little.
proof fn lemma_multiple_near(used: nat, capacity: nat, m: nat, n: nat)
    requires
        used <= capacity,
        capacity > 0,
        m <= 100,
        ({
            let f = fraction(used, capacity);
            let y = crate::rounding::round53(f.0 * m);
            let p = pow2(f.1);
            &&& 2 * (n * p) <= 2 * y + p
            &&& 2 * y <= 2 * (n * p) + p
        }),
    ensures
        1000 * (n * capacity) <= 1000 * (m * used) + 501 * capacity,
        1000 * (m * used) <= 1000 * (n * capacity) + 501 * capacity,
{
    let f = fraction(used, capacity);
    let x = f.0;
    let p = pow2(f.1);
    let y = crate::rounding::round53(x * m);
    lemma_fraction_near(used, capacity);
    crate::rounding::lemma_round53_near(x * m);
    let all = p * capacity;
    let big = x * capacity;
    let part = used * p;
    let yc = y * capacity;
    let nc = n * p * capacity;
    assert(part <= all && big <= all) by (nonlinear_arith)
        requires
            used <= capacity,
            x <= p,
            all == p * capacity,
            big == x * capacity,
            part == used * p,
    ;
    assert(2 * nc <= 2 * yc + all && 2 * yc <= 2 * nc + all) by (nonlinear_arith)
        requires
            2 * (n * p) <= 2 * y + p,
            2 * y <= 2 * (n * p) + p,
            nc == n * p * capacity,
            yc == y * capacity,
            all == p * capacity,
    ;
    assert(4503599627370496 * yc <= 4503599627370497 * (m * big) && 4503599627370495 * (m * big) <= 4503599627370496 * yc) by (nonlinear_arith)
        requires
            4503599627370496 * y <= 4503599627370497 * (x * m),
            4503599627370495 * (x * m) <= 4503599627370496 * y,
            yc == y * capacity,
            big == x * capacity,
    ;
    let mb = m * big;
    let mp = m * part;
    assert(4503599627370496 * mb <= 4503599627370501 * mp && 4503599627370496 * mp <= 4503599627370501 * mb) by (nonlinear_arith)
        requires
            4503599627370496 * big <= 4503599627370501 * part,
            4503599627370496 * part <= 4503599627370501 * big,
            mb == m * big,
            mp == m * part,
    ;
    assert(mb <= 100 * all && mp <= 100 * all) by (nonlinear_arith)
        requires
            m <= 100,
            big <= all,
            part <= all,
            mb == m * big,
            mp == m * part,
    ;
    assert(1000 * nc <= 1000 * mp + 501 * all);
    assert(1000 * mp <= 1000 * nc + 501 * all);
    let left = 1000 * (n * capacity);
    let right = 1000 * (m * used);
    let slack = 501 * capacity;
    assert(left * p <= (right + slack) * p && right * p <= (left + slack) * p)
        by (nonlinear_arith)
        requires
            1000 * nc <= 1000 * mp + 501 * all,
            1000 * mp <= 1000 * nc + 501 * all,
            nc == n * p * capacity,
            mp == m * (used * p),
            all == p * capacity,
            left == 1000 * (n * capacity),
            right == 1000 * (m * used),
            slack == 501 * capacity,
    ;
    assert(left <= right + slack && right <= left + slack) by (nonlinear_arith)
        requires
            left * p <= (right + slack) * p,
            right * p <= (left + slack) * p,
            p > 0,
    ;
}

/// The bar is true to the window: of 24 cells as many are filled as the used
/// part of the window takes up, the percentage is that part, both to within one
/// half and a thousandth, and the color is green below 0.7 of the window,
/// yellow below 0.9 and red from there, to within a thousandth.
pub proof fn law_bar_true_to_window(used: nat, capacity: nat)
    requires
        used <= capacity,
        capacity > 0,
    ensures
        1000 * (filled_cells(fraction(used, capacity)) * capacity) <= 1000 * (24 * used) + 501
            * capacity,
        1000 * (24 * used) <= 1000 * (filled_cells(fraction(used, capacity)) * capacity) + 501
            * capacity,
        filled_cells(fraction(used, capacity)) <= 24,
        1000 * (percent_of(fraction(used, capacity)) * capacity) <= 1000 * (100 * used) + 501
            * capacity,
        1000 * (100 * used) <= 1000 * (percent_of(fraction(used, capacity)) * capacity) + 501
            * capacity,
        1000 * used <= 699 * capacity ==> level_of(fraction(used, capacity)) == Level::Green,
        701 * capacity <= 1000 * used <= 899 * capacity ==> level_of(fraction(used, capacity))
            == Level::Yellow,
        901 * capacity <= 1000 * used ==> level_of(fraction(used, capacity)) == Level::Red,
{
    let f = fraction(used, capacity);
    let p = pow2(f.1);
    lemma_fraction_near(used, capacity);
    let cells = crate::rounding::half_up(crate::rounding::round53(f.0 * 24), p);
    crate::rounding::lemma_nearest_near(crate::rounding::round53(f.0 * 24), p);
    crate::rounding::lemma_nearest_near(crate::rounding::round53(f.0 * 100), p);
    lemma_multiple_near(used, capacity, 24, cells);
    lemma_multiple_near(used, capacity, 100, percent_of(f));
    if cells > 24 {
        assert(25 * capacity <= cells * capacity) by (nonlinear_arith)
            requires
                cells >= 25,
        ;
    }
    lemma_level_near(used, capacity);
}

/// What is at most some thousandths of the window is so as a fraction.
proof fn lemma_fraction_at_most(used: nat, capacity: nat, k: nat)
    requires
        used <= capacity,
        capacity > 0,
        1000 * used <= k * capacity,
    ensures
        ({
            let f = fraction(used, capacity);
            4503599627370496000 * f.0 <= 4503599627370501 * (k * pow2(f.1))
        }),
{
    let f = fraction(used, capacity);
    let x = f.0;
    let p = pow2(f.1);
    lemma_fraction_near(used, capacity);
    let big = x * capacity;
    let part = used * p;
    let kp = k * p;
    let most = kp * capacity;
    assert(1000 * part <= most) by (nonlinear_arith)
        requires
            1000 * used <= k * capacity,
            part == used * p,
            kp == k * p,
            most == kp * capacity,
    ;
    assert(4503599627370496000 * big <= 4503599627370501 * most);
    assert(4503599627370496000 * x <= 4503599627370501 * kp) by (nonlinear_arith)
        requires
            4503599627370496000 * big <= 4503599627370501 * most,
            big == x * capacity,
            most == kp * capacity,
            capacity > 0,
    ;
}

/// What is at least some thousandths of the window is so as a fraction.
proof fn lemma_fraction_at_least(used: nat, capacity: nat, k: nat)
    requires
        used <= capacity,
        capacity > 0,
        k * capacity <= 1000 * used,
    ensures
        ({
            let f = fraction(used, capacity);
            4503599627370496 * (k * pow2(f.1)) <= 4503599627370501000 * f.0
        }),
{
    let f = fraction(used, capacity);
    let x = f.0;
    let p = pow2(f.1);
    lemma_fraction_near(used, capacity);
    let big = x * capacity;
    let part = used * p;
    let kp = k * p;
    let least = kp * capacity;
    assert(least <= 1000 * part) by (nonlinear_arith)
        requires
            k * capacity <= 1000 * used,
            part == used * p,
            kp == k * p,
            least == kp * capacity,
    ;
    assert(4503599627370496 * least <= 4503599627370501000 * big);
    assert(4503599627370496 * kp <= 4503599627370501000 * x) by (nonlinear_arith)
        requires
            4503599627370496 * least <= 4503599627370501000 * big,
            big == x * capacity,
            least == kp * capacity,
            capacity > 0,
    ;
}

/// The color changes where the used part of the window passes 0.7 and 0.9.
proof fn lemma_level_near(used: nat, capacity: nat)
    requires
        used <= capacity,
        capacity > 0,
    ensures
        1000 * used <= 699 * capacity ==> level_of(fraction(used, capacity)) == Level::Green,
        701 * capacity <= 1000 * used <= 899 * capacity ==> level_of(fraction(used, capacity))
            == Level::Yellow,
        901 * capacity <= 1000 * used ==> level_of(fraction(used, capacity)) == Level::Red,
{
    let f = fraction(used, capacity);
    let x = f.0;
    let p = pow2(f.1);
    let unit = pow2(53);
    lemma_fraction_near(used, capacity);
    lemma_thresholds();
    assert(x * unit == 9007199254740992 * x) by (nonlinear_arith)
        requires
            unit == 9007199254740992,
    ;
    assert(crate::rounding::less(f, crate::rounding::quotient(7, 10)) == (9007199254740992 * x
        < 6305039478318694 * p));
    assert(crate::rounding::less(f, crate::rounding::quotient(9, 10)) == (9007199254740992 * x
        < 8106479329266893 * p));
    if 1000 * used <= 699 * capacity {
        lemma_fraction_at_most(used, capacity, 699);
    }
    if 1000 * used <= 899 * capacity {
        lemma_fraction_at_most(used, capacity, 899);
    }
    if 701 * capacity <= 1000 * used {
        lemma_fraction_at_least(used, capacity, 701);
    }
    if 901 * capacity <= 1000 * used {
        lemma_fraction_at_least(used, capacity, 901);
    }
}

/// The line shows the cells of the bar, filled ones first and 24 in all, in the
/// color of the level, and then the used tokens, the size of the window and the
/// percentage, each as a number in digits. If the window is unknown, it shows
/// the used tokens.
pub proof fn law_bar_line(used: nat, capacity: Option<u64>, hue: Seq<char>)
    ensures
        capacity is None || capacity == Some(0u64) ==> bar_text(used, capacity) == "ctx ["@
            + decimal(used) + " tokens, window unknown]"@,
        capacity matches Some(cap) ==> (cap > 0 && shows(
            level_of(fraction(used, cap as nat)),
            hue,
        ) ==> bar_text(used, capacity) == "ctx ["@ + hue + repeated(
            '█',
            filled_cells(fraction(used, cap as nat)),
        ) + "\x1b[0m"@ + repeated(
            '░',
            (24 - filled_cells(fraction(used, cap as nat))) as nat,
        ) + "] "@ + decimal(used) + "/"@ + decimal(cap as nat) + " ("@ + decimal(
            percent_of(fraction(used, cap as nat)),
        ) + "%)"@),
{
}

/// Whether a terminal sequence switches to the color of a level: the codes are
/// 32 for green, 33 for yellow and 31 for red.
pub open spec fn shows(level: Level, hue: Seq<char>) -> bool {
    &&& level == Level::Green ==> hue == "\x1b[32m"@
    &&& level == Level::Yellow ==> hue == "\x1b[33m"@
    &&& level == Level::Red ==> hue == "\x1b[31m"@
}

/// The color is green if and only if the fraction is below the double-precision
/// number nearest to 0.7, and red if and only if it is not below the one nearest
/// to 0.9.
pub proof fn law_color_thresholds(f: (nat, nat))
    ensures
        level_of(f) == Level::Green <==> f.0 * 9007199254740992 < 6305039478318694 * pow2(f.1),
        level_of(f) == Level::Red <==> f.0 * 9007199254740992 >= 8106479329266893 * pow2(f.1),
{
    lemma_thresholds();
    vstd::arithmetic::power2::lemma_pow2_pos(f.1);
}

/// The bar that is shown is true to the window.
pub proof fn law_bar_shown(used: u64, capacity: u64, g: Gauge, line: String)
    requires
        capacity > 0,
        call_ensures(measure, (used, capacity), g),
        call_ensures(context_bar, (used, Some(capacity)), line),
    ensures
        used <= capacity ==> {
            &&& 1000 * (g.filled * capacity) <= 1000 * (24 * used) + 501 * capacity
            &&& 1000 * (24 * used) <= 1000 * (g.filled * capacity) + 501 * capacity
            &&& 1000 * (g.percent * capacity) <= 1000 * (100 * used) + 501 * capacity
            &&& 1000 * (100 * used) <= 1000 * (g.percent * capacity) + 501 * capacity
        },
        used >= capacity ==> g.filled == 24 && g.percent == 100 && g.level == Level::Red,
        line@ == bar_text(used as nat, Some(capacity)),
{
    if used <= capacity {
        law_bar_true_to_window(used as nat, capacity as nat);
    }
    if used >= capacity {
        law_full_window(used as nat, capacity as nat);
    }
}

} // verus!
