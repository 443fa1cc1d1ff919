//! Duties and the register values of PWM channels.

use vstd::arithmetic::power2;
use vstd::prelude::*;
use crate::double;
use crate::double::HIDDEN_BIT;
use crate::quantity;
use crate::quantity::{FULL, UNIT};

verus! {

/// A duty as a share of the whole, in double precision: see
/// [`double::nearest`].
pub open spec fn share(pct: nat) -> (nat, nat) {
    let (m, s) = double::nearest(pct, UNIT as nat);
    double::nearest(m, 100 * power2::pow2(s))
}

/// The share of a maximum, in double precision.
pub open spec fn scaled(pct: nat, pwm_max: u32) -> (nat, nat) {
    let (m, s) = share(pct);
    double::nearest(m * pwm_max as nat, power2::pow2(s))
}

/// The raw register value for a duty: its share of the channel's maximum,
/// computed in double precision, rounded to a whole number, a tie upwards.
pub open spec fn raw_duty(pct: int, pwm_max: u32) -> int {
    let (m, s) = scaled(quantity::clamped(pct, 0, FULL as int) as nat, pwm_max);
    quantity::rounded(m as int, power2::pow2(s) as int)
}

/// The duty `above` of `span` steps stand for, in double precision.
pub open spec fn computed_percent(above: nat, span: nat) -> (nat, nat) {
    let (m, s) = double::nearest(above, span);
    double::nearest(100 * m, power2::pow2(s))
}

/// The least number of steps for which [`percent_of`] takes no account of the
/// double that a duty is computed to.
pub const MANY_STEPS: u32 = 10_000;

/// Whether `above` of `span` steps are just the duty `v`, and `v` is half-way
/// between two whole percents.
pub open spec fn is_half_way(above: int, span: int, v: int) -> bool {
    above > 0 && span < MANY_STEPS && v % UNIT as int == UNIT as int / 2 && v * span == above * FULL
}

/// On which side of `v` the double lies: one below, one above, or on it.
pub open spec fn side_of(above: nat, span: nat, v: int) -> int {
    let (m, s) = computed_percent(above, span);
    if m * UNIT < v * power2::pow2(s) {
        -1
    } else if m * UNIT > v * power2::pow2(s) {
        1
    } else {
        0
    }
}

/// The duty a raw value stands for in the range `min..=max` of the channel.
///
/// A duty half-way between two whole percents is often computed to a double a
/// little off. The quantity next to it on that side is then taken, so that
/// the duty is shown in whole percents as the double is.
pub open spec fn percent_of(raw: u32, min: u32, max: u32) -> Option<int> {
    if max <= min {
        None
    } else {
        let v = quantity::clamped(
            quantity::rounded((raw - min) * FULL, max - min),
            0,
            FULL as int,
        );
        Some(
            if is_half_way(raw - min, max - min, v) {
                v + side_of((raw - min) as nat, (max - min) as nat, v)
            } else {
                v
            },
        )
    }
}

// ---- the steps ------------------------------------------------------------

/// A duty of at most 100 % is a share of at most 1, and a larger duty no
/// smaller a share; 100 % is all of it.
proof fn lemma_share(pct: nat, more: nat)
    requires
        pct <= more <= FULL,
    ensures
        ({
            let (m, s) = double::nearest(pct, UNIT as nat);
            m <= 100 * power2::pow2(s)
        }),
        share(pct).0 <= power2::pow2(share(pct).1),
        share(pct).0 * power2::pow2(share(more).1) <= share(more).0 * power2::pow2(share(pct).1),
        share(FULL as nat).0 == power2::pow2(share(FULL as nat).1),
        share(0).0 == 0,
{
    let u = UNIT as nat;
    let full = FULL as nat;
    let (m, s) = double::nearest(pct, u);
    let (l, t) = double::nearest(more, u);
    let (a, b) = double::nearest(full, u);
    power2::lemma_pow2_pos(s);
    power2::lemma_pow2_pos(t);
    power2::lemma_pow2_pos(b);
    double::lemma_nearest_exact(100, u);
    double::lemma_nearest_ordered(pct, u, more, u);
    double::lemma_nearest_ordered(pct, u, full, u);
    double::lemma_nearest_ordered(more, u, full, u);
    assert(m <= 100 * power2::pow2(s)) by (nonlinear_arith)
        requires
            m * power2::pow2(b) <= a * power2::pow2(s),
            a == 100 * power2::pow2(b),
            power2::pow2(b) > 0,
    ;
    assert(l <= 100 * power2::pow2(t)) by (nonlinear_arith)
        requires
            l * power2::pow2(b) <= a * power2::pow2(t),
            a == 100 * power2::pow2(b),
            power2::pow2(b) > 0,
    ;
    let d = 100 * power2::pow2(s);
    let e = 100 * power2::pow2(t);
    assert(m * e <= l * d) by (nonlinear_arith)
        requires
            m * power2::pow2(t) <= l * power2::pow2(s),
            d == 100 * power2::pow2(s),
            e == 100 * power2::pow2(t),
    ;
    assert(l < e * (2 * HIDDEN_BIT)) by (nonlinear_arith)
        requires
            l <= e,
            e > 0,
            HIDDEN_BIT >= 1,
    ;
    double::lemma_nearest_ordered(m, d, l, e);

    // The share of 100 % is exactly 1.
    let g = 100 * power2::pow2(b);
    assert(1 * g == g) by (nonlinear_arith);
    double::lemma_nearest_exact(1, g);
    let one = share(full);
    assert(1 * power2::pow2(one.1) == power2::pow2(one.1)) by (nonlinear_arith);
    assert(m * g <= a * d) by (nonlinear_arith)
        requires
            m * power2::pow2(b) <= a * power2::pow2(s),
            g == 100 * power2::pow2(b),
            d == 100 * power2::pow2(s),
    ;
    assert(a < g * (2 * HIDDEN_BIT)) by (nonlinear_arith)
        requires
            a == g,
            g > 0,
            HIDDEN_BIT >= 1,
    ;
    double::lemma_nearest_ordered(m, d, a, g);
    let (x, y) = share(pct);
    power2::lemma_pow2_pos(one.1);
    assert(x <= power2::pow2(y)) by (nonlinear_arith)
        requires
            x * power2::pow2(one.1) <= one.0 * power2::pow2(y),
            one.0 == power2::pow2(one.1),
            power2::pow2(one.1) > 0,
    ;
    double::lemma_nearest(0, u);
    power2::lemma2_to64();
    double::lemma_nearest(0, 100);
}

/// A share of a maximum is at most the maximum, and no smaller for a larger
/// duty.
proof fn lemma_scaled(pct: nat, more: nat, pwm_max: u32)
    requires
        pct <= more <= FULL,
    ensures
        share(pct).0 * (pwm_max as nat) <= power2::pow2(share(pct).1) * (pwm_max as nat),
        share(pct).0 * (pwm_max as nat) < power2::pow2(share(pct).1) * (2 * HIDDEN_BIT),
        scaled(pct, pwm_max).0 <= pwm_max * power2::pow2(scaled(pct, pwm_max).1),
        scaled(pct, pwm_max).0 * power2::pow2(scaled(more, pwm_max).1) <= scaled(more, pwm_max).0
            * power2::pow2(scaled(pct, pwm_max).1),
        scaled(FULL as nat, pwm_max).0 == pwm_max * power2::pow2(scaled(FULL as nat, pwm_max).1),
        scaled(0, pwm_max).0 == 0,
{
    let w = pwm_max as nat;
    let full = FULL as nat;
    lemma_share(pct, more);
    lemma_share(pct, full);
    lemma_share(more, full);
    lemma_share(0, 0);
    lemma_share_of(pct, w);
    lemma_share_of(more, w);
    lemma_share_of(full, w);
    let (m, s) = share(pct);
    let (l, t) = share(more);
    let (a, b) = share(full);
    let d = power2::pow2(s);
    let e = power2::pow2(t);
    let g = power2::pow2(b);
    power2::lemma_pow2_pos(s);
    power2::lemma_pow2_pos(t);
    power2::lemma_pow2_pos(b);
    assert(m * w * e <= l * w * d) by (nonlinear_arith)
        requires
            m * e <= l * d,
    ;
    double::lemma_nearest_ordered(m * w, d, l * w, e);
    assert(m * w * g <= a * w * d) by (nonlinear_arith)
        requires
            m * g <= a * d,
    ;
    double::lemma_nearest_ordered(m * w, d, a * w, g);
    assert(a * w == w * g) by (nonlinear_arith)
        requires
            a == g,
    ;
    double::lemma_nearest_exact(w, g);
    let (x, y) = scaled(pct, pwm_max);
    let (c, z) = scaled(full, pwm_max);
    power2::lemma_pow2_pos(z);
    assert(x <= w * power2::pow2(y)) by (nonlinear_arith)
        requires
            x * power2::pow2(z) <= c * power2::pow2(y),
            c == w * power2::pow2(z),
            power2::pow2(z) > 0,
    ;
    assert(0 * w == 0) by (nonlinear_arith);
    power2::lemma_pow2_pos(share(0).1);
    double::lemma_nearest(0, power2::pow2(share(0).1));
}

proof fn lemma_share_of(pct: nat, w: nat)
    requires
        pct <= FULL,
        w <= u32::MAX,
    ensures
        share(pct).0 * w <= power2::pow2(share(pct).1) * w,
        share(pct).0 * w < power2::pow2(share(pct).1) * (2 * HIDDEN_BIT),
{
    lemma_share(pct, pct);
    let (m, s) = share(pct);
    power2::lemma_pow2_pos(s);
    assert(m * w <= power2::pow2(s) * w) by (nonlinear_arith)
        requires
            m <= power2::pow2(s),
    ;
    assert(power2::pow2(s) * w < power2::pow2(s) * (2 * HIDDEN_BIT)) by (nonlinear_arith)
        requires
            w < 2 * HIDDEN_BIT,
            power2::pow2(s) > 0,
    ;
}

/// The larger quotient is rounded to no less.
proof fn lemma_rounded_ordered(a: nat, b: nat, c: nat, d: nat)
    requires
        b > 0,
        d > 0,
        a * d <= c * b,
    ensures
        quantity::rounded(a as int, b as int) <= quantity::rounded(c as int, d as int),
{
    let x = quantity::rounded(a as int, b as int);
    let y = quantity::rounded(c as int, d as int);
    quantity::lemma_rounded(a as int, b as int);
    quantity::lemma_rounded(c as int, d as int);
    if x > y {
        assert(false) by (nonlinear_arith)
            requires
                b > 0,
                d > 0,
                a * d <= c * b,
                2 * b * x <= 2 * a + b,
                2 * c + d < 2 * d * (y + 1),
                x >= y + 1,
        {
            assert(2 * b * x * d <= (2 * a + b) * d);
            assert((2 * c + d) * b < 2 * d * (y + 1) * b);
            assert((2 * a + b) * d == 2 * (a * d) + b * d);
            assert((2 * c + d) * b == 2 * (c * b) + b * d);
            assert(2 * b * x * d == 2 * (b * d) * x);
            assert(2 * d * (y + 1) * b == 2 * (b * d) * (y + 1));
            assert((b * d) * (y + 1) <= (b * d) * x);
        }
    }
}

/// A larger duty never gives a smaller register value, 0 % gives 0, 100 %
/// the channel's maximum, and every duty a value between.
pub proof fn law_raw_duty(low: int, high: int, pwm_max: u32)
    requires
        low <= high,
    ensures
        0 <= raw_duty(low, pwm_max) <= raw_duty(high, pwm_max) <= pwm_max,
        raw_duty(0, pwm_max) == 0,
        raw_duty(FULL as int, pwm_max) == pwm_max,
{
    let a = quantity::clamped(low, 0, FULL as int) as nat;
    let b = quantity::clamped(high, 0, FULL as int) as nat;
    let full = FULL as nat;
    lemma_scaled(a, b, pwm_max);
    lemma_scaled(b, full, pwm_max);
    lemma_scaled(0, a, pwm_max);
    let (m, s) = scaled(a, pwm_max);
    let (l, t) = scaled(b, pwm_max);
    let (c, z) = scaled(full, pwm_max);
    let (o, y) = scaled(0, pwm_max);
    power2::lemma_pow2_pos(s);
    power2::lemma_pow2_pos(t);
    power2::lemma_pow2_pos(z);
    power2::lemma_pow2_pos(y);
    lemma_rounded_ordered(m, power2::pow2(s), l, power2::pow2(t));
    lemma_rounded_ordered(l, power2::pow2(t), c, power2::pow2(z));
    lemma_rounded_ordered(o, power2::pow2(y), m, power2::pow2(s));
    assert(0 * power2::pow2(y) as int == 0) by (nonlinear_arith);
    quantity::lemma_rounded_exact(0, power2::pow2(y) as int);
    quantity::lemma_rounded_exact(pwm_max as int, power2::pow2(z) as int);
}

// ---- precision ------------------------------------------------------------

/// Three steps, each off by at most one part in `n`, one after the other.
proof fn lemma_chain_up(n: int, p: int, m: int, l: int, c: int, w: int, t: int, u: int, v: int)
    requires
        n > 0,
        p >= 0,
        m >= 0,
        l >= 0,
        c >= 0,
        w >= 0,
        t > 0,
        u > 0,
        v > 0,
        n * (m * UNIT) <= (n + 1) * (p * t),
        n * (l * (100 * t)) <= (n + 1) * (m * u),
        n * (c * u) <= (n + 1) * (l * w * v),
    ensures
        n * n * n * (c * FULL) <= (n + 1) * (n + 1) * (n + 1) * (p * w * v),
{
    let k = n + 1;
    // The first two: l / u against p.
    assert(n * n * (l * FULL) <= k * k * (p * u)) by (nonlinear_arith)
        requires
            n > 0,
            k > 0,
            t > 0,
            u > 0,
            l >= 0,
            n * (m * UNIT) <= k * (p * t),
            n * (l * (100 * t)) <= k * (m * u),
            FULL == 100 * UNIT,
            UNIT > 0,
    {
        let a = n * (l * (100 * t));
        let b = k * (m * u);
        assert(a * (n * UNIT) <= b * (n * UNIT));
        assert(a * (n * UNIT) == t * (n * n * (l * FULL)));
        assert(b * (n * UNIT) == k * u * (n * (m * UNIT)));
        assert(k * u * (n * (m * UNIT)) <= k * u * (k * (p * t)));
        assert(k * u * (k * (p * t)) == t * (k * k * (p * u)));
    }
    let x = n * (c * u);
    let y = k * (l * w * v);
    let z = k * w * v;
    let f = FULL as int;
    assert(x * (n * n * f) <= y * (n * n * f)) by (nonlinear_arith)
        requires
            x <= y,
            n > 0,
            f > 0,
    ;
    assert(x * (n * n * f) == u * (n * n * n * (c * f))) by (nonlinear_arith)
        requires
            x == n * (c * u),
    ;
    assert(y * (n * n * f) == z * (n * n * (l * f))) by (nonlinear_arith)
        requires
            y == k * (l * w * v),
            z == k * w * v,
    ;
    assert(z >= 0) by (nonlinear_arith)
        requires
            k > 0,
            w >= 0,
            v > 0,
            z == k * w * v,
    ;
    assert(z * (n * n * (l * f)) <= z * (k * k * (p * u))) by (nonlinear_arith)
        requires
            z >= 0,
            n * n * (l * f) <= k * k * (p * u),
    ;
    assert(z * (k * k * (p * u)) == u * (k * k * k * (p * w * v))) by (nonlinear_arith)
        requires
            z == k * w * v,
    ;
    assert(n * n * n * (c * f) <= k * k * k * (p * w * v)) by (nonlinear_arith)
        requires
            u > 0,
            u * (n * n * n * (c * f)) <= u * (k * k * k * (p * w * v)),
    ;
}

proof fn lemma_chain_down(n: int, p: int, m: int, l: int, c: int, w: int, t: int, u: int, v: int)
    requires
        n > 1,
        p >= 0,
        m >= 0,
        l >= 0,
        c >= 0,
        w >= 0,
        t > 0,
        u > 0,
        v > 0,
        n * (m * UNIT) >= (n - 1) * (p * t),
        n * (l * (100 * t)) >= (n - 1) * (m * u),
        n * (c * u) >= (n - 1) * (l * w * v),
    ensures
        n * n * n * (c * FULL) >= (n - 1) * (n - 1) * (n - 1) * (p * w * v),
{
    let k = n - 1;
    assert(n * n * (l * FULL) >= k * k * (p * u)) by (nonlinear_arith)
        requires
            n > 0,
            k > 0,
            t > 0,
            u > 0,
            l >= 0,
            n * (m * UNIT) >= k * (p * t),
            n * (l * (100 * t)) >= k * (m * u),
            FULL == 100 * UNIT,
            UNIT > 0,
    {
        let a = n * (l * (100 * t));
        let b = k * (m * u);
        assert(a * (n * UNIT) >= b * (n * UNIT));
        assert(a * (n * UNIT) == t * (n * n * (l * FULL)));
        assert(b * (n * UNIT) == k * u * (n * (m * UNIT)));
        assert(k * u * (n * (m * UNIT)) >= k * u * (k * (p * t)));
        assert(k * u * (k * (p * t)) == t * (k * k * (p * u)));
    }
    let x = n * (c * u);
    let y = k * (l * w * v);
    let z = k * w * v;
    let f = FULL as int;
    assert(x * (n * n * f) >= y * (n * n * f)) by (nonlinear_arith)
        requires
            x >= y,
            n > 0,
            f > 0,
    ;
    assert(x * (n * n * f) == u * (n * n * n * (c * f))) by (nonlinear_arith)
        requires
            x == n * (c * u),
    ;
    assert(y * (n * n * f) == z * (n * n * (l * f))) by (nonlinear_arith)
        requires
            y == k * (l * w * v),
            z == k * w * v,
    ;
    assert(z >= 0) by (nonlinear_arith)
        requires
            k > 0,
            w >= 0,
            v > 0,
            z == k * w * v,
    ;
    assert(z * (n * n * (l * f)) >= z * (k * k * (p * u))) by (nonlinear_arith)
        requires
            z >= 0,
            n * n * (l * f) >= k * k * (p * u),
    ;
    assert(z * (k * k * (p * u)) == u * (k * k * k * (p * w * v))) by (nonlinear_arith)
        requires
            z == k * w * v,
    ;
    assert(n * n * n * (c * f) >= k * k * k * (p * w * v)) by (nonlinear_arith)
        requires
            u > 0,
            u * (n * n * n * (c * f)) >= u * (k * k * k * (p * w * v)),
    ;
}

/// The scaled duty is off by less than four parts in `2^53`.
proof fn lemma_scaled_error(pct: nat, pwm_max: u32)
    requires
        pct <= FULL,
    ensures
        ({
            let (c, z) = scaled(pct, pwm_max);
            let error = c * FULL - pct * pwm_max * power2::pow2(z);
            let slack = 4 * (pct * pwm_max * power2::pow2(z));
            -slack <= error * (2 * HIDDEN_BIT) <= slack
        }),
{
    let n = 2 * HIDDEN_BIT as int;
    let w = pwm_max as nat;
    let (m, s) = double::nearest(pct, UNIT as nat);
    let (l, t) = share(pct);
    let (c, z) = scaled(pct, pwm_max);
    let a = power2::pow2(s);
    let b = power2::pow2(t);
    let e = power2::pow2(z);
    power2::lemma_pow2_pos(s);
    power2::lemma_pow2_pos(t);
    power2::lemma_pow2_pos(z);
    lemma_share(pct, pct);
    lemma_share_of(pct, w);
    assert(m < 100 * a * (2 * HIDDEN_BIT)) by (nonlinear_arith)
        requires
            m <= 100 * a,
            a > 0,
            HIDDEN_BIT >= 1,
    ;
    double::lemma_nearest(pct, UNIT as nat);
    double::lemma_nearest(m, 100 * a);
    double::lemma_nearest(l * w, b);
    lemma_both(n, m * UNIT, (pct * a) as int);
    lemma_both(n, (l * (100 * a)) as int, (m * b) as int);
    lemma_both(n, (c * b) as int, (l * w * e) as int);
    lemma_chain_up(n, pct as int, m as int, l as int, c as int, w as int, a as int, b as int, e as int);
    lemma_chain_down(n, pct as int, m as int, l as int, c as int, w as int, a as int, b as int, e as int);
    let x = c * FULL;
    let y = (pct * w * e) as int;
    assert(y >= 0);
    assert(n * x <= (n + 4) * y) by (nonlinear_arith)
        requires
            n * n * n * x <= (n + 1) * (n + 1) * (n + 1) * y,
            y >= 0,
            n >= 4,
    {
        assert((n + 1) * (n + 1) * (n + 1) <= n * n * (n + 4));
        assert((n + 1) * (n + 1) * (n + 1) * y <= n * n * (n + 4) * y);
        assert(n * n * (n * x) <= n * n * ((n + 4) * y));
    }
    assert(n * x >= (n - 4) * y) by (nonlinear_arith)
        requires
            n * n * n * x >= (n - 1) * (n - 1) * (n - 1) * y,
            y >= 0,
            n >= 4,
    {
        assert((n - 1) * (n - 1) * (n - 1) >= n * n * (n - 4));
        assert((n - 1) * (n - 1) * (n - 1) * y >= n * n * (n - 4) * y);
        assert(n * n * (n * x) >= n * n * ((n - 4) * y));
    }
    assert(n * x == x * n && n * y == y * n) by (nonlinear_arith);
    assert((n + 4) * y == n * y + 4 * y && (n - 4) * y == n * y - 4 * y) by (nonlinear_arith);
    assert((x - y) * n == x * n - y * n) by (nonlinear_arith);
}

proof fn lemma_both(n: int, x: int, y: int)
    requires
        -y <= (x - y) * n <= y,
    ensures
        (n - 1) * y <= n * x <= (n + 1) * y,
{
    assert((x - y) * n == n * x - n * y) by (nonlinear_arith);
    assert((n + 1) * y == n * y + y && (n - 1) * y == n * y - y) by (nonlinear_arith);
}

/// A register holds a duty to within half a step, but for what the precision
/// of a double adds: less than a twenty-thousandth of a billionth of a percent.
proof fn lemma_raw_duty_error(pct: nat, pwm_max: u32)
    requires
        pct <= FULL,
    ensures
        ({
            let error = raw_duty(pct as int, pwm_max) * FULL - pct * pwm_max;
            -(20000 * FULL + 2 * pwm_max) <= 40000 * error <= 20000 * FULL + 2 * pwm_max
        }),
{
    lemma_scaled_error(pct, pwm_max);
    let (c, z) = scaled(pct, pwm_max);
    let e = power2::pow2(z) as int;
    let raw = raw_duty(pct as int, pwm_max);
    let w = pwm_max as int;
    let p = pct as int;
    let f = FULL as int;
    power2::lemma_pow2_pos(z);
    quantity::lemma_rounded(c as int, e);
    let y = p * w * e;
    let error = c * f - y;
    // 4 p / 2^53 is below 1 / 20000.
    assert(-(w * e) <= 20000 * error <= w * e) by (nonlinear_arith)
        requires
            -(4 * y) <= error * 0x20_0000_0000_0000 <= 4 * y,
            y == p * w * e,
            0 <= p <= 100_000_000_000,
            w >= 0,
            e > 0,
    {
        assert(w * e >= 0);
        assert(y == p * (w * e));
        assert(p * (w * e) <= 100_000_000_000 * (w * e));
        assert(80000 * y <= 0x20_0000_0000_0000 * (w * e));
    }
    let off = raw * e - c;
    assert(-e <= 2 * off <= e) by (nonlinear_arith)
        requires
            2 * e * raw <= 2 * c + e < 2 * e * (raw + 1),
            off == raw * e - c,
    ;
    assert(-(20000 * f + 2 * w) <= 40000 * (raw * f - p * w) <= 20000 * f + 2 * w)
        by (nonlinear_arith)
        requires
            e > 0,
            f > 0,
            off == raw * e - c,
            -e <= 2 * off <= e,
            error == c * f - y,
            y == p * w * e,
            -(w * e) <= 20000 * error <= w * e,
    {
        let g = raw * f - p * w;
        assert(g * e == off * f + error);
        assert(-(e * f) <= 2 * (off * f) <= e * f);
        assert(40000 * (g * e) <= 20000 * (e * f) + 2 * (w * e));
        assert(40000 * (g * e) >= -(20000 * (e * f) + 2 * (w * e)));
        assert(40000 * (g * e) == (40000 * g) * e);
        assert(20000 * (e * f) + 2 * (w * e) == (20000 * f + 2 * w) * e);
    }
}

/// The duty read back of a register is the duty that was set, to within half a
/// register step and a billionth of a percent, and within 0..=100 %. The
/// register itself is off by at most half a step where it has fewer than
/// [`MANY_STEPS`].
pub proof fn law_duty_reads_back(pct: int, pwm_max: u32)
    requires
        pwm_max > 0,
    ensures
        ({
            let set = quantity::clamped(pct, 0, FULL as int);
            percent_of(raw_duty(pct, pwm_max) as u32, 0, pwm_max) matches Some(p) && 0 <= p <= FULL
                && -(FULL + 2 * pwm_max) <= 2 * pwm_max * (p - set) <= FULL + 2 * pwm_max
        }),
        pwm_max < MANY_STEPS ==> ({
            let error = raw_duty(pct, pwm_max) * FULL - quantity::clamped(pct, 0, FULL as int)
                * pwm_max;
            -FULL <= 2 * error <= FULL
        }),
{
    let set = quantity::clamped(pct, 0, FULL as int);
    law_raw_duty(pct, pct, pwm_max);
    lemma_raw_duty_error(set as nat, pwm_max);
    let raw = raw_duty(pct, pwm_max);
    let full = FULL as int;
    let max = pwm_max as int;
    assert(raw == raw_duty(set, pwm_max));
    let v = quantity::rounded((raw - 0) * FULL, max);
    quantity::lemma_rounded((raw - 0) * FULL, max);
    quantity::lemma_rounded_exact(0, max);
    quantity::lemma_rounded_exact(full, max);
    assert(0 <= raw * full <= full * max) by (nonlinear_arith)
        requires
            0 <= raw <= max,
            0 <= full,
    ;
    assert(0 * max == 0) by (nonlinear_arith);
    quantity::lemma_rounded_monotonic(0, raw * full, max);
    quantity::lemma_rounded_monotonic(raw * full, full * max, max);
    assert(2 * max * (v + 1) == 2 * max * v + 2 * max) by (nonlinear_arith);
    assert(2 * max * (v - set) == 2 * max * v - 2 * (set * max)) by (nonlinear_arith);
    if is_half_way(raw, max, v) {
        let d = side_of(raw as nat, max as nat, v);
        assert(2 * max * v == 2 * (v * max)) by (nonlinear_arith);
        assert(2 * max * (v + d - set) == 2 * max * (v - set) + 2 * max * d) by (nonlinear_arith);
        assert(-(2 * max) <= 2 * max * d <= 2 * max) by (nonlinear_arith)
            requires
                -1 <= d <= 1,
                max > 0,
        ;
    }
}

// ---- computing them -------------------------------------------------------

/// The raw register value for a duty.
pub fn raw_value(pct: i64, pwm_max: u32) -> (r: u32)
    ensures
        r == raw_duty(pct as int, pwm_max),
{
    let p = quantity::clamp(pct, 0, FULL);
    proof {
        power2::lemma2_to64();
        lemma_share(p as nat, p as nat);
        lemma_share_of(p as nat, pwm_max as nat);
        law_raw_duty(pct as int, pct as int, pwm_max);
        assert(UNIT as nat * 1 == UNIT);
        if p > 0 {
            double::lemma_places_bound(p as nat, UNIT as nat, 0, 30);
        }
    }
    let (m, s) = double::nearest_double(p as u128, 1_000_000_000, 0);
    proof {
        let a = power2::pow2(s as nat);
        power2::lemma_pow2_pos(s as nat);
        assert(m < 100 * a * (2 * HIDDEN_BIT)) by (nonlinear_arith)
            requires
                m <= 100 * a,
                a > 0,
                HIDDEN_BIT >= 1,
        ;
        double::lemma_nearest(p as nat, UNIT as nat);
        power2::lemma2_to64_rest();
        power2::lemma_pow2_adds(7, s as nat);
        if m > 0 {
            assert(100 * a <= 128 * a);
            double::lemma_places_bound(m as nat, 100 * a, 52, 7 + s as nat);
        }
    }
    let (l, t) = double::nearest_double(m, 100, s);
    proof {
        let b = power2::pow2(t as nat);
        power2::lemma_pow2_pos(t as nat);
        let (m0, s0) = double::nearest(p as nat, UNIT as nat);
        double::lemma_nearest(m as nat, 100 * power2::pow2(s as nat));
        assert(l * pwm_max <= 0x20_0000_0000_0000 * 0xffff_ffff) by (nonlinear_arith)
            requires
                l <= 0x20_0000_0000_0000,
                pwm_max <= 0xffff_ffff,
        ;
        assert(1 * b == b) by (nonlinear_arith);
        double::lemma_nearest(l as nat * pwm_max as nat, b);
        if l * pwm_max > 0 {
            assert(l * pwm_max >= l) by (nonlinear_arith)
                requires
                    l * pwm_max > 0,
                    l >= 0,
                    pwm_max >= 0,
            ;
            assert(l > 0) by (nonlinear_arith)
                requires
                    l * pwm_max > 0,
                    l >= 0,
            ;
            double::lemma_places_bound(l as nat * pwm_max as nat, b, 52, t as nat);
        }
    }
    let (c, z) = double::nearest_double(l * (pwm_max as u128), 1, t);
    let e = double::two_to(z);
    assert((c as nat, z as nat) == scaled(p as nat, pwm_max));
    ((2 * c + e) / (2 * e)) as u32
}

/// On which side of `v` the double lies that a duty is computed to.
fn double_side(above: u32, span: u32, v: i64) -> (r: i64)
    requires
        0 < above <= span,
        0 <= v <= FULL,
    ensures
        r == side_of(above as nat, span as nat, v as int),
        -1 <= r <= 1,
{
    proof {
        power2::lemma2_to64();
        power2::lemma2_to64_rest();
        assert(span as nat * 1 == span);
        assert(above < span * (2 * HIDDEN_BIT)) by (nonlinear_arith)
            requires
                0 < above <= span,
                HIDDEN_BIT >= 1,
        ;
        double::lemma_places_bound(above as nat, span as nat, 0, 32);
        double::lemma_nearest(above as nat, span as nat);
        double::lemma_nearest_exact(1, 1);
        double::lemma_nearest_ordered(above as nat, span as nat, 1, 1);
    }
    let (m, s) = double::nearest_double(above as u128, span as u128, 0);
    proof {
        let a = power2::pow2(s as nat);
        let (c, z) = double::nearest(1, 1);
        power2::lemma_pow2_pos(s as nat);
        power2::lemma_pow2_pos(z);
        assert(m <= a) by (nonlinear_arith)
            requires
                m * power2::pow2(z) <= c * a,
                c == power2::pow2(z),
                power2::pow2(z) > 0,
        ;
        assert(1 * a == a) by (nonlinear_arith);
        assert(100 * m < a * (2 * HIDDEN_BIT)) by (nonlinear_arith)
            requires
                m <= a,
                a > 0,
                HIDDEN_BIT >= 100,
        ;
        double::lemma_places_bound(100 * m as nat, a, 52, s as nat);
    }
    let (l, t) = double::nearest_double(100 * m, 1, s);
    let e = double::two_to(t);
    proof {
        let b = power2::pow2(t as nat);
        assert(b <= 0x10_0000_0000_0000_0000_0000) by {
            lemma_small_power(t as nat);
        }
        assert(v * e <= 100_000_000_000 * 0x10_0000_0000_0000_0000_0000) by (nonlinear_arith)
            requires
                0 <= v <= 100_000_000_000,
                0 <= e <= 0x10_0000_0000_0000_0000_0000,
        ;
    }
    let x: u128 = l * 1_000_000_000;
    let y: u128 = (v as u128) * e;
    if x < y {
        -1
    } else if x > y {
        1
    } else {
        0
    }
}

proof fn lemma_small_power(t: nat)
    requires
        t <= 84,
    ensures
        power2::pow2(t) <= 0x10_0000_0000_0000_0000_0000,
{
    power2::lemma2_to64();
    power2::lemma2_to64_rest();
    power2::lemma_pow2_adds(64, 20);
    if t < 84 {
        power2::lemma_pow2_strictly_increases(t, 84);
    }
}

/// The duty a raw value stands for.
pub fn percent(raw: u32, min: u32, max: u32) -> (r: Option<i64>)
    ensures
        r is Some <==> percent_of(raw, min, max) is Some,
        r matches Some(v) ==> percent_of(raw, min, max) == Some(v as int),
{
    if max <= min {
        return None;
    }
    let above: i128 = (raw as i128) - (min as i128);
    let span: i128 = (max as i128) - (min as i128);
    assert(-0xffff_ffff * 100_000_000_000 <= above * FULL <= 0xffff_ffff * 100_000_000_000) by (
    nonlinear_arith)
        requires
            -0xffff_ffff <= above <= 0xffff_ffff,
            FULL == 100_000_000_000,
    ;
    let f = quantity::round_div(above * (FULL as i128), span);
    let v: i64 = if f < 0 {
        0
    } else if f > FULL as i128 {
        FULL
    } else {
        f as i64
    };
    assert(0 <= v * span <= 100_000_000_000 * 0xffff_ffff) by (nonlinear_arith)
        requires
            0 <= v <= 100_000_000_000,
            0 <= span <= 0xffff_ffff,
    ;
    if above > 0 && span < MANY_STEPS as i128 && v % UNIT == UNIT / 2 && (v as i128) * span
        == above * (FULL as i128) {
        assert(above <= span) by (nonlinear_arith)
            requires
                v * span == above * FULL,
                v <= FULL,
                FULL > 0,
                span > 0,
        ;
        let d = double_side(above as u32, span as u32, v);
        Some(v + d)
    } else {
        Some(v)
    }
}

/// The duty a raw value stands for is its share of the channel's range, to
/// within a billionth and a half of a percent; at and below the lower end it
/// is 0 %, at and above the upper end 100 %, and an empty range has none.
pub proof fn law_percent_of(raw: u32, min: u32, max: u32)
    ensures
        max <= min ==> percent_of(raw, min, max) is None,
        max > min ==> (percent_of(raw, min, max) matches Some(v) && {
            &&& 0 <= v <= 100_000_000_000
            &&& raw <= min ==> v == 0
            &&& raw >= max ==> v == 100_000_000_000
            &&& min <= raw <= max ==> ({
                let off = v * (max - min) - (raw - min) * 100_000_000_000;
                -3 * (max - min) <= 2 * off <= 3 * (max - min)
            })
        }),
{
    if max > min {
        let span = max - min;
        let x = (raw - min) * FULL;
        let q = quantity::rounded(x, span);
        quantity::lemma_rounded(x, span);
        quantity::lemma_rounded_exact(0, span);
        quantity::lemma_rounded_exact(FULL as int, span);
        assert(0 * span == 0) by (nonlinear_arith);
        if raw <= min {
            quantity::lemma_rounded_monotonic(x, 0, span);
        }
        if raw >= max {
            assert(x >= FULL * span) by (nonlinear_arith)
                requires
                    x == (raw - min) * FULL,
                    raw - min >= span,
                    FULL > 0,
            ;
            quantity::lemma_rounded_monotonic(FULL * span, x, span);
        }
        if min <= raw <= max {
            assert(0 <= x <= FULL * span) by (nonlinear_arith)
                requires
                    x == (raw - min) * FULL,
                    0 <= raw - min <= span,
                    FULL > 0,
            ;
            quantity::lemma_rounded_monotonic(0, x, span);
            quantity::lemma_rounded_monotonic(x, FULL * span, span);
            let v = percent_of(raw, min, max)->0;
            assert(-1 <= v - q <= 1);
            assert(-3 * span <= 2 * (v * span - x) <= 3 * span) by (nonlinear_arith)
                requires
                    2 * span * q <= 2 * x + span < 2 * span * (q + 1),
                    -1 <= v - q <= 1,
                    span > 0,
            {
                let d = v - q;
                assert(v * span == q * span + d * span);
                assert(-span <= d * span <= span);
            }
        }
    }
}

} // verus!
