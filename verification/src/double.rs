//! Double precision: the binary fraction of 53 significant digits that is
//! nearest to a number. Fans' registers and printed decimals are settled on
//! it, so that a tie between two decimals goes the way the double lies.

use vstd::arithmetic::div_mod;
use vstd::arithmetic::power2;
use vstd::prelude::*;

verus! {

/// `2` to the power of 52.
pub const HIDDEN_BIT: u64 = 0x10_0000_0000_0000;

/// How often `n` has to be doubled until `n / d` is at least `2^52`, that is,
/// until 53 binary digits stand before its point.
pub open spec fn places(n: nat, d: nat) -> nat
    decreases
            if n < d * HIDDEN_BIT {
                d * HIDDEN_BIT - n
            } else {
                0
            },
{
    if n == 0 || n >= d * HIDDEN_BIT {
        0
    } else {
        1 + places(2 * n, d)
    }
}

/// `a / b` rounded to the nearest whole number, a tie to the even one.
pub open spec fn rounded_even(a: nat, b: nat) -> nat {
    let q = a / b;
    let r = a % b;
    if 2 * r > b || (2 * r == b && q % 2 == 1) {
        q + 1
    } else {
        q
    }
}

/// The double nearest to `n / d`, for a quotient below `2^53`: `m` and `s`
/// for `m / 2^s`.
pub open spec fn nearest(n: nat, d: nat) -> (nat, nat) {
    let s = places(n, d);
    (rounded_even(n * power2::pow2(s), d), s)
}

/// The powers of two that matter here.
proof fn lemma_powers()
    ensures
        power2::pow2(0) == 1,
        power2::pow2(1) == 2,
        power2::pow2(52) == HIDDEN_BIT,
        power2::pow2(93) == 0x2000_0000_0000_0000_0000_0000,
        power2::pow2(125) == 0x2000_0000_0000_0000_0000_0000_0000_0000,
        power2::pow2(126) == 0x4000_0000_0000_0000_0000_0000_0000_0000,
{
    power2::lemma2_to64();
    power2::lemma2_to64_rest();
    power2::lemma_pow2_adds(32, 20);
    power2::lemma_pow2_adds(32, 29);
    power2::lemma_pow2_adds(32, 61);
    power2::lemma_pow2_adds(32, 93);
    power2::lemma_pow2_adds(1, 125);
}

// ---- the number of places -------------------------------------------------

proof fn lemma_places(n: nat, d: nat)
    requires
        n > 0,
    ensures
        n * power2::pow2(places(n, d)) >= d * HIDDEN_BIT,
        places(n, d) > 0 ==> n * power2::pow2((places(n, d) - 1) as nat) < d * HIDDEN_BIT,
    decreases
            if n < d * HIDDEN_BIT {
                d * HIDDEN_BIT - n
            } else {
                0
            },
{
    lemma_powers();
    let s = places(n, d);
    if s > 0 {
        lemma_places(2 * n, d);
        let t = places(2 * n, d);
        assert(s == t + 1);
        power2::lemma_pow2_unfold(s);
        assert(n * (2 * power2::pow2(t)) == 2 * n * power2::pow2(t)) by (nonlinear_arith);
        if t > 0 {
            power2::lemma_pow2_unfold(t);
            let u = power2::pow2((t - 1) as nat);
            assert(n * (2 * u) == 2 * n * u) by (nonlinear_arith);
        }
    }
    assert(n * 1 == n) by (nonlinear_arith);
}

proof fn lemma_places_is(n: nat, d: nat, s: nat)
    requires
        n > 0,
        n * power2::pow2(s) >= d * HIDDEN_BIT,
        s > 0 ==> n * power2::pow2((s - 1) as nat) < d * HIDDEN_BIT,
    ensures
        places(n, d) == s,
{
    lemma_places(n, d);
    let t = places(n, d);
    if t < s {
        if t < s - 1 {
            power2::lemma_pow2_strictly_increases(t, (s - 1) as nat);
        }
        assert(n * power2::pow2(t) <= n * power2::pow2((s - 1) as nat)) by (nonlinear_arith)
            requires
                power2::pow2(t) <= power2::pow2((s - 1) as nat),
        ;
    } else if s < t {
        if s < t - 1 {
            power2::lemma_pow2_strictly_increases(s, (t - 1) as nat);
        }
        assert(n * power2::pow2(s) <= n * power2::pow2((t - 1) as nat)) by (nonlinear_arith)
            requires
                power2::pow2(s) <= power2::pow2((t - 1) as nat),
        ;
    }
}

// ---- rounding -------------------------------------------------------------

/// [`rounded_even`] is the nearest whole number.
pub proof fn lemma_rounded_even(a: nat, b: nat)
    requires
        b > 0,
    ensures
        -(b as int) <= 2 * (rounded_even(a, b) * b - a) <= b,
{
    div_mod::lemma_fundamental_div_mod(a as int, b as int);
    let q = (a / b) as int;
    assert((q + 1) * b == b * q + b) by (nonlinear_arith);
    assert(q * b == b * q) by (nonlinear_arith);
}

/// A common factor makes no difference to [`rounded_even`].
pub proof fn lemma_rounded_even_scaled(a: nat, b: nat, c: nat)
    requires
        b > 0,
        c > 0,
    ensures
        b * c > 0,
        rounded_even(a * c, b * c) == rounded_even(a, b),
{
    let q = (a / b) as int;
    let r = (a % b) as int;
    div_mod::lemma_fundamental_div_mod(a as int, b as int);
    assert(a * c == (b * c) * q + r * c) by (nonlinear_arith)
        requires
            a == b * q + r,
    ;
    assert(0 <= r * c < b * c) by (nonlinear_arith)
        requires
            0 <= r < b,
            c > 0,
    ;
    div_mod::lemma_fundamental_div_mod_converse((a * c) as int, (b * c) as int, q, r * c);
    assert(2 * (r * c) > b * c <==> 2 * r > b) by (nonlinear_arith)
        requires
            c > 0,
    ;
    assert(2 * (r * c) == b * c <==> 2 * r == b) by (nonlinear_arith)
        requires
            c > 0,
    ;
}

proof fn lemma_rounded_even_grows(a: nat, c: nat, b: nat)
    requires
        b > 0,
        a <= c,
    ensures
        rounded_even(a, b) <= rounded_even(c, b),
{
    div_mod::lemma_div_is_ordered(a as int, c as int, b as int);
    let q = a / b;
    if c / b == q {
        div_mod::lemma_fundamental_div_mod(a as int, b as int);
        div_mod::lemma_fundamental_div_mod(c as int, b as int);
    }
}

/// The larger quotient is rounded to no less.
proof fn lemma_rounded_even_ordered(a: nat, b: nat, c: nat, d: nat)
    requires
        b > 0,
        d > 0,
        a * d <= c * b,
    ensures
        rounded_even(a, b) <= rounded_even(c, d),
{
    lemma_rounded_even_scaled(a, b, d);
    lemma_rounded_even_scaled(c, d, b);
    assert(d * b == b * d) by (nonlinear_arith);
    lemma_rounded_even_grows(a * d, c * b, b * d);
}

// ---- what holds of the nearest double -------------------------------------

/// The nearest double has 53 binary digits and is off by at most half of the
/// last of them.
pub proof fn lemma_nearest(n: nat, d: nat)
    requires
        d > 0,
        n < d * (2 * HIDDEN_BIT),
    ensures
        ({
            let (m, s) = nearest(n, d);
            let error = m * d - n * power2::pow2(s);
            &&& n == 0 ==> m == 0 && s == 0
            &&& n > 0 ==> HIDDEN_BIT <= m
            &&& m <= 2 * HIDDEN_BIT
            &&& -(n * power2::pow2(s)) <= error * (2 * HIDDEN_BIT) <= n * power2::pow2(s)
        }),
{
    let s = places(n, d);
    let a = n * power2::pow2(s);
    let m = rounded_even(a, d);
    lemma_powers();
    power2::lemma_pow2_pos(s);
    if n == 0 {
        assert(a == 0) by (nonlinear_arith)
            requires
                n == 0,
                a == n * power2::pow2(s),
        ;
        assert(0nat / d == 0 && 0nat % d == 0) by {
            div_mod::lemma_div_of0(d as int);
            div_mod::lemma_small_mod(0, d);
        }
        assert(m == 0);
        assert(m * d == 0) by (nonlinear_arith)
            requires
                m == 0,
        ;
    } else {
        lemma_places(n, d);
        lemma_rounded_even(a, d);
        assert(a < d * (2 * HIDDEN_BIT)) by {
            if s > 0 {
                power2::lemma_pow2_unfold(s);
                let h = power2::pow2((s - 1) as nat);
                assert(n * (2 * h) == 2 * (n * h)) by (nonlinear_arith);
                assert(d * (2 * HIDDEN_BIT) == 2 * (d * HIDDEN_BIT)) by (nonlinear_arith);
            } else {
                assert(n * 1 == n) by (nonlinear_arith);
            }
        }
        div_mod::lemma_div_is_ordered((d * HIDDEN_BIT) as int, a as int, d as int);
        div_mod::lemma_div_multiples_vanish(HIDDEN_BIT as int, d as int);
        div_mod::lemma_fundamental_div_mod(a as int, d as int);
        let q = (a / d) as int;
        assert(q < 2 * HIDDEN_BIT) by (nonlinear_arith)
            requires
                d * q <= a,
                a < d * (2 * HIDDEN_BIT),
        ;
        let error = m * d - a;
        assert(-(a as int) <= error * (2 * HIDDEN_BIT) <= a) by (nonlinear_arith)
            requires
                -(d as int) <= 2 * error <= d,
                a >= d * HIDDEN_BIT,
        ;
    }
}

/// A whole number is its own nearest double.
pub proof fn lemma_nearest_exact(k: nat, d: nat)
    requires
        d > 0,
    ensures
        ({
            let (m, s) = nearest(k * d, d);
            m == k * power2::pow2(s)
        }),
{
    let s = places(k * d, d);
    let t = k * power2::pow2(s);
    assert(k * d * power2::pow2(s) == t * d + 0) by (nonlinear_arith)
        requires
            t == k * power2::pow2(s),
    ;
    div_mod::lemma_fundamental_div_mod_converse((k * d * power2::pow2(s)) as int, d as int, t as int, 0);
}

/// The nearest double of a larger quotient is no smaller.
pub proof fn lemma_nearest_ordered(n: nat, d: nat, k: nat, e: nat)
    requires
        d > 0,
        e > 0,
        n * e <= k * d,
        k < e * (2 * HIDDEN_BIT),
    ensures
        n < d * (2 * HIDDEN_BIT),
        nearest(n, d).0 * power2::pow2(nearest(k, e).1) <= nearest(k, e).0 * power2::pow2(nearest(n, d).1),
{
    let big = 2 * HIDDEN_BIT;
    assert(n < d * big) by (nonlinear_arith)
        requires
            d > 0,
            e > 0,
            n * e <= k * d,
            k < e * big,
    ;
    let (m, s) = nearest(n, d);
    let (l, t) = nearest(k, e);
    lemma_nearest(n, d);
    lemma_nearest(k, e);
    power2::lemma_pow2_pos(s);
    power2::lemma_pow2_pos(t);
    if n == 0 {
        assert(m * power2::pow2(t) == 0) by (nonlinear_arith)
            requires
                m == 0,
        ;
    } else {
        assert(k > 0) by (nonlinear_arith)
            requires
                n > 0,
                e > 0,
                n * e <= k * d,
        ;
        lemma_places(n, d);
        lemma_places(k, e);
        if s < t {
            // The larger quotient needs no more doublings.
            let h = power2::pow2((t - 1) as nat);
            if s < t - 1 {
                power2::lemma_pow2_strictly_increases(s, (t - 1) as nat);
            }
            assert(false) by (nonlinear_arith)
                requires
                    power2::pow2(s) <= h,
                    n * power2::pow2(s) >= d * HIDDEN_BIT,
                    k * h < e * HIDDEN_BIT,
                    n * e <= k * d,
                    d > 0,
                    e > 0,
                    h > 0,
            {
                assert(n * h >= n * power2::pow2(s));
                assert(n * h * e >= d * HIDDEN_BIT * e);
                assert(k * h * d < e * HIDDEN_BIT * d);
                assert(n * h * e == n * e * h);
                assert(k * h * d == k * d * h);
                assert(n * e * h <= k * d * h);
            }
        } else if s == t {
            let a = n * power2::pow2(s);
            let c = k * power2::pow2(s);
            assert(a * e <= c * d) by (nonlinear_arith)
                requires
                    a == n * power2::pow2(s),
                    c == k * power2::pow2(s),
                    n * e <= k * d,
            ;
            lemma_rounded_even_ordered(a, d, c, e);
            assert(m * power2::pow2(t) <= l * power2::pow2(s)) by (nonlinear_arith)
                requires
                    m <= l,
                    s == t,
            ;
        } else {
            power2::lemma_pow2_unfold(s);
            let h = power2::pow2((s - 1) as nat);
            if t < s - 1 {
                power2::lemma_pow2_strictly_increases(t, (s - 1) as nat);
            }
            assert(m * power2::pow2(t) <= l * power2::pow2(s)) by (nonlinear_arith)
                requires
                    m <= 2 * HIDDEN_BIT,
                    HIDDEN_BIT <= l,
                    power2::pow2(t) <= h,
                    power2::pow2(s) == 2 * h,
            ;
        }
    }
}

/// How many places a quotient with a numerator of at least `2^j` and a
/// denominator of at most `2^i` needs at most.
pub proof fn lemma_places_bound(n: nat, d: nat, j: nat, i: nat)
    requires
        power2::pow2(j) <= n,
        d <= power2::pow2(i),
    ensures
        places(n, d) <= 52 + i || places(n, d) == 0,
        52 + i >= j ==> places(n, d) <= 52 + i - j,
{
    lemma_powers();
    power2::lemma_pow2_pos(j);
    lemma_places(n, d);
    let s = places(n, d);
    if s > 0 {
        let u = (s - 1) as nat;
        assert(power2::pow2(52) == HIDDEN_BIT);
        power2::lemma_pow2_adds(j, u);
        power2::lemma_pow2_adds(i, 52);
        assert(power2::pow2(j) * power2::pow2(u) <= n * power2::pow2(u)) by (nonlinear_arith)
            requires
                power2::pow2(j) <= n,
        ;
        assert(d * HIDDEN_BIT <= power2::pow2(i) * HIDDEN_BIT) by (nonlinear_arith)
            requires
                d <= power2::pow2(i),
        ;
        if j + u >= i + 52 {
            if j + u > i + 52 {
                power2::lemma_pow2_strictly_increases(i + 52, j + u);
            }
        }
    }
}

// ---- computing it ---------------------------------------------------------

/// `2` to the power of `k`.
pub fn two_to(k: u32) -> (r: u128)
    requires
        k <= 126,
    ensures
        r == power2::pow2(k as nat),
        1 <= r <= 0x4000_0000_0000_0000_0000_0000_0000_0000,
{
    let mut r: u128 = 1;
    let mut i: u32 = 0;
    proof {
        lemma_powers();
    }
    while i < k
        invariant
            i <= k <= 126,
            r == power2::pow2(i as nat),
        decreases k - i,
    {
        proof {
            power2::lemma_pow2_unfold((i + 1) as nat);
            lemma_pow2_cap(i as nat, 125);
        }
        r = r * 2;
        i += 1;
    }
    proof {
        lemma_pow2_cap(k as nat, 126);
        power2::lemma_pow2_pos(k as nat);
    }
    r
}

proof fn lemma_pow2_cap(k: nat, cap: nat)
    requires
        k <= cap,
        cap == 125 || cap == 126,
    ensures
        power2::pow2(k) <= if cap == 125 {
            0x2000_0000_0000_0000_0000_0000_0000_0000int
        } else {
            0x4000_0000_0000_0000_0000_0000_0000_0000int
        },
{
    lemma_powers();
    if k < cap {
        power2::lemma_pow2_strictly_increases(k, cap);
    }
}

/// [`rounded_even`] on machine integers.
pub fn round_even(a: u128, b: u128) -> (r: u128)
    requires
        0 < b,
        a < u128::MAX,
    ensures
        r == rounded_even(a as nat, b as nat),
{
    let q = a / b;
    let m = a % b;
    proof {
        div_mod::lemma_fundamental_div_mod(a as int, b as int);
        assert(q <= a) by (nonlinear_arith)
            requires
                b * q <= a,
                b >= 1,
        ;
    }
    if m > b - m || (m == b - m && q % 2 == 1) {
        q + 1
    } else {
        q
    }
}

/// Whether a quotient has reached its 53 digits, with the denominator divided
/// out step by step.
proof fn lemma_reached(n: nat, d: nat, k: nat, a: nat, j: nat, s: nat)
    requires
        d > 0,
        n * power2::pow2(s) * power2::pow2(j) == a * power2::pow2(k),
    ensures
        (a / d) / power2::pow2(j) < HIDDEN_BIT <==> n * power2::pow2(s) < d * power2::pow2(k) * HIDDEN_BIT,
        (a / d) / power2::pow2(j) < HIDDEN_BIT <==> a < d * power2::pow2(j) * HIDDEN_BIT,
{
    let p = power2::pow2(j);
    let q = power2::pow2(k);
    let h = HIDDEN_BIT as nat;
    let x = n * power2::pow2(s);
    power2::lemma_pow2_pos(j);
    power2::lemma_pow2_pos(k);
    div_mod::lemma_div_denominator(a as int, d as int, p as int);
    let b = d * p;
    assert(b > 0) by (nonlinear_arith)
        requires
            b == d * p,
            d > 0,
            p > 0,
    ;
    div_mod::lemma_fundamental_div_mod(a as int, b as int);
    let r = a / b;
    assert(r < h <==> a < b * h) by (nonlinear_arith)
        requires
            b > 0,
            b * r <= a < b * r + b,
    ;
    assert(x < d * q * h <==> a < b * h) by (nonlinear_arith)
        requires
            x * p == a * q,
            b == d * p,
            p > 0,
            q > 0,
    {
        assert(x < d * q * h <==> x * p < d * q * h * p);
        assert(d * q * h * p == b * h * q);
        assert(a < b * h <==> a * q < b * h * q);
    }
}

/// The double nearest to `n / (d * 2^k)`.
pub fn nearest_double(n: u128, d: u128, k: u32) -> (r: (u128, u32))
    requires
        n < 0x100_0000_0000_0000_0000_0000,
        0 < d <= 0x100_0000_0000,
        k <= 120,
        n < d * power2::pow2(k as nat) * (2 * HIDDEN_BIT),
    ensures
        (r.0 as nat, r.1 as nat) == nearest(n as nat, d as nat * power2::pow2(k as nat)),
        r.0 <= 2 * HIDDEN_BIT,
{
    let ghost e = d as nat * power2::pow2(k as nat);
    proof {
        lemma_powers();
        power2::lemma_pow2_pos(k as nat);
        assert(e > 0) by (nonlinear_arith)
            requires
                e == d as nat * power2::pow2(k as nat),
                d > 0,
                power2::pow2(k as nat) > 0,
        ;
        lemma_nearest(n as nat, e);
    }
    if n == 0 {
        return (0, 0);
    }
    let mut a: u128 = n;
    let mut j: u32 = k;
    let mut s: u32 = 0;
    assert(n as nat * 1 * power2::pow2(k as nat) == n as nat * power2::pow2(k as nat)) by (nonlinear_arith);
    loop
        invariant_except_break
            s > 0 ==> n as nat * power2::pow2((s - 1) as nat) < e * HIDDEN_BIT,
        invariant
            0 < n < 0x100_0000_0000_0000_0000_0000,
            0 < d <= 0x100_0000_0000,
            e == d as nat * power2::pow2(k as nat),
            j <= k <= 120,
            0 < a < 0x1_0000_0000_0000_0000_0000_0000,
            n as nat * power2::pow2(s as nat) * power2::pow2(j as nat) == a as nat * power2::pow2(k as nat),
            j > 0 ==> s + j == k,
            j == 0 ==> s >= k && a >= power2::pow2((s - k) as nat),
            s <= 250,
        ensures
            s > 0 ==> n as nat * power2::pow2((s - 1) as nat) < e * HIDDEN_BIT,
            n as nat * power2::pow2(s as nat) >= e * HIDDEN_BIT,
            a >= d as nat * power2::pow2(j as nat) * HIDDEN_BIT,
        decreases
                j,
                if a < d * HIDDEN_BIT {
                    d * HIDDEN_BIT - a
                } else {
                    0
                },
    {
        proof {
            lemma_reached(n as nat, d as nat, k as nat, a as nat, j as nat, s as nat);
            power2::lemma_pow2_unfold((s + 1) as nat);
        }
        let power = two_to(j);
        if (a / d) / power >= HIDDEN_BIT as u128 {
            break;
        }
        let ghost now = n as nat * power2::pow2(s as nat);
        if j > 0 {
            proof {
                power2::lemma_pow2_unfold(j as nat);
                let half = power2::pow2((j - 1) as nat);
                assert(n as nat * (2 * power2::pow2(s as nat)) * half == now * (2 * half))
                    by (nonlinear_arith)
                    requires
                        now == n as nat * power2::pow2(s as nat),
                ;
                if j == 1 {
                    lemma_powers();
                }
            }
            j -= 1;
        } else {
            proof {
                lemma_powers();
                let t = (s - k) as nat;
                power2::lemma_pow2_unfold(t + 1);
                assert(d * 1 * HIDDEN_BIT <= 0x100_0000_0000 * HIDDEN_BIT) by (nonlinear_arith)
                    requires
                        d <= 0x100_0000_0000,
                ;
                if t >= 93 {
                    if t > 93 {
                        power2::lemma_pow2_strictly_increases(93, t);
                    }
                }
                assert(now * 1 == now) by (nonlinear_arith);
                assert(n as nat * (2 * power2::pow2(s as nat)) * 1 == 2 * now) by (nonlinear_arith)
                    requires
                        now == n as nat * power2::pow2(s as nat),
                ;
                assert((2 * a as nat) * power2::pow2(k as nat) == 2 * (a as nat * power2::pow2(k as nat)))
                    by (nonlinear_arith);
            }
            a = a * 2;
        }
        s += 1;
    }
    let power = two_to(j);
    proof {
        let p = power2::pow2(j as nat);
        let q = power2::pow2(k as nat);
        let x = n as nat * power2::pow2(s as nat);
        power2::lemma_pow2_pos(j as nat);
        lemma_places_is(n as nat, e, s as nat);
        assert(d * power <= a) by (nonlinear_arith)
            requires
                a >= d * power * HIDDEN_BIT,
                HIDDEN_BIT >= 1,
        ;
        assert(d * power > 0) by (nonlinear_arith)
            requires
                d > 0,
                power > 0,
        ;
        lemma_rounded_even_scaled(x, e, p);
        lemma_rounded_even_scaled(a as nat, d as nat * p, q);
        assert(e * p == d as nat * p * q) by (nonlinear_arith)
            requires
                e == d as nat * q,
        ;
    }
    let m = round_even(a, d * power);
    (m, s)
}

/// Rounding to even goes to the nearest whole number, and of two that are as
/// near to the even one.
pub proof fn law_rounded_even(a: nat, b: nat)
    requires
        b > 0,
    ensures
        ({
            let r = rounded_even(a, b);
            &&& -(b as int) <= 2 * (r * b - a) <= b
            &&& 2 * (r * b - a) == b || 2 * (r * b - a) == -(b as int) ==> r % 2 == 0
        }),
{
    lemma_rounded_even(a, b);
    let q = a / b;
    let m = a % b;
    let r = rounded_even(a, b);
    div_mod::lemma_fundamental_div_mod(a as int, b as int);
    assert(b * q == q * b) by (nonlinear_arith);
    assert((q + 1) * b == q * b + b) by (nonlinear_arith);
    if r == q + 1 {
        assert(r * b - a == b - m);
    } else {
        assert(r * b - a == -(m as int));
    }
}

/// A double has 53 binary digits: it is the nearest multiple of its last place
/// to the number, with a numerator of at least `2^52` unless it is 0.
pub proof fn law_nearest_double(n: nat, d: nat)
    requires
        d > 0,
        n < d * (2 * HIDDEN_BIT),
    ensures
        ({
            let (m, s) = nearest(n, d);
            let off = m * d - n * power2::pow2(s);
            &&& -(d as int) <= 2 * off <= d
            &&& n > 0 ==> 0x10_0000_0000_0000 <= m <= 0x20_0000_0000_0000
            &&& n == 0 ==> m == 0
            &&& 2 * off == d || 2 * off == -(d as int) ==> m % 2 == 0
        }),
{
    lemma_nearest(n, d);
    law_rounded_even(n * power2::pow2(places(n, d)), d);
}

} // verus!
