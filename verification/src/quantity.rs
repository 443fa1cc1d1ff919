//! Quantities: temperatures (°C), duties (%) and times (s), all held as a
//! whole number of billionths.

use vstd::arithmetic::power2;
use vstd::prelude::*;
use crate::double;
use crate::number;
use crate::text;

verus! {

/// One whole unit: one degree, one percent, one second.
pub const UNIT: i64 = 1_000_000_000;

/// A duty of 100 %.
pub const FULL: i64 = 100_000_000_000;

// ---- arithmetic -----------------------------------------------------------

/// `v` moved into `lo..=hi`.
pub open spec fn clamped(v: int, lo: int, hi: int) -> int {
    if v < lo {
        lo
    } else if v > hi {
        hi
    } else {
        v
    }
}

pub fn clamp(v: i64, lo: i64, hi: i64) -> (r: i64)
    requires
        lo <= hi,
    ensures
        r == clamped(v as int, lo as int, hi as int),
{
    if v < lo {
        lo
    } else if v > hi {
        hi
    } else {
        v
    }
}

/// `v` moved into the range of `i64`.
pub open spec fn saturated(v: int) -> int {
    clamped(v, i64::MIN as int, i64::MAX as int)
}

/// `a / b` rounded to the nearest whole number, a tie upwards.
pub open spec fn rounded(a: int, b: int) -> int {
    (2 * a + b) / (2 * b)
}

/// `v` thousandths as a quantity (the kernel counts in thousandths).
pub open spec fn from_milli(v: int) -> int {
    saturated(v * 1_000_000)
}

pub fn milli(v: i64) -> (r: i64)
    ensures
        r == from_milli(v as int),
{
    let w: i128 = (v as i128) * 1_000_000;
    if w > i64::MAX as i128 {
        i64::MAX
    } else if w < i64::MIN as i128 {
        i64::MIN
    } else {
        w as i64
    }
}

/// [`rounded`] is the nearest: it is off by at most half of `b`.
pub proof fn lemma_rounded(a: int, b: int)
    requires
        b > 0,
    ensures
        2 * b * rounded(a, b) <= 2 * a + b < 2 * b * (rounded(a, b) + 1),
{
    let n = 2 * a + b;
    let d = 2 * b;
    vstd::arithmetic::div_mod::lemma_fundamental_div_mod(n, d);
    assert(0 <= n % d < d);
    assert(d * (n / d + 1) == d * (n / d) + d) by (nonlinear_arith);
}

pub proof fn lemma_rounded_monotonic(a: int, c: int, b: int)
    requires
        b > 0,
        a <= c,
    ensures
        rounded(a, b) <= rounded(c, b),
{
    vstd::arithmetic::div_mod::lemma_div_is_ordered(2 * a + b, 2 * c + b, 2 * b);
}

/// A whole number of `b`s is rounded to just that number.
pub proof fn lemma_rounded_exact(q: int, b: int)
    requires
        b > 0,
    ensures
        rounded(q * b, b) == q,
{
    let n = 2 * (q * b) + b;
    assert(n == q * (2 * b) + b) by (nonlinear_arith)
        requires
            n == 2 * (q * b) + b,
    ;
    vstd::arithmetic::div_mod::lemma_fundamental_div_mod_converse(n, 2 * b, q, b);
}

/// [`rounded`] by quotient and remainder, for a number and its negation.
pub proof fn lemma_rounded_parts(x: int, b: int)
    requires
        b > 0,
        x >= 0,
    ensures
        rounded(x, b) == x / b + if 2 * (x % b) >= b {
            1int
        } else {
            0
        },
        rounded(-x, b) == -(x / b) - if 2 * (x % b) > b {
            1int
        } else {
            0
        },
{
    let q = x / b;
    let m = x % b;
    vstd::arithmetic::div_mod::lemma_fundamental_div_mod(x, b);
    assert(0 <= m < b);
    let up = if 2 * m >= b {
        1int
    } else {
        0
    };
    let r = 2 * m + b - 2 * b * up;
    assert(2 * x + b == (q + up) * (2 * b) + r) by (nonlinear_arith)
        requires
            x == b * q + m,
            r == 2 * m + b - 2 * b * up,
    ;
    assert(0 <= r < 2 * b);
    vstd::arithmetic::div_mod::lemma_fundamental_div_mod_converse(2 * x + b, 2 * b, q + up, r);
    let dn = if 2 * m > b {
        1int
    } else {
        0
    };
    let t = -2 * m + b + 2 * b * dn;
    assert(-2 * x + b == (-q - dn) * (2 * b) + t) by (nonlinear_arith)
        requires
            x == b * q + m,
            t == -2 * m + b + 2 * b * dn,
    ;
    assert(0 <= t < 2 * b);
    vstd::arithmetic::div_mod::lemma_fundamental_div_mod_converse(-2 * x + b, 2 * b, -q - dn, t);
}

pub fn round_div(a: i128, b: i128) -> (r: i128)
    requires
        0 < b <= 0xffff_ffff_ffff_ffff_ffff,
        -0xffff_ffff_ffff_ffff_ffff_ffff <= a <= 0xffff_ffff_ffff_ffff_ffff_ffff,
    ensures
        r == rounded(a as int, b as int),
{
    let n: i128 = 2 * a + b;
    let d: i128 = 2 * b;
    if n >= 0 {
        n / d
    } else {
        let m: i128 = -n;
        let q: i128 = m / d;
        proof {
            vstd::arithmetic::div_mod::lemma_fundamental_div_mod(m as int, d as int);
        }
        if m % d == 0 {
            proof {
                assert(n as int == (-(q as int)) * (d as int) + 0) by (nonlinear_arith)
                    requires
                        m == -n,
                        m as int == (d as int) * (q as int) + 0,
                ;
                vstd::arithmetic::div_mod::lemma_fundamental_div_mod_converse(
                    n as int,
                    d as int,
                    -(q as int),
                    0,
                );
            }
            -q
        } else {
            let ghost rem = (m % d) as int;
            proof {
                assert(n as int == (-(q as int) - 1) * (d as int) + (d - rem)) by (nonlinear_arith)
                    requires
                        m == -n,
                        m as int == (d as int) * (q as int) + rem,
                ;
                vstd::arithmetic::div_mod::lemma_fundamental_div_mod_converse(
                    n as int,
                    d as int,
                    -(q as int) - 1,
                    d - rem,
                );
            }
            -q - 1
        }
    }
}

// ---- writing --------------------------------------------------------------

/// The last `width` decimal digits of `n`, leading zeros included.
pub open spec fn last_digits(n: nat, width: nat) -> Seq<char>
    decreases width,
{
    if width == 0 {
        Seq::empty()
    } else {
        last_digits(n / 10, (width - 1) as nat).push(number::digit_char((n % 10) as int))
    }
}

fn last_digits_text(n: u64, width: usize) -> (r: String)
    ensures
        r@ == last_digits(n as nat, width as nat),
    decreases width,
{
    if width == 0 {
        let r = String::new();
        assert(r@ =~= last_digits(n as nat, 0));
        r
    } else {
        let mut r = last_digits_text(n / 10, width - 1);
        r.push(number::digit_of(n % 10));
        r
    }
}

/// The minus sign of a negative quantity.
pub open spec fn sign_of(v: int) -> Seq<char> {
    if v < 0 {
        seq!['-']
    } else {
        Seq::empty()
    }
}

/// The size of `v`, without its sign.
pub open spec fn size_of(v: int) -> nat {
    if v < 0 {
        (-v) as nat
    } else {
        v as nat
    }
}

/// A quantity with just the decimals it needs: `30`, `37.5`, `-0.25`.
pub open spec fn shown(v: int) -> Seq<char> {
    let a = size_of(v);
    let frac = a % (UNIT as nat);
    sign_of(v) + number::decimal(a / (UNIT as nat)) + if frac == 0 {
        Seq::empty()
    } else {
        seq!['.'] + text::without_trailing(last_digits(frac, 9), '0')
    }
}

/// The double nearest to a quantity, rounded to a whole number, a tie to the
/// even one: `57`.
pub open spec fn shown_whole(v: int) -> Seq<char> {
    let (m, s) = double::nearest(size_of(v), UNIT as nat);
    sign_of(v) + number::decimal(double::rounded_even(m, power2::pow2(s)))
}

/// The double nearest to a quantity, rounded to one decimal, a tie to the even
/// one: `57.5`. A decimal such as `34.85` lies just above or below its double,
/// so it is no tie.
pub open spec fn shown_tenths(v: int) -> Seq<char> {
    let (m, s) = double::nearest(size_of(v), UNIT as nat);
    let t = double::rounded_even(10 * m, power2::pow2(s));
    sign_of(v) + number::decimal(t / 10) + seq!['.'] + seq![number::digit_char((t % 10) as int)]
}

/// A quantity rounded to a whole number, a tie away from zero.
pub open spec fn nearest_whole(v: int) -> int {
    if v < 0 {
        -rounded(-v, UNIT as int)
    } else {
        rounded(v, UNIT as int)
    }
}

fn size(v: i64) -> (r: u64)
    ensures
        r == size_of(v as int),
{
    if v < 0 {
        (-(v as i128)) as u64
    } else {
        v as u64
    }
}

fn sign(v: i64) -> (r: String)
    ensures
        r@ == sign_of(v as int),
{
    let mut r = String::new();
    if v < 0 {
        r.push('-');
    }
    assert(r@ =~= sign_of(v as int));
    r
}

/// The double nearest to a quantity without its sign: see
/// [`double::nearest`].
fn double_of(v: i64) -> (r: (u128, u32))
    ensures
        (r.0 as nat, r.1 as nat) == double::nearest(size_of(v as int), UNIT as nat),
        r.0 <= 0x20_0000_0000_0000,
        r.1 <= 82,
{
    let a = size(v);
    proof {
        power2::lemma2_to64();
        assert(UNIT as nat * 1 == UNIT);
        if a > 0 {
            double::lemma_places_bound(a as nat, UNIT as nat, 0, 30);
        }
    }
    double::nearest_double(a as u128, 1_000_000_000, 0)
}

pub fn quantity_text(v: i64) -> (r: String)
    ensures
        r@ == shown(v as int),
{
    let a = size(v);
    let whole = number::u64_text(a / 1_000_000_000);
    let mut r = sign(v);
    r.append(whole.as_str());
    let frac = a % 1_000_000_000;
    if frac != 0 {
        let digits = last_digits_text(frac, 9);
        let digits = text::trim_end_matches(digits.as_str(), '0');
        let mut tail = String::new();
        tail.push('.');
        tail.append(digits.as_str());
        assert(tail@ =~= seq!['.'] + digits@);
        r.append(tail.as_str());
    } else {
        assert(r@ + Seq::<char>::empty() =~= r@);
    }
    r
}

proof fn lemma_rounded_even_bound(a: nat, b: nat)
    requires
        b > 0,
    ensures
        double::rounded_even(a, b) <= a,
{
    double::lemma_rounded_even(a, b);
    let r = double::rounded_even(a, b);
    if b == 1 {
        assert(r * b == r) by (nonlinear_arith)
            requires
                b == 1,
        ;
    } else {
        assert(r <= a) by (nonlinear_arith)
            requires
                2 * (r * b - a) <= b,
                b >= 2,
        ;
    }
}

pub fn whole_text(v: i64) -> (r: String)
    ensures
        r@ == shown_whole(v as int),
{
    let (m, s) = double_of(v);
    let n = double::round_even(m, double::two_to(s));
    proof {
        lemma_rounded_even_bound(m as nat, power2::pow2(s as nat));
    }
    let d = number::u64_text(n as u64);
    let mut r = sign(v);
    r.append(d.as_str());
    r
}

pub fn tenths_text(v: i64) -> (r: String)
    ensures
        r@ == shown_tenths(v as int),
{
    let (m, s) = double_of(v);
    let t = double::round_even(10 * m, double::two_to(s));
    proof {
        lemma_rounded_even_bound(10 * m as nat, power2::pow2(s as nat));
    }
    let t = t as u64;
    let d = number::u64_text(t / 10);
    let mut r = sign(v);
    r.append(d.as_str());
    let ghost head = r@;
    r.push('.');
    r.push(number::digit_of(t % 10));
    assert(r@ =~= head + seq!['.'] + seq![number::digit_char((t % 10) as int)]);
    r
}

pub fn nearest(v: i64) -> (r: i64)
    ensures
        r == nearest_whole(v as int),
{
    if v < 0 {
        let q = round_div(-(v as i128), 1_000_000_000);
        proof {
            lemma_rounded(-v, 1_000_000_000);
            lemma_rounded_monotonic(0, -v, 1_000_000_000);
        }
        (-q) as i64
    } else {
        let q = round_div(v as i128, 1_000_000_000);
        proof {
            lemma_rounded(v as int, 1_000_000_000);
            lemma_rounded_monotonic(0, v as int, 1_000_000_000);
        }
        q as i64
    }
}

// ---- reading --------------------------------------------------------------

/// `10` to the power of `n`.
pub open spec fn pow10(n: nat) -> nat
    decreases n,
{
    if n == 0 {
        1
    } else {
        10 * pow10((n - 1) as nat)
    }
}

/// The whole part of the number written by the digits `d` with the decimal
/// point after the first `p` of them. The point may lie beyond either end of
/// the digits.
pub open spec fn whole_part(d: Seq<char>, p: int) -> nat {
    if p < 0 {
        0
    } else if p < d.len() {
        number::digits_value(d.take(p))
    } else {
        number::digits_value(d) * pow10((p - d.len()) as nat)
    }
}

/// Whether nothing but zeros stands behind the point.
pub open spec fn is_whole(d: Seq<char>, p: int) -> bool {
    forall|i: int| 0 <= i < d.len() && p <= i ==> d[i] == '0'
}

/// The number rounded to a whole number, a tie upwards.
pub open spec fn pointed(d: Seq<char>, p: int) -> nat {
    whole_part(d, p) + if 0 <= p < d.len() && d[p] >= '5' {
        1
    } else {
        0nat
    }
}

/// The number rounded up to a whole number.
pub open spec fn pointed_up(d: Seq<char>, p: int) -> nat {
    whole_part(d, p) + if is_whole(d, p) {
        0nat
    } else {
        1
    }
}

/// The quantity next to a size, the largest one for anything beyond it.
pub open spec fn signed_size(size: nat, negative: bool) -> i64 {
    let v = clamped(size as int, 0, i64::MAX as int);
    (if negative {
        -v
    } else {
        v
    }) as i64
}

/// The position of the first `e` or `E` in `s`, or the length of `s`.
pub open spec fn exponent_mark(s: Seq<char>) -> nat {
    let a = text::first_of(s, 'e');
    let b = text::first_of(s, 'E');
    if a <= b {
        a
    } else {
        b
    }
}

/// The exponent written by `s`: an optional sign and at least one digit.
pub open spec fn exponent_value(s: Seq<char>) -> Option<int> {
    let signed = s.len() > 0 && (s[0] == '-' || s[0] == '+');
    let t = if signed {
        s.skip(1)
    } else {
        s
    };
    if t.len() > 0 && number::all_digits(t) {
        Some(
            if signed && s[0] == '-' {
                -number::digits_value(t)
            } else {
                number::digits_value(t) as int
            },
        )
    } else {
        None
    }
}

/// `s` without its first decimal point.
pub open spec fn without_point(s: Seq<char>) -> Seq<char> {
    let dot = text::first_of(s, '.') as int;
    if dot < s.len() {
        s.take(dot) + s.skip(dot + 1)
    } else {
        s
    }
}

/// A number as it was written: the nearest quantity, and the ones next to it
/// below and above.
#[derive(Clone, Copy, Debug, PartialEq, Eq)]
pub struct Written {
    pub value: i64,
    pub floor: i64,
    pub ceiling: i64,
}

/// What a text says as a number.
#[derive(Clone, Copy, Debug, PartialEq, Eq)]
pub enum Reading {
    Number(Written),
    /// The text `nan`.
    NotANumber,
}

impl Reading {
    /// The nearest quantity to the number, if that is one and lies in
    /// `lo..=hi` as it was written.
    pub open spec fn within(self, lo: int, hi: int) -> Option<int> {
        match self {
            Reading::Number(w) => if lo <= w.floor && w.ceiling <= hi {
                Some(w.value as int)
            } else {
                None
            },
            Reading::NotANumber => None,
        }
    }

    pub fn in_range(&self, lo: i64, hi: i64) -> (r: Option<i64>)
        ensures
            r is Some <==> self.within(lo as int, hi as int) is Some,
            r matches Some(v) ==> self.within(lo as int, hi as int) == Some(v as int),
    {
        match self {
            Reading::Number(w) => if lo <= w.floor && w.ceiling <= hi {
                Some(w.value)
            } else {
                None
            },
            Reading::NotANumber => None,
        }
    }
}

/// The number written by the digits `d` with the decimal point after the
/// first `p` of them.
pub open spec fn written(d: Seq<char>, p: int, negative: bool) -> Written {
    let down = signed_size(whole_part(d, p), negative);
    let up = signed_size(pointed_up(d, p), negative);
    Written {
        value: signed_size(pointed(d, p), negative),
        floor: if negative {
            up
        } else {
            down
        },
        ceiling: if negative {
            down
        } else {
            up
        },
    }
}

/// A number beyond every quantity.
pub open spec fn infinite(negative: bool) -> Written {
    let v = signed_size(i64::MAX as nat, negative);
    Written { value: v, floor: v, ceiling: v }
}

/// Whether `c` is the lower case letter `w`, in either case.
pub open spec fn same_letter(c: char, w: char) -> bool {
    c == w || ('A' <= c && c <= 'Z' && 'a' <= w && w <= 'z' && c as int + 32 == w as int)
}

/// Whether `s` is the lower case word `w`, in any case.
pub open spec fn is_word(s: Seq<char>, w: Seq<char>) -> bool {
    s.len() == w.len() && forall|i: int|
        0 <= i < s.len() ==> #[trigger] same_letter(s[i], w[i])
}

/// `s` without a leading sign.
pub open spec fn unsigned(s: Seq<char>) -> Seq<char> {
    if s.len() > 0 && (s[0] == '-' || s[0] == '+') {
        s.skip(1)
    } else {
        s
    }
}

/// What `s` says as a number: an optional sign, digits with at most one
/// decimal point among them, and an optional exponent, in billionths; or one
/// of the words `inf`, `infinity` and `nan`, with an optional sign too.
pub open spec fn parsed_number(s: Seq<char>) -> Option<Reading> {
    let negative = s.len() > 0 && s[0] == '-';
    let t = unsigned(s);
    let mark = exponent_mark(t) as int;
    let mantissa = t.take(mark);
    let exponent = if mark < t.len() {
        exponent_value(t.skip(mark + 1))
    } else {
        Some(0int)
    };
    let dot = text::first_of(mantissa, '.') as int;
    let digits = without_point(mantissa);
    if is_word(t, "inf"@) || is_word(t, "infinity"@) {
        Some(Reading::Number(infinite(negative)))
    } else if is_word(t, "nan"@) {
        Some(Reading::NotANumber)
    } else if digits.len() > 0 && number::all_digits(digits) && exponent is Some {
        Some(Reading::Number(written(digits, dot + exponent->0 + 9, negative)))
    } else {
        None
    }
}

/// The quantity written by `s`: the nearest billionth, and the largest
/// quantity for anything beyond it.
pub open spec fn parsed_quantity(s: Seq<char>) -> Option<int> {
    match parsed_number(s) {
        Some(Reading::Number(w)) => Some(w.value as int),
        _ => None,
    }
}

proof fn lemma_pow10_grows(a: nat, b: nat)
    requires
        a <= b,
    ensures
        1 <= pow10(a) <= pow10(b),
    decreases b,
{
    if b == 0 {
    } else if a == b {
        lemma_pow10_grows((a - 1) as nat, (a - 1) as nat);
    } else {
        lemma_pow10_grows(a, (b - 1) as nat);
    }
}

/// Once the digits are moved twenty places, any number but zero is beyond the
/// largest quantity.
proof fn lemma_far_point(v: nat, n: nat)
    requires
        n >= 20,
    ensures
        v == 0 ==> v * pow10(n) == 0,
        v > 0 ==> v * pow10(n) > i64::MAX,
{
    reveal_with_fuel(pow10, 21);
    assert(pow10(20) == 100_000_000_000_000_000_000);
    lemma_pow10_grows(20, n);
    assert(v > 0 ==> v * pow10(n) >= pow10(n)) by (nonlinear_arith);
    assert(v == 0 ==> v * pow10(n) == 0) by (nonlinear_arith);
}

/// The number written by `v[from..to]`, cut off at `limit`.
fn capped_digits(v: &Vec<char>, from: usize, to: usize, limit: i128) -> (r: i128)
    requires
        from <= to <= v@.len(),
        0 < limit <= 0x100_0000_0000_0000_0000,
        number::all_digits(v@.subrange(from as int, to as int)),
    ensures
        r == clamped(
            number::digits_value(v@.subrange(from as int, to as int)) as int,
            0,
            limit as int,
        ),
{
    let ghost t = v@.subrange(from as int, to as int);
    let mut acc: i128 = 0;
    let mut i: usize = from;
    assert(t.take(0) =~= Seq::<char>::empty());
    while i < to
        invariant
            from <= i <= to <= v@.len(),
            0 < limit <= 0x100_0000_0000_0000_0000,
            t == v@.subrange(from as int, to as int),
            number::all_digits(t),
            acc == clamped(number::digits_value(t.take(i - from)) as int, 0, limit as int),
        decreases to - i,
    {
        let c = v[i];
        assert(t[i - from] == c);
        assert(text::digit(t[i - from]));
        let d: i128 = (c as i128) - ('0' as i128);
        let next: i128 = acc * 10 + d;
        assert(t.take(i - from + 1).drop_last() =~= t.take(i - from));
        acc = if next > limit {
            limit
        } else {
            next
        };
        i += 1;
    }
    assert(t.take(i - from) =~= t);
    acc
}

/// Whether `v[from..to]` holds digits only.
fn only_digits(v: &Vec<char>, from: usize, to: usize) -> (r: bool)
    requires
        from <= to <= v@.len(),
    ensures
        r == number::all_digits(v@.subrange(from as int, to as int)),
{
    let ghost t = v@.subrange(from as int, to as int);
    let mut i: usize = from;
    while i < to
        invariant
            from <= i <= to <= v@.len(),
            t == v@.subrange(from as int, to as int),
            forall|j: int| from <= j < i ==> text::digit(#[trigger] v@[j]),
        decreases to - i,
    {
        if !text::is_digit(v[i]) {
            assert(!text::digit(t[i - from]));
            return false;
        }
        i += 1;
    }
    true
}

/// [`whole_part`], cut off at the largest quantity.
fn capped_whole(d: &Vec<char>, p: i128) -> (r: i64)
    requires
        number::all_digits(d@),
        p <= 0x4000_0000_0000_0000_0000,
    ensures
        r == clamped(whole_part(d@, p as int) as int, 0, i64::MAX as int),
{
    if p < 0 {
        return 0;
    }
    assert(d@.subrange(0, d@.len() as int) =~= d@);
    let len: i128 = d.len() as i128;
    if p < len {
        let at: usize = p as usize;
        assert(d@.subrange(0, at as int) =~= d@.take(at as int));
        capped_digits(d, 0, at, i64::MAX as i128) as i64
    } else {
        let ghost v = number::digits_value(d@);
        let mut acc = capped_digits(d, 0, d.len(), i64::MAX as i128);
        let mut left: i128 = p - len;
        let ghost total = left as nat;
        assert(pow10(0) == 1);
        assert(v * 1 == v) by (nonlinear_arith);
        while left > 0 && acc > 0 && acc < i64::MAX as i128
            invariant
                0 <= left <= total,
                acc == clamped((v * pow10((total - left) as nat)) as int, 0, i64::MAX as int),
            decreases left,
        {
            let ghost done = (total - left) as nat;
            acc = acc * 10;
            if acc > i64::MAX as i128 {
                acc = i64::MAX as i128;
            }
            left -= 1;
            proof {
                assert(pow10(done + 1) == 10 * pow10(done));
                assert(v * pow10(done + 1) == 10 * (v * pow10(done))) by (nonlinear_arith)
                    requires
                        pow10(done + 1) == 10 * pow10(done),
                ;
            }
        }
        proof {
            let done = (total - left) as nat;
            lemma_pow10_grows(done, total);
            assert(v * pow10(done) <= v * pow10(total)) by (nonlinear_arith)
                requires
                    pow10(done) <= pow10(total),
            ;
            if acc == 0 {
                assert(v == 0) by (nonlinear_arith)
                    requires
                        v * pow10(done) == 0,
                        pow10(done) >= 1,
                ;
                assert(v * pow10(total) == 0) by (nonlinear_arith)
                    requires
                        v == 0,
                ;
            }
        }
        acc as i64
    }
}

/// Whether nothing but zeros stands behind the point.
fn ends_in_zeros(d: &Vec<char>, p: i128) -> (r: bool)
    ensures
        r == is_whole(d@, p as int),
{
    let mut i: usize = 0;
    while i < d.len()
        invariant
            i <= d@.len(),
            forall|j: int| 0 <= j < i && p <= j ==> d@[j] == '0',
        decreases d@.len() - i,
    {
        if p <= i as i128 && d[i] != '0' {
            return false;
        }
        i += 1;
    }
    true
}

/// The next quantity, if there is a larger one.
fn next_size(size: i64, up: bool) -> (r: i64)
    requires
        size >= 0,
    ensures
        up ==> r == clamped(size + 1, 0, i64::MAX as int),
        !up ==> r == size,
{
    if up && size < i64::MAX {
        size + 1
    } else {
        size
    }
}

/// The number written by digits with the point behind the first `p` of them.
fn read_digits(d: &Vec<char>, p: i128, negative: bool) -> (r: Written)
    requires
        number::all_digits(d@),
        p <= 0x4000_0000_0000_0000_0000,
    ensures
        r == written(d@, p as int, negative),
{
    let down = capped_whole(d, p);
    let half = 0 <= p && p < d.len() as i128 && d[p as usize] >= '5';
    let value = next_size(down, half);
    let zeros = ends_in_zeros(d, p);
    let up = next_size(down, !zeros);
    if negative {
        Written { value: -value, floor: -up, ceiling: -down }
    } else {
        Written { value, floor: down, ceiling: up }
    }
}

/// Whether `v[from..]` is a lower case word, in any case.
fn reads_as(v: &Vec<char>, from: usize, w: &str) -> (r: bool)
    requires
        from <= v@.len(),
    ensures
        r == is_word(v@.skip(from as int), w@),
{
    let ghost t = v@.skip(from as int);
    let x = text::chars_of(w);
    assert(v@.len() == v.len());
    if v.len() - from != x.len() {
        return false;
    }
    let mut i: usize = 0;
    while i < x.len()
        invariant
            i <= x@.len(),
            x@.len() == v@.len() - from,
            v@.len() <= usize::MAX,
            x@ == w@,
            t == v@.skip(from as int),
            forall|j: int| 0 <= j < i ==> #[trigger] same_letter(t[j], w@[j]),
        decreases x@.len() - i,
    {
        let c: char = v[from + i];
        let l: char = x[i];
        assert(c == t[i as int]);
        let upper = 'A' <= c && c <= 'Z' && 'a' <= l && l <= 'z' && c as i128 + 32 == l as i128;
        if c != l && !upper {
            assert(!same_letter(t[i as int], w@[i as int]));
            return false;
        }
        i += 1;
    }
    true
}

/// The digits of the mantissa `v[from..to]`, and how many of them stand before
/// the point.
fn mantissa(v: &Vec<char>, from: usize, to: usize) -> (r: (Vec<char>, usize))
    requires
        from <= to <= v@.len(),
    ensures
        r.0@ == without_point(v@.subrange(from as int, to as int)),
        r.1 == text::first_of(v@.subrange(from as int, to as int), '.'),
        r.1 <= to - from,
{
    let ghost m = v@.subrange(from as int, to as int);
    let mut dot: usize = from;
    let mut digits: Vec<char> = Vec::new();
    while dot < to && v[dot] != '.'
        invariant
            from <= dot <= to <= v@.len(),
            digits@ == v@.subrange(from as int, dot as int),
            forall|j: int| from <= j < dot ==> v@[j] != '.',
        decreases to - dot,
    {
        digits.push(v[dot]);
        dot += 1;
        assert(v@.subrange(from as int, dot as int) =~= v@.subrange(from as int, dot - 1).push(
            v@[dot - 1],
        ));
    }
    proof {
        text::lemma_first_of_is(m, '.', (dot - from) as nat);
    }
    if dot < to {
        let mut i: usize = dot + 1;
        assert(v@.subrange(dot + 1, i as int) =~= Seq::<char>::empty());
        while i < to
            invariant
                dot < i <= to <= v@.len(),
                from <= dot,
                digits@ =~= v@.subrange(from as int, dot as int) + v@.subrange(dot + 1, i as int),
            decreases to - i,
        {
            digits.push(v[i]);
            i += 1;
            assert(v@.subrange(dot + 1, i as int) =~= v@.subrange(dot + 1, i - 1).push(v@[i - 1]));
        }
        assert(m.take(dot - from) =~= v@.subrange(from as int, dot as int));
        assert(m.skip(dot - from + 1) =~= v@.subrange(dot + 1, to as int));
    } else {
        assert(m =~= v@.subrange(from as int, dot as int));
    }
    (digits, dot - from)
}

/// The largest exponent that is told apart from larger ones.
pub const EXPONENT_LIMIT: i128 = 0x40_0000_0000_0000_0000;

/// The exponent written by `v[from..]`, cut off at the limit on both sides.
fn exponent(v: &Vec<char>, from: usize) -> (r: Option<i128>)
    requires
        from <= v@.len(),
    ensures
        r is Some <==> exponent_value(v@.skip(from as int)) is Some,
        r matches Some(e) ==> e == clamped(
            exponent_value(v@.skip(from as int))->0,
            -EXPONENT_LIMIT as int,
            EXPONENT_LIMIT as int,
        ),
{
    let ghost e = v@.skip(from as int);
    let minus = from < v.len() && v[from] == '-';
    let plus = from < v.len() && v[from] == '+';
    let start: usize = if minus || plus {
        from + 1
    } else {
        from
    };
    assert((if minus || plus {
        e.skip(1)
    } else {
        e
    }) =~= v@.subrange(start as int, v@.len() as int));
    if start == v.len() || !only_digits(v, start, v.len()) {
        return None;
    }
    let n = capped_digits(v, start, v.len(), EXPONENT_LIMIT);
    if minus {
        Some(-n)
    } else {
        Some(n)
    }
}

/// Cutting off the exponent makes no difference to the quantity.
proof fn lemma_exponent_limit(d: Seq<char>, whole: int, e: int, negative: bool)
    requires
        0 <= whole <= d.len() <= usize::MAX,
    ensures
        written(d, whole + e + 9, negative) == written(
            d,
            whole + clamped(e, -EXPONENT_LIMIT as int, EXPONENT_LIMIT as int) + 9,
            negative,
        ),
{
    let p = whole + e + 9;
    let q = whole + clamped(e, -EXPONENT_LIMIT as int, EXPONENT_LIMIT as int) + 9;
    if e > EXPONENT_LIMIT {
        lemma_far_point(number::digits_value(d), (p - d.len()) as nat);
        lemma_far_point(number::digits_value(d), (q - d.len()) as nat);
        assert(is_whole(d, p) && is_whole(d, q));
    } else if e < -EXPONENT_LIMIT {
        assert(is_whole(d, p) == is_whole(d, q));
    }
}

/// Read a number written in decimal notation, or by one of the words for a
/// number without end or none at all.
#[verifier::rlimit(50)]
#[verifier::spinoff_prover]
pub fn parse_number(s: &str) -> (r: Option<Reading>)
    ensures
        r == parsed_number(s@),
{
    let v = text::chars_of(s);
    let negative = v.len() > 0 && v[0] == '-';
    let signed = negative || (v.len() > 0 && v[0] == '+');
    let from: usize = if signed {
        1
    } else {
        0
    };
    let ghost t = v@.skip(from as int);
    assert(v@.skip(0) =~= v@);
    assert(t == unsigned(s@));
    if reads_as(&v, from, "inf") || reads_as(&v, from, "infinity") {
        let size: i64 = if negative {
            -i64::MAX
        } else {
            i64::MAX
        };
        return Some(Reading::Number(Written { value: size, floor: size, ceiling: size }));
    }
    if reads_as(&v, from, "nan") {
        return Some(Reading::NotANumber);
    }
    let a = text::find_from(&v, from, 'e');
    let b = text::find_from(&v, from, 'E');
    let mark = if a <= b {
        a
    } else {
        b
    };
    assert(v@.subrange(from as int, mark as int) =~= t.take(mark - from));
    let (digits, whole) = mantissa(&v, from, mark);
    assert(digits@.subrange(0, digits@.len() as int) =~= digits@);
    assert(whole <= digits@.len());
    if digits.len() == 0 || !only_digits(&digits, 0, digits.len()) {
        return None;
    }
    let mut shift: i128 = 0;
    if mark < v.len() {
        assert(t.skip(mark - from + 1) =~= v@.skip(mark + 1));
        match exponent(&v, mark + 1) {
            Some(e) => {
                shift = e;
                proof {
                    lemma_exponent_limit(
                        digits@,
                        whole as int,
                        exponent_value(v@.skip(mark + 1))->0,
                        negative,
                    );
                }
            },
            None => {
                return None;
            },
        }
    }
    assert(digits@.len() == digits.len());
    Some(Reading::Number(read_digits(&digits, (whole as i128) + shift + 9, negative)))
}

/// Read a quantity.
pub fn parse_quantity(s: &str) -> (r: Option<i64>)
    ensures
        r is Some <==> parsed_quantity(s@) is Some,
        r matches Some(v) ==> parsed_quantity(s@) == Some(v as int),
{
    match parse_number(s) {
        Some(Reading::Number(w)) => Some(w.value),
        _ => None,
    }
}

// ---- writing, then reading ------------------------------------------------

/// Putting digits behind digits moves the first ones up.
proof fn lemma_digits_concat(a: Seq<char>, b: Seq<char>)
    requires
        number::all_digits(a),
        number::all_digits(b),
    ensures
        number::digits_value(a + b) == number::digits_value(a) * pow10(b.len())
            + number::digits_value(b),
    decreases b.len(),
{
    if b.len() == 0 {
        assert(a + b =~= a);
        assert(number::digits_value(a) * 1 == number::digits_value(a)) by (nonlinear_arith);
    } else {
        let c = b.drop_last();
        assert(number::all_digits(c));
        lemma_digits_concat(a, c);
        assert((a + b).drop_last() =~= a + c);
        let x = number::digits_value(a);
        let n = pow10(c.len());
        assert((x * n) * 10 == x * (10 * n)) by (nonlinear_arith);
        assert(text::digit(b.last()));
        assert((a + b).last() == b.last());
    }
}

proof fn lemma_last_digits(n: nat, width: nat)
    requires
        n < pow10(width),
    ensures
        last_digits(n, width).len() == width,
        number::all_digits(last_digits(n, width)),
        number::digits_value(last_digits(n, width)) == n,
    decreases width,
{
    if width > 0 {
        lemma_last_digits(n / 10, (width - 1) as nat);
        let s = last_digits(n, width);
        assert(s.drop_last() =~= last_digits(n / 10, (width - 1) as nat));
    }
}

proof fn lemma_pow10_add(a: nat, b: nat)
    ensures
        pow10(a) * pow10(b) == pow10(a + b),
    decreases a,
{
    if a == 0 {
        assert(1 * pow10(b) == pow10(b)) by (nonlinear_arith);
    } else {
        let c = (a - 1) as nat;
        lemma_pow10_add(c, b);
        let x = pow10(c);
        let y = pow10(b);
        assert((10 * x) * y == 10 * (x * y)) by (nonlinear_arith);
    }
}

/// Dropping trailing zeros only moves the point.
proof fn lemma_without_zeros(s: Seq<char>)
    requires
        number::all_digits(s),
    ensures
        ({
            let t = text::without_trailing(s, '0');
            &&& t.len() <= s.len()
            &&& number::all_digits(t)
            &&& number::digits_value(s) == number::digits_value(t) * pow10(
                (s.len() - t.len()) as nat,
            )
            &&& number::digits_value(s) > 0 ==> t.len() > 0
        }),
    decreases s.len(),
{
    let t = text::without_trailing(s, '0');
    if s.len() > 0 && s.last() == '0' {
        assert(number::all_digits(s.drop_last()));
        lemma_without_zeros(s.drop_last());
        let v = number::digits_value(t);
        let n = pow10((s.len() - 1 - t.len()) as nat);
        assert((v * n) * 10 == v * (10 * n)) by (nonlinear_arith);
    } else {
        assert(number::digits_value(t) * 1 == number::digits_value(t)) by (nonlinear_arith);
    }
}

proof fn lemma_absent(s: Seq<char>, c: char)
    requires
        forall|i: int| 0 <= i < s.len() ==> s[i] != c,
    ensures
        text::first_of(s, c) == s.len(),
{
    text::lemma_first_of_is(s, c, s.len());
}

/// The quantity read of a number is next to the number, below it or above: a
/// number within limits that are quantities is read as a quantity within them.
pub proof fn law_reading(s: Seq<char>, lo: int, hi: int)
    ensures
        parsed_number(s) matches Some(Reading::Number(w)) ==> w.floor <= w.value <= w.ceiling
            <= w.floor + 1,
        parsed_number(s) matches Some(n) ==> (n.within(lo, hi) matches Some(v) ==> lo <= v <= hi),
{
}

/// Reading a quantity that was shown gives just the quantity back.
#[verifier::rlimit(100)]
#[verifier::spinoff_prover]
pub proof fn law_quantity_round_trip(v: i64)
    requires
        v > i64::MIN,
    ensures
        parsed_number(shown(v as int)) == Some(
            Reading::Number(Written { value: v, floor: v, ceiling: v }),
        ),
        parsed_quantity(shown(v as int)) == Some(v as int),
        text::trimmed(shown(v as int)) == shown(v as int),
{
    let s = shown(v as int);
    let a = size_of(v as int);
    let q = a / (UNIT as nat);
    let frac = a % (UNIT as nat);
    let head = number::decimal(q);
    let nine = last_digits(frac, 9);
    let tail = text::without_trailing(nine, '0');
    number::lemma_decimal(q);
    assert(text::digit(head[0]));
    assert(pow10(9) == UNIT) by {
        reveal_with_fuel(pow10, 10);
    }
    lemma_last_digits(frac, 9);
    lemma_without_zeros(nine);
    let t = head + if frac == 0 {
        Seq::empty()
    } else {
        seq!['.'] + tail
    };
    assert(s =~= sign_of(v as int) + t);
    assert(v >= 0 ==> s =~= t);
    assert(v < 0 ==> s.skip(1) =~= t);
    assert forall|i: int| 0 <= i < t.len() implies text::digit(#[trigger] t[i]) || t[i] == '.' by {
        if i < head.len() {
            assert(t[i] == head[i]);
        } else if i > head.len() {
            assert(t[i] == tail[i - head.len() - 1]);
        }
    }
    lemma_absent(t, 'e');
    lemma_absent(t, 'E');
    assert(t.take(t.len() as int) =~= t);
    let dot = head.len();
    assert forall|i: int| 0 <= i < dot implies t[i] != '.' by {
        assert(t[i] == head[i]);
    }
    text::lemma_first_of_is(t, '.', dot);
    let digits = without_point(t);
    let used = if frac == 0 {
        Seq::empty()
    } else {
        tail
    };
    assert(digits =~= head + used) by {
        if frac == 0 {
            assert(t =~= head);
        } else {
            assert(t.take(dot as int) =~= head);
            assert(t.skip(dot as int + 1) =~= tail);
        }
    }
    assert(number::all_digits(used));
    assert(number::all_digits(digits)) by {
        assert forall|i: int| 0 <= i < digits.len() implies text::digit(#[trigger] digits[i]) by {
            if i < head.len() {
                assert(digits[i] == head[i]);
            } else {
                assert(digits[i] == used[i - head.len()]);
            }
        }
    }
    lemma_digits_concat(head, used);
    let k = used.len();
    let w = number::digits_value(used);
    let up = pow10((9 - k) as nat);
    assert(frac == w * up) by {
        if frac == 0 {
            assert(w == 0);
            assert(0 * up == 0) by (nonlinear_arith);
        }
    }
    lemma_pow10_add(k, (9 - k) as nat);
    assert(digits.len() == dot + k);
    assert(pow10(k) * up == 1_000_000_000);
    assert(number::digits_value(digits) == q * pow10(k) + w);
    let dv = number::digits_value(digits);
    let ten = pow10(k);
    assert(dv * up == q * 1_000_000_000 + frac) by (nonlinear_arith)
        requires
            dv == q * ten + w,
            ten * up == 1_000_000_000,
            frac == w * up,
    ;
    vstd::arithmetic::div_mod::lemma_fundamental_div_mod(a as int, UNIT as int);
    assert(k <= 9);
    assert(pointed(digits, dot as int + 9) == a) by {
        if k == 9 {
            assert(digits.take(digits.len() as int) =~= digits);
        }
    }
    assert(is_whole(digits, dot as int + 9));
    assert(exponent_mark(t) == t.len());
    reveal_strlit("inf");
    reveal_strlit("infinity");
    reveal_strlit("nan");
    assert(t[0] == head[0]);
    assert(!same_letter(t[0], "inf"@[0]));
    assert(!same_letter(t[0], "infinity"@[0]));
    assert(!same_letter(t[0], "nan"@[0]));
    assert(t == unsigned(s));
    assert(v >= 0 ==> s[0] == head[0]);
    assert(v < 0 ==> s[0] == '-');
    assert(text::digit(s.last()) && !text::whitespace(s[0])) by {
        assert(text::digit(t.last())) by {
            if frac == 0 {
                assert(t.last() == head.last());
            } else {
                assert(t.last() == tail.last());
            }
        }
    }
}

/// `[N/A]` is no number.
pub proof fn lemma_not_a_number()
    ensures
        parsed_quantity("[N/A]"@) is None,
{
    reveal_strlit("[N/A]");
    reveal_strlit("inf");
    reveal_strlit("infinity");
    reveal_strlit("nan");
    let s = "[N/A]"@;
    lemma_absent(s, 'e');
    lemma_absent(s, 'E');
    lemma_absent(s, '.');
    assert(s.take(5) =~= s);
    assert(!text::digit(s[0]));
    assert(!same_letter(s[0], "inf"@[0]));
    assert(!same_letter(s[0], "nan"@[0]));
}

/// A shown quantity starts with a digit or a minus sign and ends in a digit.
pub proof fn lemma_shown_ends(v: i64)
    requires
        v >= 0,
    ensures
        shown(v as int).len() > 0,
        text::digit(shown(v as int)[0]),
        text::digit(shown(v as int).last()),
{
    let a = size_of(v as int);
    let frac = a % (UNIT as nat);
    let head = number::decimal(a / (UNIT as nat));
    let nine = last_digits(frac, 9);
    let tail = text::without_trailing(nine, '0');
    number::lemma_decimal(a / (UNIT as nat));
    assert(text::digit(head[0]) && text::digit(head.last()));
    assert(pow10(9) == UNIT) by {
        reveal_with_fuel(pow10, 10);
    }
    lemma_last_digits(frac, 9);
    lemma_without_zeros(nine);
    let s = shown(v as int);
    assert(s[0] == head[0]);
    if frac == 0 {
        assert(s =~= head);
    } else {
        assert(s.last() == tail.last());
    }
}

/// A number is moved into a range: inside it stays, and outside it goes to
/// the nearer end. Thousandths are a million billionths each.
pub proof fn law_ranges(v: int, lo: int, hi: int)
    requires
        lo <= hi,
    ensures
        lo <= v <= hi ==> clamped(v, lo, hi) == v,
        v < lo ==> clamped(v, lo, hi) == lo,
        v > hi ==> clamped(v, lo, hi) == hi,
        i64::MIN <= v * 1_000_000 <= i64::MAX ==> from_milli(v) == v * 1_000_000,
        v * 1_000_000 > i64::MAX ==> from_milli(v) == i64::MAX,
        v * 1_000_000 < i64::MIN ==> from_milli(v) == i64::MIN,
{
}

/// A quantity is shown with a point and just the decimals it needs: no more
/// than nine, the last of them no zero, and none where it is whole.
pub proof fn law_shown_quantity(q: nat, f: nat)
    requires
        f < 1_000_000_000,
    ensures
        shown((q * 1_000_000_000) as int) == number::decimal(q),
        f > 0 ==> exists|d: Seq<char>|
            {
                &&& #[trigger] (number::decimal(q) + seq!['.'] + d) == shown(
                    (q * 1_000_000_000 + f) as int,
                )
                &&& 0 < d.len() <= 9 && d[d.len() - 1] != '0' && number::all_digits(d)
                &&& number::digits_value(d) * pow10((9 - d.len()) as nat) == f
            },
        q > 0 || f > 0 ==> shown(-((q * 1_000_000_000 + f) as int)) == seq!['-'] + shown(
            (q * 1_000_000_000 + f) as int,
        ),
{
    let a = q * 1_000_000_000 + f;
    let u = UNIT as nat;
    assert(a / u == q && a % u == f) by (nonlinear_arith)
        requires
            a == q * 1_000_000_000 + f,
            u == 1_000_000_000,
            f < 1_000_000_000,
    ;
    let b = q * 1_000_000_000;
    assert(b / u == q && b % u == 0) by (nonlinear_arith)
        requires
            b == q * 1_000_000_000,
            u == 1_000_000_000,
    ;
    assert(shown(b as int) =~= number::decimal(q));
    assert(pow10(9) == UNIT) by {
        reveal_with_fuel(pow10, 10);
    }
    lemma_last_digits(f, 9);
    let nine = last_digits(f, 9);
    lemma_without_zeros(nine);
    let d = text::without_trailing(nine, '0');
    if f > 0 {
        assert(number::decimal(q) + seq!['.'] + d =~= shown(a as int));
        lemma_no_trailing(nine, '0');
    }
    assert(shown(-(a as int)) =~= seq!['-'] + shown(a as int) || a == 0);
}

proof fn lemma_no_trailing(s: Seq<char>, c: char)
    ensures
        text::without_trailing(s, c).len() > 0 ==> text::without_trailing(s, c).last() != c,
    decreases s.len(),
{
    if s.len() > 0 && s.last() == c {
        lemma_no_trailing(s.drop_last(), c);
    }
}

/// The size of a quantity up to nine million, in the nearest double and then
/// to the nearest `1 / k`: off by half of that and a billionth.
proof fn lemma_shown_rounding(a: nat, k: nat)
    requires
        a <= 9_000_000_000_000_000,
        k > 0,
    ensures
        ({
            let (m, s) = double::nearest(a, UNIT as nat);
            let t = double::rounded_even(k * m, power2::pow2(s));
            -(UNIT + 2 * k) <= 2 * (t * UNIT - k * a) <= UNIT + 2 * k
        }),
{
    let u = UNIT as int;
    let (m, s) = double::nearest(a, UNIT as nat);
    let e = power2::pow2(s) as int;
    power2::lemma_pow2_pos(s);
    double::lemma_nearest(a, UNIT as nat);
    double::lemma_rounded_even(k * m, power2::pow2(s));
    let t = double::rounded_even(k * m, power2::pow2(s)) as int;
    let x = m * u - a * e;
    assert(-e <= x <= e) by (nonlinear_arith)
        requires
            -(a * e) <= x * 0x20_0000_0000_0000 <= a * e,
            0 <= a <= 9_000_000_000_000_000,
            e > 0,
    {
        assert(a * e <= 9_000_000_000_000_000 * e);
    }
    let y = t * e - k * m;
    assert(-e <= 2 * y <= e);
    assert(-(u + 2 * k) <= 2 * (t * u - k * a) <= u + 2 * k) by (nonlinear_arith)
        requires
            x == m * u - a * e,
            y == t * e - k * m,
            -e <= x <= e,
            -e <= 2 * y <= e,
            e > 0,
            u > 0,
            k > 0,
    {
        let z = t * u - k * a;
        assert(z * e == y * u + k * x);
        assert(-(e * u) <= 2 * (y * u) <= e * u);
        assert(-(k * e) <= k * x <= k * e);
        assert(2 * (z * e) <= (u + 2 * k) * e);
        assert(2 * (z * e) >= -((u + 2 * k) * e));
    }
}

/// In whole units, and in tenths with one decimal, a quantity is shown to the
/// nearest, to within a billionth.
pub proof fn law_shown_rounded(v: int)
    requires
        0 <= v <= 9_000_000_000_000_000,
    ensures
        exists|w: nat|
            #[trigger] number::decimal(w) == shown_whole(v) && -1_000_000_002 <= 2 * (w
                * 1_000_000_000 - v) <= 1_000_000_002,
        exists|q: nat, d: nat|
            d < 10 && #[trigger] (number::decimal(q) + seq!['.'] + number::decimal(d))
                == shown_tenths(v) && -1_000_000_020 <= 2 * ((10 * q + d) * 1_000_000_000 - 10 * v)
                <= 1_000_000_020,
        v > 0 ==> shown_whole(-v) == seq!['-'] + shown_whole(v) && shown_tenths(-v) == seq!['-']
            + shown_tenths(v),
{
    let a = v as nat;
    lemma_shown_rounding(a, 1);
    lemma_shown_rounding(a, 10);
    let (m, s) = double::nearest(a, UNIT as nat);
    assert(1 * m == m);
    let w = double::rounded_even(m, power2::pow2(s));
    assert(number::decimal(w) =~= shown_whole(v));
    let t = double::rounded_even(10 * m, power2::pow2(s));
    let q = t / 10;
    let d = t % 10;
    assert(number::decimal(q) + seq!['.'] + number::decimal(d) =~= shown_tenths(v));
    if v > 0 {
        assert(shown_whole(-v) =~= seq!['-'] + shown_whole(v));
        assert(shown_tenths(-v) =~= seq!['-'] + shown_tenths(v));
    }
}

/// The nearest whole number, a tie away from zero.
pub proof fn law_nearest_whole(v: int)
    requires
        v >= 0,
    ensures
        2 * (nearest_whole(v) * 1_000_000_000) <= 2 * v + 1_000_000_000 < 2 * (nearest_whole(v)
            * 1_000_000_000) + 2_000_000_000,
        nearest_whole(-v) == -nearest_whole(v),
{
    lemma_rounded(v, UNIT as int);
}

// ---- what a text says -----------------------------------------------------

/// A run of digits: below the power of ten of its length, at least half of it
/// just when its first digit is 5 or more, and nothing just when all are 0.
proof fn lemma_rest(b: Seq<char>)
    requires
        number::all_digits(b),
    ensures
        number::digits_value(b) < pow10(b.len()),
        b.len() > 0 ==> (b[0] >= '5' <==> 2 * number::digits_value(b) >= pow10(b.len())),
        number::digits_value(b) == 0 <==> forall|i: int| 0 <= i < b.len() ==> #[trigger] b[i] == '0',
    decreases b.len(),
{
    if b.len() > 0 {
        let h = seq![b[0]];
        let t = b.skip(1);
        assert(text::digit(b[0]));
        assert(number::all_digits(t));
        assert(number::all_digits(h));
        lemma_rest(t);
        lemma_digits_concat(h, t);
        assert(h + t =~= b);
        assert(h.drop_last() =~= Seq::<char>::empty());
        assert(number::digits_value(h.drop_last()) == 0);
        let x = number::digits_value(h);
        assert(x == b[0] as int - '0' as int);
        let p = pow10(t.len());
        assert(pow10(b.len()) == 10 * p);
        let y = number::digits_value(t);
        assert(x * p + y < 10 * p) by (nonlinear_arith)
            requires
                x <= 9,
                y < p,
        ;
        assert(x >= 5 <==> 2 * (x * p + y) >= 10 * p) by (nonlinear_arith)
            requires
                0 <= x,
                0 <= y < p,
        ;
        assert(x * p + y == 0 <==> x == 0 && y == 0) by (nonlinear_arith)
            requires
                0 <= x,
                0 <= y < p,
        ;
        if number::digits_value(b) == 0 {
            assert forall|i: int| 0 <= i < b.len() implies #[trigger] b[i] == '0' by {
                if i > 0 {
                    assert(t[i - 1] == b[i]);
                }
            }
        }
        if forall|i: int| 0 <= i < b.len() ==> #[trigger] b[i] == '0' {
            assert forall|i: int| 0 <= i < t.len() implies #[trigger] t[i] == '0' by {
                assert(b[i + 1] == '0');
            }
            assert(b[0] == '0');
        }
    }
}

/// What digits and a point among them make, within the largest quantity.
proof fn lemma_written(s: Seq<char>, k: nat)
    requires
        number::all_digits(s),
        k <= s.len(),
        number::digits_value(s) * 1_000_000_000 <= i64::MAX * pow10(k),
    ensures
        ({
            let w = written(s, s.len() - k + 9, false);
            let x = number::digits_value(s) * 1_000_000_000;
            let p = pow10(k) as int;
            &&& w.floor * p <= x < (w.floor + 1) * p
            &&& (w.ceiling - 1) * p < x <= w.ceiling * p
            &&& 2 * (w.value * p) <= 2 * x + p < 2 * (w.value * p) + 2 * p
        }),
{
    let n = s.len();
    let at = n - k + 9;
    let v = number::digits_value(s);
    let x = v * 1_000_000_000;
    let p = pow10(k) as int;
    let m = i64::MAX as int;
    lemma_pow10_grows(0, k);
    assert(pow10(9) == UNIT) by {
        reveal_with_fuel(pow10, 10);
    }
    let w = written(s, at, false);
    if k <= 9 {
        let up = pow10((9 - k) as nat) as int;
        lemma_pow10_add(k, (9 - k) as nat);
        let a = v * up;
        assert(at >= n);
        if at == n {
            assert(up == 1);
        }
        assert(whole_part(s, at) == a) by {
            if at == n {
                assert(s.take(at) =~= s);
            }
        }
        assert(a * p == x) by (nonlinear_arith)
            requires
                a == v * up,
                p * up == 1_000_000_000,
                x == v * 1_000_000_000,
        ;
        assert(a <= m) by (nonlinear_arith)
            requires
                a * p <= m * p,
                p > 0,
        ;
        assert(is_whole(s, at));
        assert(a >= 0) by (nonlinear_arith)
            requires
                a == v * up,
                v >= 0,
                up >= 0,
        ;
        assert(w.floor == a && w.ceiling == a && w.value == a);
        assert((a + 1) * p == a * p + p && (a - 1) * p == a * p - p) by (nonlinear_arith);
    } else {
        let q = (k - 9) as nat;
        let h = s.take(at);
        let b = s.skip(at);
        assert(number::all_digits(h));
        assert(number::all_digits(b));
        assert(h + b =~= s);
        lemma_digits_concat(h, b);
        lemma_rest(b);
        lemma_pow10_add(9, q);
        let a = number::digits_value(h) as int;
        let r = number::digits_value(b) as int;
        let t = pow10(q) as int;
        assert(p == 1_000_000_000 * t);
        assert(x == a * p + r * 1_000_000_000) by (nonlinear_arith)
            requires
                x == v * 1_000_000_000,
                v == a * t + r,
                p == 1_000_000_000 * t,
        ;
        assert(b[0] == s[at]);
        assert(is_whole(s, at) <==> r == 0) by {
            if is_whole(s, at) {
                assert forall|i: int| 0 <= i < b.len() implies #[trigger] b[i] == '0' by {
                    assert(s[at + i] == '0');
                }
            }
            if r == 0 {
                assert forall|i: int| 0 <= i < s.len() && at <= i implies s[i] == '0' by {
                    assert(b[i - at] == '0');
                }
            }
        }
        assert((a + 1) * p == a * p + p && (a - 1) * p == a * p - p) by (nonlinear_arith);
        assert(a <= m && (r > 0 ==> a + 1 <= m)) by (nonlinear_arith)
            requires
                a * p + r * 1_000_000_000 <= m * p,
                p > 0,
                r >= 0,
        ;
        assert(w.floor == a);
        assert(r > 0 ==> w.ceiling == a + 1);
        assert(r == 0 ==> w.ceiling == a);
        assert(2 * r >= t ==> w.value == a + 1);
        assert(2 * r < t ==> w.value == a);
    }
}

/// Digits with a point among them are the number they write in decimal. Its
/// quantity is the nearest one, a tie upwards, and its neighbours are the ones
/// next to it; where it is a quantity itself, all are the same.
pub proof fn law_number_as_written(d: Seq<char>, f: Seq<char>)
    requires
        number::all_digits(d),
        number::all_digits(f),
        d.len() + f.len() > 0,
        number::digits_value(d + f) * 1_000_000_000 <= i64::MAX * pow10(f.len()),
    ensures
        parsed_number(d + seq!['.'] + f) matches Some(Reading::Number(w)) && {
            let x = number::digits_value(d + f) * 1_000_000_000;
            let p = pow10(f.len()) as int;
            &&& w.floor * p <= x < (w.floor + 1) * p
            &&& (w.ceiling - 1) * p < x <= w.ceiling * p
            &&& 2 * (w.value * p) <= 2 * x + p < 2 * (w.value * p) + 2 * p
        },
        d.len() > 0 && f.len() == 0 ==> parsed_number(d) == parsed_number(d + seq!['.'] + f),
{
    lemma_plain(d, f);
    assert(number::all_digits(d + f)) by {
        assert forall|i: int| 0 <= i < (d + f).len() implies text::digit(#[trigger] (d + f)[i]) by {
            if i < d.len() {
                assert(text::digit(d[i]));
            } else {
                assert(text::digit(f[i - d.len()]));
            }
        }
    }
    lemma_written(d + f, f.len());
    if d.len() > 0 && f.len() == 0 {
        lemma_whole(d);
        assert(d + f =~= d);
    }
}

/// Digits with a point among them are read by their value.
proof fn lemma_plain(d: Seq<char>, f: Seq<char>)
    requires
        number::all_digits(d),
        number::all_digits(f),
        d.len() + f.len() > 0,
    ensures
        parsed_number(d + seq!['.'] + f) == Some(
            Reading::Number(written(d + f, d.len() as int + 9, false)),
        ),
{
    let s = d + seq!['.'] + f;
    reveal_strlit("inf");
    reveal_strlit("infinity");
    reveal_strlit("nan");
    assert forall|i: int| 0 <= i < s.len() implies text::digit(#[trigger] s[i]) || s[i] == '.' by {
        if i < d.len() {
            assert(text::digit(d[i]));
        } else if i > d.len() {
            assert(text::digit(f[i - d.len() - 1]));
        }
    }
    assert(text::digit(s[0]) || s[0] == '.');
    assert(!same_letter(s[0], "inf"@[0]));
    assert(!same_letter(s[0], "infinity"@[0]));
    assert(!same_letter(s[0], "nan"@[0]));
    lemma_absent(s, 'e');
    lemma_absent(s, 'E');
    assert(s.take(s.len() as int) =~= s);
    assert forall|i: int| 0 <= i < d.len() implies s[i] != '.' by {
        assert(text::digit(d[i]));
    }
    text::lemma_first_of_is(s, '.', d.len());
    assert(s.take(d.len() as int) =~= d);
    assert(s.skip(d.len() as int + 1) =~= f);
    assert(without_point(s) =~= d + f);
    assert(number::all_digits(d + f)) by {
        assert forall|i: int| 0 <= i < (d + f).len() implies text::digit(#[trigger] (d + f)[i]) by {
            if i < d.len() {
                assert(text::digit(d[i]));
            } else {
                assert(text::digit(f[i - d.len()]));
            }
        }
    }
    assert(unsigned(s) == s);
}

/// Digits alone are read by their value.
proof fn lemma_whole(d: Seq<char>)
    requires
        number::all_digits(d),
        d.len() > 0,
    ensures
        parsed_number(d) == Some(Reading::Number(written(d, d.len() as int + 9, false))),
{
    reveal_strlit("inf");
    reveal_strlit("infinity");
    reveal_strlit("nan");
    assert(text::digit(d[0]));
    assert(!same_letter(d[0], "inf"@[0]));
    assert(!same_letter(d[0], "infinity"@[0]));
    assert(!same_letter(d[0], "nan"@[0]));
    assert forall|i: int| 0 <= i < d.len() implies d[i] != 'e' && d[i] != 'E' && d[i] != '.' by {
        assert(text::digit(d[i]));
    }
    lemma_absent(d, 'e');
    lemma_absent(d, 'E');
    lemma_absent(d, '.');
    assert(d.take(d.len() as int) =~= d);
    assert(unsigned(d) == d);
}

/// A number of zeros.
pub open spec fn zeros(k: nat) -> Seq<char> {
    Seq::new(k, |i: int| '0')
}

/// An exponent moves the point: a positive one is as many zeros behind the
/// digits, and a negative one puts the point as many digits from their end.
pub proof fn law_exponent_moves_the_point(d: Seq<char>, k: nat, upper: bool)
    requires
        number::all_digits(d),
        d.len() > 0,
    ensures
        ({
            let e = if upper {
                seq!['E']
            } else {
                seq!['e']
            };
            let n = number::decimal(k);
            &&& parsed_number(d + e + n) == parsed_number(d + zeros(k))
            &&& parsed_number(d + e + seq!['+'] + n) == parsed_number(d + zeros(k))
            &&& k <= d.len() ==> parsed_number(d + e + seq!['-'] + n) == parsed_number(
                d.take(d.len() - k) + seq!['.'] + d.skip(d.len() - k),
            )
        }),
{
    let e = if upper {
        seq!['E']
    } else {
        seq!['e']
    };
    let n = number::decimal(k);
    number::lemma_decimal(k);
    assert(text::digit(n[0]));
    lemma_with_exponent(d, e[0], n);
    assert(d + e + n =~= d + seq![e[0]] + n);
    lemma_with_exponent(d, e[0], seq!['+'] + n);
    assert(d + e + seq!['+'] + n =~= d + seq![e[0]] + (seq!['+'] + n));
    lemma_with_exponent(d, e[0], seq!['-'] + n);
    assert(d + e + seq!['-'] + n =~= d + seq![e[0]] + (seq!['-'] + n));
    assert((seq!['+'] + n).skip(1) =~= n);
    assert((seq!['-'] + n).skip(1) =~= n);
    let z = d + zeros(k);
    assert(number::all_digits(zeros(k)));
    assert(number::all_digits(z)) by {
        assert forall|i: int| 0 <= i < z.len() implies text::digit(#[trigger] z[i]) by {
            if i < d.len() {
                assert(text::digit(d[i]));
            }
        }
    }
    lemma_whole(z);
    lemma_digits_concat(d, zeros(k));
    lemma_rest(zeros(k));
    lemma_pow10_add(k, 9);
    let v = number::digits_value(d);
    let a = pow10(k);
    let b = pow10(9);
    assert((v * a) * b == v * (a * b)) by (nonlinear_arith);
    assert(written(d, d.len() as int + k + 9, false) == written(z, z.len() as int + 9, false)) by {
        assert(is_whole(d, d.len() as int + k + 9));
        assert(is_whole(z, z.len() as int + 9));
        assert(whole_part(d, d.len() as int + k + 9) == v * pow10(k + 9));
        assert(whole_part(z, z.len() as int + 9) == number::digits_value(z) * b);
    }
    if k <= d.len() {
        let h = d.take(d.len() - k);
        let t = d.skip(d.len() - k);
        assert(number::all_digits(h));
        assert(number::all_digits(t));
        lemma_plain(h, t);
        assert(h + t =~= d);
    }
}

proof fn lemma_with_exponent(d: Seq<char>, e: char, x: Seq<char>)
    requires
        number::all_digits(d),
        d.len() > 0,
        e == 'e' || e == 'E',
        exponent_value(x) is Some,
    ensures
        parsed_number(d + seq![e] + x) == Some(
            Reading::Number(written(d, d.len() + exponent_value(x)->0 + 9, false)),
        ),
{
    let s = d + seq![e] + x;
    reveal_strlit("inf");
    reveal_strlit("infinity");
    reveal_strlit("nan");
    assert(text::digit(d[0]) && s[0] == d[0]);
    assert(!same_letter(s[0], "inf"@[0]));
    assert(!same_letter(s[0], "infinity"@[0]));
    assert(!same_letter(s[0], "nan"@[0]));
    assert forall|i: int| 0 <= i < d.len() implies s[i] != 'e' && s[i] != 'E' && d[i] != '.' by {
        assert(text::digit(d[i]));
        assert(s[i] == d[i]);
    }
    let other = if e == 'e' {
        'E'
    } else {
        'e'
    };
    text::lemma_first_of_is(s, e, d.len());
    text::lemma_first_of(s, other);
    let o = text::first_of(s, other) as int;
    if o < d.len() {
        assert(s[o] != other);
    }
    assert(s[d.len() as int] == e);
    assert(exponent_mark(s) == d.len()) by {
        if o == d.len() {
            assert(s[o] == other);
        }
    }
    assert(s.take(d.len() as int) =~= d);
    assert(s.skip(d.len() as int + 1) =~= x);
    lemma_absent(d, '.');
    assert(unsigned(s) == s);
}

/// A minus sign turns a number round, and a plus sign leaves it.
pub proof fn law_signs(s: Seq<char>)
    requires
        s.len() > 0,
        s[0] != '-' && s[0] != '+',
    ensures
        parsed_number(seq!['+'] + s) == parsed_number(s),
        match parsed_number(s) {
            Some(Reading::Number(w)) => parsed_number(seq!['-'] + s) matches Some(
                Reading::Number(m),
            ) && m.value == -w.value && m.floor == -w.ceiling && m.ceiling == -w.floor,
            Some(Reading::NotANumber) => parsed_number(seq!['-'] + s) == Some(Reading::NotANumber),
            None => parsed_number(seq!['-'] + s) is None,
        },
{
    assert((seq!['+'] + s).skip(1) =~= s);
    assert((seq!['-'] + s).skip(1) =~= s);
}

/// The words for a number without end and for none at all, in any case.
pub proof fn law_words(s: Seq<char>)
    ensures
        s.len() == 3 && (s[0] == 'i' || s[0] == 'I') && (s[1] == 'n' || s[1] == 'N') && (s[2] == 'f'
            || s[2] == 'F') ==> (parsed_number(s) matches Some(Reading::Number(w)) && w.value
            == i64::MAX && w.floor == i64::MAX && w.ceiling == i64::MAX),
        s.len() == 3 && (s[0] == 'n' || s[0] == 'N') && (s[1] == 'a' || s[1] == 'A') && (s[2] == 'n'
            || s[2] == 'N') ==> parsed_number(s) == Some(Reading::NotANumber) && parsed_quantity(
            s,
        ) is None,
        forall|lo: int, hi: int| #[trigger] Reading::NotANumber.within(lo, hi) is None,
        parsed_number(Seq::empty()) is None,
{
    reveal_strlit("inf");
    reveal_strlit("infinity");
    reveal_strlit("nan");
    if s.len() == 3 && (s[0] == 'n' || s[0] == 'N') {
        assert(!same_letter(s[0], "inf"@[0]));
    }
    let none = Seq::<char>::empty();
    assert(unsigned(none) =~= none);
    assert(none.take(0) =~= none);
}

} // verus!
