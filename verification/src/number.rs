//! Decimal integers: how they are written and how they are read.

use vstd::prelude::*;
use crate::text;

verus! {

/// The digit that stands for `d`.
pub open spec fn digit_char(d: int) -> char {
    (('0' as int) + d) as char
}

/// The number a digit stands for.
pub open spec fn digit_value(c: char) -> int {
    (c as int) - ('0' as int)
}

/// `n` in decimal, without leading zeros.
pub open spec fn decimal(n: nat) -> Seq<char>
    decreases n,
{
    if n < 10 {
        seq![digit_char(n as int)]
    } else {
        decimal(n / 10).push(digit_char((n % 10) as int))
    }
}

/// `n` in decimal, with a minus sign when it is negative.
pub open spec fn signed_decimal(n: int) -> Seq<char> {
    if n < 0 {
        seq!['-'] + decimal((-n) as nat)
    } else {
        decimal(n as nat)
    }
}

/// The number written by a run of digits; an empty run is zero.
pub open spec fn digits_value(s: Seq<char>) -> nat
    decreases s.len(),
{
    if s.len() == 0 {
        0
    } else {
        (digits_value(s.drop_last()) * 10 + digit_value(s.last())) as nat
    }
}

pub open spec fn all_digits(s: Seq<char>) -> bool {
    forall|i: int| 0 <= i < s.len() ==> text::digit(#[trigger] s[i])
}

/// What an unsigned integer type with the largest value `max` reads from `s`:
/// an optional plus sign and at least one digit.
pub open spec fn parsed_nat(s: Seq<char>, max: nat) -> Option<nat> {
    let t = if s.len() > 0 && s[0] == '+' {
        s.skip(1)
    } else {
        s
    };
    if t.len() > 0 && all_digits(t) && digits_value(t) <= max {
        Some(digits_value(t))
    } else {
        None
    }
}

/// What an `i64` reads from `s`: an optional sign and at least one digit.
pub open spec fn parsed_int(s: Seq<char>) -> Option<int> {
    if s.len() > 0 && s[0] == '-' {
        let t = s.skip(1);
        if t.len() > 0 && all_digits(t) && -digits_value(t) >= i64::MIN {
            Some(-digits_value(t))
        } else {
            None
        }
    } else {
        match parsed_nat(s, i64::MAX as nat) {
            Some(n) => Some(n as int),
            None => None,
        }
    }
}

// ---- writing --------------------------------------------------------------

pub fn digit_of(d: u64) -> (c: char)
    requires
        d < 10,
    ensures
        c == digit_char(d as int),
{
    match d {
        0 => '0',
        1 => '1',
        2 => '2',
        3 => '3',
        4 => '4',
        5 => '5',
        6 => '6',
        7 => '7',
        8 => '8',
        _ => '9',
    }
}

pub fn u64_text(n: u64) -> (r: String)
    ensures
        r@ == decimal(n as nat),
    decreases n,
{
    if n < 10 {
        let mut r = String::new();
        r.push(digit_of(n));
        assert(r@ =~= decimal(n as nat));
        r
    } else {
        let mut r = u64_text(n / 10);
        r.push(digit_of(n % 10));
        r
    }
}

pub fn i64_text(n: i64) -> (r: String)
    ensures
        r@ == signed_decimal(n as int),
{
    if n < 0 {
        let a: u64 = (-(n as i128)) as u64;
        let d = u64_text(a);
        let mut r = String::new();
        r.push('-');
        r.append(d.as_str());
        assert(r@ =~= signed_decimal(n as int));
        r
    } else {
        u64_text(n as u64)
    }
}

// ---- reading --------------------------------------------------------------

/// Adding digits never makes a number smaller.
proof fn lemma_digits_value_grows(s: Seq<char>, n: int)
    requires
        0 <= n <= s.len(),
        all_digits(s),
    ensures
        digits_value(s.take(n)) <= digits_value(s),
    decreases s.len(),
{
    if n == s.len() {
        assert(s.take(n) =~= s);
    } else {
        assert(all_digits(s.drop_last()));
        lemma_digits_value_grows(s.drop_last(), n);
        assert(s.drop_last().take(n) =~= s.take(n));
        assert(text::digit(s.last()));
    }
}

/// The number written by the digits `v[from..]`, if there is at least one
/// digit, nothing but digits, and the number is at most `max`.
fn digits_from(v: &Vec<char>, from: usize, max: u64) -> (r: Option<u64>)
    requires
        from <= v@.len(),
    ensures
        ({
            let t = v@.skip(from as int);
            &&& r is Some <==> (t.len() > 0 && all_digits(t) && digits_value(t) <= max)
            &&& r matches Some(n) ==> n == digits_value(t)
        }),
{
    let ghost t = v@.skip(from as int);
    if from == v.len() {
        return None;
    }
    let mut i: usize = from;
    let mut acc: u64 = 0;
    assert(t.take(0) =~= Seq::<char>::empty());
    while i < v.len()
        invariant
            from <= i <= v@.len(),
            t == v@.skip(from as int),
            acc <= max,
            acc == digits_value(t.take(i - from)),
            forall|j: int| from <= j < i ==> text::digit(#[trigger] v@[j]),
        decreases v@.len() - i,
    {
        let c = v[i];
        assert(t[i - from] == c);
        if !text::is_digit(c) {
            return None;
        }
        let d: u64 = (c as u64) - ('0' as u64);
        let next: u128 = (acc as u128) * 10 + (d as u128);
        proof {
            assert(t.take(i - from + 1).drop_last() =~= t.take(i - from));
            assert(next == digits_value(t.take(i - from + 1)));
        }
        if next > max as u128 {
            proof {
                if all_digits(t) {
                    lemma_digits_value_grows(t, i - from + 1);
                }
            }
            return None;
        }
        acc = next as u64;
        i += 1;
    }
    proof {
        assert(t.take(i - from) =~= t);
        assert forall|j: int| 0 <= j < t.len() implies text::digit(#[trigger] t[j]) by {
            assert(t[j] == v@[from + j]);
        }
    }
    Some(acc)
}

/// Read an unsigned integer no larger than `max`.
pub fn parse_u64(s: &str, max: u64) -> (r: Option<u64>)
    ensures
        r is Some <==> parsed_nat(s@, max as nat) is Some,
        r matches Some(n) ==> parsed_nat(s@, max as nat) == Some(n as nat),
{
    let v = text::chars_of(s);
    assert(v@.skip(0) =~= v@);
    if v.len() > 0 && v[0] == '+' {
        digits_from(&v, 1, max)
    } else {
        digits_from(&v, 0, max)
    }
}

pub fn parse_u32(s: &str) -> (r: Option<u32>)
    ensures
        r is Some <==> parsed_nat(s@, u32::MAX as nat) is Some,
        r matches Some(n) ==> parsed_nat(s@, u32::MAX as nat) == Some(n as nat),
{
    match parse_u64(s, u32::MAX as u64) {
        Some(n) => Some(n as u32),
        None => None,
    }
}

pub fn parse_usize(s: &str) -> (r: Option<usize>)
    ensures
        r is Some <==> parsed_nat(s@, usize::MAX as nat) is Some,
        r matches Some(n) ==> parsed_nat(s@, usize::MAX as nat) == Some(n as nat),
{
    match parse_u64(s, usize::MAX as u64) {
        Some(n) => Some(n as usize),
        None => None,
    }
}

pub fn parse_i64(s: &str) -> (r: Option<i64>)
    ensures
        r is Some <==> parsed_int(s@) is Some,
        r matches Some(n) ==> parsed_int(s@) == Some(n as int),
{
    let v = text::chars_of(s);
    if v.len() > 0 && v[0] == '-' {
        match digits_from(&v, 1, 0x8000_0000_0000_0000) {
            Some(n) => Some((-(n as i128)) as i64),
            None => None,
        }
    } else {
        match parse_u64(s, i64::MAX as u64) {
            Some(n) => Some(n as i64),
            None => None,
        }
    }
}

// ---- writing, then reading ------------------------------------------------

pub proof fn lemma_decimal(n: nat)
    ensures
        decimal(n).len() > 0,
        all_digits(decimal(n)),
        digits_value(decimal(n)) == n,
    decreases n,
{
    let s = decimal(n);
    if n < 10 {
        assert(s.drop_last() =~= Seq::<char>::empty());
        assert(digits_value(s.drop_last()) == 0);
    } else {
        lemma_decimal(n / 10);
        assert(s.drop_last() =~= decimal(n / 10));
    }
}

/// Reading a number that was written in decimal gives the number back.
pub proof fn law_decimal_round_trip(n: nat, max: nat)
    requires
        n <= max,
    ensures
        parsed_nat(decimal(n), max) == Some(n),
{
    lemma_decimal(n);
    assert(text::digit(decimal(n)[0]));
}

/// Reading a signed number that was written in decimal gives it back.
pub proof fn law_signed_round_trip(n: i64)
    ensures
        parsed_int(signed_decimal(n as int)) == Some(n as int),
{
    if n < 0 {
        let a = (-n) as nat;
        lemma_decimal(a);
        assert(signed_decimal(n as int).skip(1) =~= decimal(a));
    } else {
        lemma_decimal(n as nat);
        assert(text::digit(decimal(n as nat)[0]));
        law_decimal_round_trip(n as nat, i64::MAX as nat);
    }
}

/// A number in decimal holds no white space at either end.
pub proof fn lemma_decimal_is_trimmed(n: nat)
    ensures
        text::trimmed(decimal(n)) == decimal(n),
{
    lemma_decimal(n);
    assert(text::digit(decimal(n)[0]));
    assert(text::digit(decimal(n).last()));
}

/// Decimal notation: a number below ten is its digit, and a digit behind a
/// number makes it ten times the number and the digit.
pub proof fn law_decimal_notation(q: nat, d: nat)
    requires
        d < 10,
    ensures
        decimal(d) == seq![((0x30 + d) as u8) as char],
        q > 0 ==> decimal(10 * q + d) == decimal(q) + decimal(d),
        signed_decimal(q as int) == decimal(q),
        q > 0 ==> signed_decimal(-(q as int)) == seq!['-'] + decimal(q),
{
    assert('0' as int == 0x30);
    if q > 0 {
        assert((10 * q + d) / 10 == q && (10 * q + d) % 10 == d) by (nonlinear_arith)
            requires
                d < 10,
        ;
        assert(decimal(10 * q + d) =~= decimal(q) + decimal(d));
    }
}

/// Reading decimal digits: a digit behind a text that is read as a number
/// makes it ten times the number and the digit, as long as that is no more
/// than the limit. A sign before digits is taken, a text without a digit or
/// with any other character is not.
pub proof fn law_digits_are_read(s: Seq<char>, c: char, n: nat, max: nat)
    requires
        '0' <= c && c <= '9',
        parsed_nat(s, max) == Some(n),
    ensures
        ({
            let v = 10 * n + (c as int - 0x30);
            &&& v <= max ==> parsed_nat(s.push(c), max) == Some(v as nat)
            &&& v > max ==> parsed_nat(s.push(c), max) is None
        }),
        n <= max,
        s[0] != '+' ==> parsed_nat(seq!['+'] + s, max) == Some(n),
        parsed_nat(Seq::empty(), max) is None,
        forall|t: Seq<char>, i: int|
            0 < i < t.len() && !('0' <= #[trigger] t[i] && t[i] <= '9') ==> #[trigger] parsed_nat(
                t,
                max,
            ) is None,
{
    assert('0' as int == 0x30);
    let t = if s.len() > 0 && s[0] == '+' {
        s.skip(1)
    } else {
        s
    };
    let u = if s.len() > 0 && s[0] == '+' {
        s.push(c).skip(1)
    } else {
        s.push(c)
    };
    assert(s.len() > 0);
    assert(s.push(c)[0] == s[0]);
    assert(u =~= t.push(c));
    assert(u.drop_last() =~= t);
    assert forall|i: int| 0 <= i < u.len() implies text::digit(#[trigger] u[i]) by {
        if i < t.len() {
            assert(text::digit(t[i]));
        }
    }
    assert((seq!['+'] + s).skip(1) =~= s);
    assert forall|t: Seq<char>, i: int|
        0 < i < t.len() && !('0' <= #[trigger] t[i] && t[i] <= '9') implies #[trigger] parsed_nat(
        t,
        max,
    ) is None by {
        if t[0] == '+' {
            assert(t.skip(1)[i - 1] == t[i]);
            assert(!text::digit(t.skip(1)[i - 1]));
        } else {
            assert(!text::digit(t[i]));
        }
    }
}

/// A minus sign before digits makes the number negative.
pub proof fn law_signed_numbers_are_read(s: Seq<char>, n: nat)
    requires
        s.len() > 0,
        '0' <= s[0] && s[0] <= '9',
        parsed_nat(s, i64::MAX as nat) == Some(n),
    ensures
        parsed_int(s) == Some(n as int),
        parsed_int(seq!['-'] + s) == Some(-(n as int)),
{
    assert((seq!['-'] + s).skip(1) =~= s);
}

} // verus!
