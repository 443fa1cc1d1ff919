//! Text: the handful of string operations the library is built from, each
//! with its meaning as a function on character sequences.

use vstd::prelude::*;

verus! {

/// `String::push` appends one character to the end of the string.
pub assume_specification[ String::push ](s: &mut String, c: char)
    ensures
        final(s)@ == old(s)@.push(c),
;

/// `String::pop` takes the last character off the string and returns it; an
/// empty string is left alone.
pub assume_specification[ String::pop ](s: &mut String) -> (c: Option<char>)
    ensures
        old(s)@.len() == 0 ==> c == None::<char> && final(s)@ == old(s)@,
        old(s)@.len() > 0 ==> c == Some(old(s)@.last()) && final(s)@ == old(s)@.drop_last(),
;

/// What `{:?}` prints for a string: the quoted, escaped text.
pub uninterp spec fn debug_text(s: Seq<char>) -> Seq<char>;

/// `<str as Debug>::fmt`, as `format!("{:?}", s)` runs it. The escaping rules
/// follow Unicode tables of the standard library; the result is named
/// [`debug_text`].
#[verifier::external_body]
pub(crate) fn debug_quoted(s: &str) -> (r: String)
    ensures
        r@ == debug_text(s@),
{
    format!("{:?}", s)
}

// ---- characters -----------------------------------------------------------

/// The characters with the Unicode property `White_Space`.
pub open spec fn whitespace(c: char) -> bool {
    ||| '\u{9}' <= c <= '\u{d}'
    ||| c == '\u{20}'
    ||| c == '\u{85}'
    ||| c == '\u{a0}'
    ||| c == '\u{1680}'
    ||| '\u{2000}' <= c <= '\u{200a}'
    ||| c == '\u{2028}'
    ||| c == '\u{2029}'
    ||| c == '\u{202f}'
    ||| c == '\u{205f}'
    ||| c == '\u{3000}'
}

pub fn is_whitespace(c: char) -> (r: bool)
    ensures
        r == whitespace(c),
{
    ('\u{9}' <= c && c <= '\u{d}') || c == '\u{20}' || c == '\u{85}' || c == '\u{a0}'
        || c == '\u{1680}' || ('\u{2000}' <= c && c <= '\u{200a}') || c == '\u{2028}'
        || c == '\u{2029}' || c == '\u{202f}' || c == '\u{205f}' || c == '\u{3000}'
}

/// The ASCII digits.
pub open spec fn digit(c: char) -> bool {
    '0' <= c <= '9'
}

pub fn is_digit(c: char) -> (r: bool)
    ensures
        r == digit(c),
{
    '0' <= c && c <= '9'
}

// ---- conversion and comparison --------------------------------------------

/// The characters of `s`, one by one.
pub fn chars_of(s: &str) -> (v: Vec<char>)
    ensures
        v@ == s@,
{
    let mut v: Vec<char> = Vec::new();
    for c in it: s.chars()
        invariant
            v@ == it.seq().take(it.index() as int),
            it.seq() == s@,
    {
        v.push(c);
    }
    v
}

/// The string made of `v[from..to]`.
pub fn string_of(v: &Vec<char>, from: usize, to: usize) -> (s: String)
    requires
        from <= to <= v@.len(),
    ensures
        s@ == v@.subrange(from as int, to as int),
{
    let mut s = String::new();
    let mut i: usize = from;
    while i < to
        invariant
            from <= i <= to <= v@.len(),
            s@ == v@.subrange(from as int, i as int),
        decreases to - i,
    {
        s.push(v[i]);
        i += 1;
        assert(v@.subrange(from as int, i as int) == v@.subrange(from as int, i - 1).push(
            v@[i - 1],
        ));
    }
    s
}

/// Whether two strings hold the same characters.
pub fn str_eq(a: &str, b: &str) -> (r: bool)
    ensures
        r == (a@ == b@),
{
    let x = chars_of(a);
    let y = chars_of(b);
    if x.len() != y.len() {
        return false;
    }
    let mut i: usize = 0;
    while i < x.len()
        invariant
            i <= x@.len() == y@.len(),
            x@ == a@,
            y@ == b@,
            forall|j: int| 0 <= j < i ==> x@[j] == y@[j],
        decreases x@.len() - i,
    {
        if x[i] != y[i] {
            assert(a@[i as int] != b@[i as int]);
            return false;
        }
        i += 1;
    }
    assert(a@ =~= b@);
    true
}

/// A copy of `s` as an owned string.
pub fn owned(s: &str) -> (r: String)
    ensures
        r@ == s@,
{
    let mut r = String::new();
    r.append(s);
    assert(r@ =~= s@);
    r
}

/// `a` followed by `b`.
pub fn cat(a: &str, b: &str) -> (r: String)
    ensures
        r@ == a@ + b@,
{
    let mut r = owned(a);
    r.append(b);
    r
}

/// `a`, `b` and `c`, one after the other.
pub fn cat3(a: &str, b: &str, c: &str) -> (r: String)
    ensures
        r@ == a@ + b@ + c@,
{
    let mut r = cat(a, b);
    r.append(c);
    r
}

// ---- prefixes -------------------------------------------------------------

/// Whether `s` starts with `p`.
pub open spec fn begins_with(s: Seq<char>, p: Seq<char>) -> bool {
    p.len() <= s.len() && s.take(p.len() as int) == p
}

/// What follows the prefix `p` in `s`, if `s` starts with it.
pub open spec fn after_prefix(s: Seq<char>, p: Seq<char>) -> Option<Seq<char>> {
    if begins_with(s, p) {
        Some(s.skip(p.len() as int))
    } else {
        None
    }
}

pub fn starts_with(s: &str, p: &str) -> (r: bool)
    ensures
        r == begins_with(s@, p@),
{
    let x = chars_of(s);
    let y = chars_of(p);
    assert(x@.skip(0) =~= x@);
    prefix_at(&x, 0, &y)
}

/// Whether `y` stands at position `at` of `x`.
fn prefix_at(x: &Vec<char>, at: usize, y: &Vec<char>) -> (r: bool)
    requires
        at <= x@.len(),
    ensures
        r == begins_with(x@.skip(at as int), y@),
{
    if y.len() > x.len() - at {
        return false;
    }
    let mut i: usize = 0;
    while i < y.len()
        invariant
            at <= x@.len(),
            i <= y@.len() <= x.len() - at,
            forall|j: int| 0 <= j < i ==> x@[at + j] == y@[j],
        decreases y@.len() - i,
    {
        if x[at + i] != y[i] {
            assert(x@.skip(at as int).take(y@.len() as int)[i as int] != y@[i as int]);
            return false;
        }
        i += 1;
    }
    assert(x@.skip(at as int).take(y@.len() as int) =~= y@);
    true
}

pub fn strip_prefix(s: &str, p: &str) -> (r: Option<String>)
    ensures
        r.deep_view() == after_prefix(s@, p@),
{
    let x = chars_of(s);
    let y = chars_of(p);
    assert(x@.skip(0) =~= x@);
    if prefix_at(&x, 0, &y) {
        let rest = string_of(&x, y.len(), x.len());
        assert(rest@ =~= s@.skip(p@.len() as int));
        Some(rest)
    } else {
        None
    }
}

/// `s` with every leading repetition of `p` removed.
pub open spec fn without_leading(s: Seq<char>, p: Seq<char>) -> Seq<char>
    decreases s.len(),
{
    if p.len() > 0 && begins_with(s, p) {
        without_leading(s.skip(p.len() as int), p)
    } else {
        s
    }
}

pub fn trim_start_matches(s: &str, p: &str) -> (r: String)
    ensures
        r@ == without_leading(s@, p@),
{
    let x = chars_of(s);
    let y = chars_of(p);
    let mut at: usize = 0;
    assert(x@.skip(0) =~= x@);
    while y.len() > 0 && prefix_at(&x, at, &y)
        invariant
            at <= x@.len(),
            x@ == s@,
            y@ == p@,
            without_leading(s@, p@) == without_leading(x@.skip(at as int), p@),
        decreases x@.len() - at,
    {
        assert(x@.skip(at as int).skip(y@.len() as int) =~= x@.skip(at + y@.len()));
        assert(at + y@.len() <= x.len());
        at += y.len();
    }
    let r = string_of(&x, at, x.len());
    assert(r@ =~= x@.skip(at as int));
    r
}

// ---- trimming -------------------------------------------------------------

/// `s` without its leading white space.
pub open spec fn trimmed_start(s: Seq<char>) -> Seq<char>
    decreases s.len(),
{
    if s.len() > 0 && whitespace(s[0]) {
        trimmed_start(s.skip(1))
    } else {
        s
    }
}

/// `s` without its trailing white space.
pub open spec fn trimmed_end(s: Seq<char>) -> Seq<char>
    decreases s.len(),
{
    if s.len() > 0 && whitespace(s.last()) {
        trimmed_end(s.drop_last())
    } else {
        s
    }
}

/// `s` without the white space around it.
pub open spec fn trimmed(s: Seq<char>) -> Seq<char> {
    trimmed_end(trimmed_start(s))
}

pub fn trim(s: &str) -> (r: String)
    ensures
        r@ == trimmed(s@),
{
    let x = chars_of(s);
    let mut from: usize = 0;
    assert(x@.skip(0) =~= x@);
    while from < x.len() && is_whitespace(x[from])
        invariant
            from <= x@.len(),
            x@ == s@,
            trimmed_start(s@) == trimmed_start(x@.skip(from as int)),
        decreases x@.len() - from,
    {
        assert(x@.skip(from as int).skip(1) =~= x@.skip(from + 1));
        from += 1;
    }
    let mut to: usize = x.len();
    assert(x@.skip(from as int) =~= x@.subrange(from as int, to as int));
    while to > from && is_whitespace(x[to - 1])
        invariant
            from <= to <= x@.len(),
            trimmed(s@) == trimmed_end(x@.subrange(from as int, to as int)),
        decreases to - from,
    {
        assert(x@.subrange(from as int, to as int).drop_last() =~= x@.subrange(
            from as int,
            to - 1,
        ));
        assert(x@.subrange(from as int, to as int).last() == x@[to - 1]);
        to -= 1;
    }
    string_of(&x, from, to)
}

/// `s` without any trailing `c`.
pub open spec fn without_trailing(s: Seq<char>, c: char) -> Seq<char>
    decreases s.len(),
{
    if s.len() > 0 && s.last() == c {
        without_trailing(s.drop_last(), c)
    } else {
        s
    }
}

pub fn trim_end_matches(s: &str, c: char) -> (r: String)
    ensures
        r@ == without_trailing(s@, c),
{
    let x = chars_of(s);
    let mut to: usize = x.len();
    assert(x@.take(to as int) =~= x@);
    while to > 0 && x[to - 1] == c
        invariant
            to <= x@.len(),
            x@ == s@,
            without_trailing(s@, c) == without_trailing(x@.take(to as int), c),
        decreases to,
    {
        assert(x@.take(to as int).drop_last() =~= x@.take(to - 1));
        to -= 1;
    }
    let r = string_of(&x, 0, to);
    assert(r@ =~= x@.take(to as int));
    r
}

// ---- splitting ------------------------------------------------------------

/// The position of the first `c` in `s`; the length of `s` when there is none.
pub open spec fn first_of(s: Seq<char>, c: char) -> nat
    decreases s.len(),
{
    if s.len() == 0 || s[0] == c {
        0
    } else {
        1 + first_of(s.skip(1), c)
    }
}

pub proof fn lemma_first_of(s: Seq<char>, c: char)
    ensures
        first_of(s, c) <= s.len(),
        first_of(s, c) < s.len() ==> s[first_of(s, c) as int] == c,
        forall|i: int| 0 <= i < first_of(s, c) ==> s[i] != c,
    decreases s.len(),
{
    if s.len() > 0 && s[0] != c {
        lemma_first_of(s.skip(1), c);
        assert forall|i: int| 0 <= i < first_of(s, c) implies s[i] != c by {
            if i > 0 {
                assert(s.skip(1)[i - 1] == s[i]);
            }
        }
    }
}

/// A position with no `c` before it, and either a `c` at it or nothing after
/// it, is the first.
pub proof fn lemma_first_of_is(s: Seq<char>, c: char, n: nat)
    requires
        n <= s.len(),
        n < s.len() ==> s[n as int] == c,
        forall|i: int| 0 <= i < n ==> s[i] != c,
    ensures
        first_of(s, c) == n,
{
    lemma_first_of(s, c);
    let f = first_of(s, c);
    if f < n {
        assert(s[f as int] != c);
    } else if n < f {
        assert(s[n as int] != c);
    }
}

/// The position of the first `c` in `v[from..]`, or the length of `v`.
pub(crate) fn find_from(v: &Vec<char>, from: usize, c: char) -> (r: usize)
    requires
        from <= v@.len(),
    ensures
        r == from + first_of(v@.skip(from as int), c),
        from <= r <= v@.len(),
{
    let mut i: usize = from;
    while i < v.len() && v[i] != c
        invariant
            from <= i <= v@.len(),
            forall|j: int| from <= j < i ==> v@[j] != c,
        decreases v@.len() - i,
    {
        i += 1;
    }
    proof {
        lemma_first_of_is(v@.skip(from as int), c, (i - from) as nat);
    }
    i
}

/// What stands before and after the first `c` in `s`, if there is one.
pub open spec fn parted(s: Seq<char>, c: char) -> Option<(Seq<char>, Seq<char>)> {
    let n = first_of(s, c) as int;
    if n < s.len() {
        Some((s.take(n), s.skip(n + 1)))
    } else {
        None
    }
}

pub fn split_once(s: &str, c: char) -> (r: Option<(String, String)>)
    ensures
        r is Some <==> parted(s@, c) is Some,
        r matches Some((a, b)) ==> parted(s@, c) == Some((a@, b@)),
{
    let x = chars_of(s);
    assert(x@.skip(0) =~= x@);
    let n = find_from(&x, 0, c);
    if n < x.len() {
        let a = string_of(&x, 0, n);
        let b = string_of(&x, n + 1, x.len());
        assert(a@ =~= s@.take(n as int));
        assert(b@ =~= s@.skip(n + 1));
        Some((a, b))
    } else {
        None
    }
}

/// The pieces of `s` between its `c`s: always one more than there are `c`s.
pub open spec fn pieces(s: Seq<char>, c: char) -> Seq<Seq<char>>
    decreases s.len(),
{
    let n = first_of(s, c) as int;
    if n < s.len() {
        seq![s.take(n)] + pieces(s.skip(n + 1), c)
    } else {
        seq![s]
    }
}

pub fn split(s: &str, c: char) -> (r: Vec<String>)
    ensures
        r.deep_view() == pieces(s@, c),
{
    let x = chars_of(s);
    let mut out: Vec<String> = Vec::new();
    let mut at: usize = 0;
    assert(x@.skip(0) =~= x@);
    assert(out.deep_view() =~= Seq::<Seq<char>>::empty());
    loop
        invariant
            at <= x@.len(),
            x@ == s@,
            pieces(s@, c) =~= out.deep_view() + pieces(x@.skip(at as int), c),
        decreases x@.len() - at,
    {
        let n = find_from(&x, at, c);
        let piece = string_of(&x, at, n);
        let ghost tail = x@.skip(at as int);
        let ghost before = out.deep_view();
        proof {
            assert(piece@ =~= tail.take(n - at));
        }
        out.push(piece);
        assert(out.deep_view() =~= before.push(piece@));
        if n < x.len() {
            assert(tail.skip(n - at + 1) =~= x@.skip(n + 1));
            at = n + 1;
        } else {
            assert(tail.take(n - at) =~= tail);
            return out;
        }
    }
}

/// `parts` put one after the other, with `sep` between them.
pub open spec fn joined(parts: Seq<Seq<char>>, sep: Seq<char>) -> Seq<char>
    decreases parts.len(),
{
    if parts.len() == 0 {
        Seq::empty()
    } else if parts.len() == 1 {
        parts[0]
    } else {
        joined(parts.drop_last(), sep) + sep + parts.last()
    }
}

pub fn join(parts: &Vec<String>, sep: &str) -> (r: String)
    ensures
        r@ == joined(parts.deep_view(), sep@),
{
    let mut r = String::new();
    let mut i: usize = 0;
    let ghost all = parts.deep_view();
    assert(all.take(0) =~= Seq::<Seq<char>>::empty());
    while i < parts.len()
        invariant
            i <= parts@.len(),
            all == parts.deep_view(),
            r@ == joined(all.take(i as int), sep@),
        decreases parts@.len() - i,
    {
        proof {
            assert(all.take(i + 1).drop_last() =~= all.take(i as int));
            assert(all.take(i + 1).last() == parts@[i as int]@);
        }
        if i > 0 {
            r.append(sep);
        }
        r.append(parts[i].as_str());
        proof {
            if i == 0 {
                assert(r@ =~= parts@[0]@);
            }
        }
        i += 1;
    }
    assert(all.take(i as int) =~= all);
    r
}

// ---- padding --------------------------------------------------------------

/// `n` spaces.
pub open spec fn spaces(n: int) -> Seq<char> {
    Seq::new(if n > 0 { n as nat } else { 0 }, |i: int| ' ')
}

/// `s` at the left edge of a field of `width` characters.
pub open spec fn flush_left(s: Seq<char>, width: int) -> Seq<char> {
    s + spaces(width - s.len())
}

/// `s` at the right edge of a field of `width` characters.
pub open spec fn flush_right(s: Seq<char>, width: int) -> Seq<char> {
    spaces(width - s.len()) + s
}

fn blanks(used: usize, width: usize) -> (r: String)
    ensures
        r@ == spaces(width - used),
{
    let mut r = String::new();
    let mut i: usize = used;
    while i < width
        invariant
            used <= width ==> used <= i <= width,
            used > width ==> i == used,
            r@ =~= spaces(i - used),
        decreases width - i,
    {
        r.push(' ');
        i += 1;
    }
    r
}

pub fn pad_right(s: &str, width: usize) -> (r: String)
    ensures
        r@ == flush_left(s@, width as int),
{
    let b = blanks(s.unicode_len(), width);
    cat(s, b.as_str())
}

pub fn pad_left(s: &str, width: usize) -> (r: String)
    ensures
        r@ == flush_right(s@, width as int),
{
    let b = blanks(s.unicode_len(), width);
    cat(b.as_str(), s)
}

/// Whether `p` occurs in `s`.
pub open spec fn occurs_in(s: Seq<char>, p: Seq<char>) -> bool {
    exists|i: int| 0 <= i <= s.len() && #[trigger] begins_with(s.skip(i), p)
}

pub fn contains(s: &str, p: &str) -> (r: bool)
    ensures
        r == occurs_in(s@, p@),
{
    let x = chars_of(s);
    let y = chars_of(p);
    let mut i: usize = 0;
    while i < x.len()
        invariant
            i <= x@.len(),
            x@ == s@,
            y@ == p@,
            forall|j: int| 0 <= j < i ==> !#[trigger] begins_with(s@.skip(j), p@),
        decreases x@.len() - i,
    {
        if prefix_at(&x, i, &y) {
            return true;
        }
        i += 1;
    }
    prefix_at(&x, i, &y)
}

// ---- laws -----------------------------------------------------------------

/// Blanks around a text are dropped, and the text between them stays.
pub proof fn law_blanks_are_trimmed(a: Seq<char>, core: Seq<char>, b: Seq<char>)
    requires
        forall|i: int|
            0 <= i < a.len() ==> (#[trigger] a[i] == ' ' || a[i] == '\t' || a[i] == '\n' || a[i]
                == '\r'),
        forall|i: int|
            0 <= i < b.len() ==> (#[trigger] b[i] == ' ' || b[i] == '\t' || b[i] == '\n' || b[i]
                == '\r'),
        core.len() > 0,
        '!' <= core[0] && core[0] <= '~',
        '!' <= core[core.len() - 1] && core[core.len() - 1] <= '~',
    ensures
        trimmed(a + core + b) == core,
        trimmed(a) == Seq::<char>::empty(),
{
    lemma_trimmed_start(a, core + b);
    assert(a + core + b =~= a + (core + b));
    assert((core + b)[0] == core[0]);
    lemma_trimmed_end(core, b);
    lemma_trimmed_start(a, Seq::empty());
    assert(a + Seq::<char>::empty() =~= a);
}

proof fn lemma_trimmed_start(a: Seq<char>, s: Seq<char>)
    requires
        forall|i: int|
            0 <= i < a.len() ==> (#[trigger] a[i] == ' ' || a[i] == '\t' || a[i] == '\n' || a[i]
                == '\r'),
        s.len() > 0 ==> !whitespace(s[0]),
    ensures
        trimmed_start(a + s) == s,
    decreases a.len(),
{
    if a.len() == 0 {
        assert(a + s =~= s);
    } else {
        assert(whitespace(a[0]));
        assert((a + s).skip(1) =~= a.skip(1) + s);
        lemma_trimmed_start(a.skip(1), s);
    }
}

proof fn lemma_trimmed_end(s: Seq<char>, b: Seq<char>)
    requires
        forall|i: int|
            0 <= i < b.len() ==> (#[trigger] b[i] == ' ' || b[i] == '\t' || b[i] == '\n' || b[i]
                == '\r'),
        s.len() > 0 ==> !whitespace(s[s.len() - 1]),
    ensures
        trimmed_end(s + b) == s,
    decreases b.len(),
{
    if b.len() == 0 {
        assert(s + b =~= s);
    } else {
        assert(whitespace(b[b.len() - 1]));
        assert((s + b).drop_last() =~= s + b.drop_last());
        lemma_trimmed_end(s, b.drop_last());
    }
}

/// A text is parted at the first separator, and split at each.
pub proof fn law_text_is_split(p: Seq<char>, c: char, rest: Seq<char>)
    requires
        !p.contains(c),
    ensures
        parted(p + seq![c] + rest, c) == Some((p, rest)),
        parted(p, c) is None,
        pieces(p + seq![c] + rest, c) == seq![p] + pieces(rest, c),
        pieces(p, c) == seq![p],
{
    let s = p + seq![c] + rest;
    assert forall|i: int| 0 <= i < p.len() implies s[i] != c && p[i] != c by {
        assert(s[i] == p[i]);
        assert(p.contains(p[i]));
    }
    lemma_first_of_is(s, c, p.len());
    lemma_first_of_is(p, c, p.len());
    assert(s.take(p.len() as int) =~= p);
    assert(s.skip(p.len() as int + 1) =~= rest);
}

/// Texts are joined in order with the separator between two of them.
pub proof fn law_texts_are_joined(parts: Seq<Seq<char>>, x: Seq<char>, sep: Seq<char>)
    ensures
        joined(Seq::empty(), sep) == Seq::<char>::empty(),
        joined(seq![x], sep) == x,
        parts.len() > 0 ==> joined(parts.push(x), sep) == joined(parts, sep) + sep + x,
{
    assert(parts.push(x).drop_last() =~= parts);
}

/// A field is as wide as asked for, or as its text; the text stands at its
/// left or right edge with spaces beside it.
pub proof fn law_fields_are_padded(s: Seq<char>, width: nat, i: int)
    ensures
        ({
            let l = flush_left(s, width as int);
            let r = flush_right(s, width as int);
            let n = if s.len() < width {
                width
            } else {
                s.len()
            };
            &&& l.len() == n && r.len() == n
            &&& l.take(s.len() as int) == s
            &&& r.skip(n - s.len()) == s
            &&& s.len() <= i < n ==> l[i] == ' '
            &&& 0 <= i < n - s.len() ==> r[i] == ' '
        }),
{
    let l = flush_left(s, width as int);
    let r = flush_right(s, width as int);
    assert(l.take(s.len() as int) =~= s);
    assert(r.skip(r.len() - s.len()) =~= s);
}

/// What follows a prefix is found, and only a text with the prefix has it; a
/// trailing character is dropped as often as it stands there.
pub proof fn law_ends_are_stripped(p: Seq<char>, rest: Seq<char>, c: char)
    ensures
        after_prefix(p + rest, p) == Some(rest),
        forall|s: Seq<char>| #[trigger]
            after_prefix(s, p) is Some ==> s == p + after_prefix(s, p)->0,
        without_trailing(rest.push(c), c) == without_trailing(rest, c),
        rest.len() > 0 && rest[rest.len() - 1] != c ==> without_trailing(rest, c) == rest,
        without_trailing(Seq::empty(), c) == Seq::<char>::empty(),
{
    assert((p + rest).take(p.len() as int) =~= p);
    assert((p + rest).skip(p.len() as int) =~= rest);
    assert forall|s: Seq<char>| #[trigger] after_prefix(s, p) is Some implies s == p + after_prefix(
        s,
        p,
    )->0 by {
        assert(s =~= s.take(p.len() as int) + s.skip(p.len() as int));
    }
    assert(rest.push(c).drop_last() =~= rest);
}

/// A text occurs in any text that has it somewhere, and in no other.
pub proof fn law_occurrence(a: Seq<char>, p: Seq<char>, b: Seq<char>)
    ensures
        occurs_in(a + p + b, p),
        forall|s: Seq<char>| #[trigger]
            occurs_in(s, p) ==> exists|i: int|
                0 <= i <= s.len() - p.len() && #[trigger] s.subrange(i, i + p.len()) == p,
{
    let s = a + p + b;
    assert(s.skip(a.len() as int).take(p.len() as int) =~= p);
    assert(begins_with(s.skip(a.len() as int), p));
    assert forall|s: Seq<char>| #[trigger] occurs_in(s, p) implies exists|i: int|
        0 <= i <= s.len() - p.len() && #[trigger] s.subrange(i, i + p.len()) == p by {
        let i = choose|i: int| 0 <= i <= s.len() && #[trigger] begins_with(s.skip(i), p);
        assert(s.subrange(i, i + p.len()) =~= s.skip(i).take(p.len() as int));
    }
}

} // verus!
