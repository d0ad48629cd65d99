//! Text as sequences of characters.
//!
//! A `&str` or `String` is viewed as its `Seq<char>`. Functions that look inside
//! a text first take its characters into a `Vec<char>` and index that.

use vstd::prelude::*;

verus! {

/// `String::push`, of std.
///
/// Trusted: the string is afterwards what it was before, with `ch` at its end.
pub assume_specification[ String::push ](s: &mut String, ch: char)
    ensures
        final(s)@ == old(s)@.push(ch),
;

/// `n` spaces.
pub open spec fn spaces(n: nat) -> Seq<char> {
    Seq::new(n, |i: int| ' ')
}

/// The characters of `s`, in order.
pub fn chars_of(s: &str) -> (v: Vec<char>)
    ensures
        v@ == s@,
{
    let mut v: Vec<char> = Vec::new();
    for c in it: s.chars()
        invariant
            it.seq() == s@,
            v@ == it.seq().take(it.index() as int),
    {
        v.push(c);
    }
    v
}

/// Appends `v[from..to]` to `out`.
pub fn push_range(out: &mut String, v: &Vec<char>, from: usize, to: usize)
    requires
        from <= to <= v.len(),
    ensures
        final(out)@ == old(out)@ + v@.subrange(from as int, to as int),
{
    let mut i: usize = from;
    while i < to
        invariant
            from <= i <= to <= v.len(),
            out@ == old(out)@ + v@.subrange(from as int, i as int),
        decreases to - i,
    {
        out.push(v[i]);
        i += 1;
    }
}

/// Appends `n` spaces to `out`.
pub fn push_spaces(out: &mut String, n: usize)
    ensures
        final(out)@ == old(out)@ + spaces(n as nat),
{
    let mut k: usize = 0;
    while k < n
        invariant
            k <= n,
            out@ == old(out)@ + spaces(k as nat),
        decreases n - k,
    {
        out.push(' ');
        k += 1;
    }
}

/// The text made of `v[from..to]`.
pub fn string_of_range(v: &Vec<char>, from: usize, to: usize) -> (s: String)
    requires
        from <= to <= v.len(),
    ensures
        s@ == v@.subrange(from as int, to as int),
{
    let mut s = String::new();
    push_range(&mut s, v, from, to);
    s
}

/// The decimal digit for `n`, which is between 0 and 9.
pub open spec fn digit(n: int) -> char
    recommends
        0 <= n <= 9,
{
    (n + 48) as char
}

/// What a decimal digit stands for.
pub open spec fn digit_value(c: char) -> int
    recommends
        is_digit(c),
{
    c as int - 48
}

/// Whether `c` is one of `0` to `9`.
pub open spec fn is_digit(c: char) -> bool {
    '0' <= c <= '9'
}

/// `n` written with two digits.
pub open spec fn two_digits(n: int) -> Seq<char>
    recommends
        0 <= n <= 99,
{
    seq![digit(n / 10), digit(n % 10)]
}

/// `n` written with three digits.
pub open spec fn three_digits(n: int) -> Seq<char>
    recommends
        0 <= n <= 999,
{
    seq![digit(n / 100), digit(n / 10 % 10), digit(n % 10)]
}

/// `n` written with four digits.
pub open spec fn four_digits(n: int) -> Seq<char>
    recommends
        0 <= n <= 9999,
{
    seq![digit(n / 1000), digit(n / 100 % 10), digit(n / 10 % 10), digit(n % 10)]
}

/// The character for the decimal digit `n`.
pub fn digit_char(n: u8) -> (c: char)
    requires
        n <= 9,
    ensures
        c == digit(n as int),
{
    (48u8 + n) as char
}

/// `n` in decimal digits, without leading zeros.
pub open spec fn decimal(n: nat) -> Seq<char>
    decreases n,
{
    if n < 10 {
        seq![digit(n as int)]
    } else {
        decimal(n / 10).push(digit((n % 10) as int))
    }
}

/// Appends `n` in decimal digits to `out`.
pub fn push_decimal(out: &mut String, n: u32)
    ensures
        final(out)@ == old(out)@ + decimal(n as nat),
    decreases n,
{
    if n >= 10 {
        push_decimal(out, n / 10);
    }
    out.push(digit_char((n % 10) as u8));
    assert(out@ =~= old(out)@ + decimal(n as nat));
}

/// Whether `p` stands in `v` at `at`.
pub open spec fn occurs_at(v: Seq<char>, at: int, p: Seq<char>) -> bool {
    0 <= at && at + p.len() <= v.len() && v.subrange(at, at + p.len()) == p
}

/// Whether `p` stands in `v` at `at`.
pub fn matches_at(v: &Vec<char>, at: usize, p: &Vec<char>) -> (r: bool)
    ensures
        r == occurs_at(v@, at as int, p@),
{
    let n = v.len();
    let m = p.len();
    if at > n || m > n - at {
        return false;
    }
    let mut k: usize = 0;
    while k < m
        invariant
            k <= m,
            m == p.len(),
            n == v.len(),
            at + m <= n,
            v@.subrange(at as int, at + k) == p@.take(k as int),
        decreases m - k,
    {
        if v[at + k] != p[k] {
            assert(v@.subrange(at as int, at + m)[k as int] != p@[k as int]);
            return false;
        }
        assert(v@.subrange(at as int, at + k + 1) =~= v@.subrange(at as int, at + k).push(
            v@[at + k],
        ));
        assert(p@.take(k + 1) =~= p@.take(k as int).push(p@[k as int]));
        k += 1;
    }
    assert(p@.take(m as int) =~= p@);
    true
}

/// Whether `v` begins with `p`.
pub fn has_prefix(v: &Vec<char>, p: &Vec<char>) -> (r: bool)
    ensures
        r == p@.is_prefix_of(v@),
{
    matches_at(v, 0, p)
}

/// Where `p` first stands in `v` at or behind `i`.
pub open spec fn first_occurrence_from(v: Seq<char>, p: Seq<char>, i: int) -> Option<int>
    decreases v.len() - i + 1,
{
    if i < 0 || i + p.len() > v.len() {
        None
    } else if occurs_at(v, i, p) {
        Some(i)
    } else {
        first_occurrence_from(v, p, i + 1)
    }
}

/// Where `p` first stands in `v`.
pub open spec fn first_occurrence(v: Seq<char>, p: Seq<char>) -> Option<int> {
    first_occurrence_from(v, p, 0)
}

/// Where `p` first stands in `v`.
pub fn find(v: &Vec<char>, p: &Vec<char>) -> (r: Option<usize>)
    ensures
        match r {
            Some(at) => first_occurrence(v@, p@) == Some(at as int) && at + p.len() <= v.len(),
            None => first_occurrence(v@, p@) is None,
        },
{
    let n = v.len();
    let m = p.len();
    if m > n {
        return None;
    }
    let mut i: usize = 0;
    loop
        invariant
            m <= n,
            n == v.len(),
            m == p.len(),
            i <= n - m,
            first_occurrence(v@, p@) == first_occurrence_from(v@, p@, i as int),
        decreases n - m - i,
    {
        if matches_at(v, i, p) {
            return Some(i);
        }
        if i == n - m {
            assert(first_occurrence_from(v@, p@, i + 1) is None);
            return None;
        }
        i += 1;
    }
}

/// Whether `c` is white space, as Unicode has it.
pub open spec fn is_whitespace(c: char) -> bool {
    ||| '\u{9}' <= c <= '\u{d}'
    ||| c == ' '
    ||| c == '\u{85}'
    ||| c == '\u{a0}'
    ||| c == '\u{1680}'
    ||| '\u{2000}' <= c <= '\u{200a}'
    ||| c == '\u{2028}'
    ||| c == '\u{2029}'
    ||| c == '\u{202f}'
    ||| c == '\u{205f}'
    ||| c == '\u{3000}'
}

/// Whether `c` is white space, as Unicode has it.
pub fn is_space(c: char) -> (r: bool)
    ensures
        r == is_whitespace(c),
{
    ('\u{9}' <= c && c <= '\u{d}') || c == ' ' || c == '\u{85}' || c == '\u{a0}' || c == '\u{1680}'
        || ('\u{2000}' <= c && c <= '\u{200a}') || c == '\u{2028}' || c == '\u{2029}' || c
        == '\u{202f}' || c == '\u{205f}' || c == '\u{3000}'
}

/// The first position at or behind `i` that holds no white space.
pub open spec fn skip_whitespace(t: Seq<char>, i: int) -> int
    decreases t.len() - i,
{
    if 0 <= i < t.len() && is_whitespace(t[i]) {
        skip_whitespace(t, i + 1)
    } else {
        i
    }
}

/// The first position at or behind `i` that holds no white space.
pub fn skip_spaces(v: &Vec<char>, i: usize) -> (r: usize)
    requires
        i <= v.len(),
    ensures
        r == skip_whitespace(v@, i as int),
        i <= r <= v.len(),
{
    let mut k: usize = i;
    while k < v.len() && is_space(v[k])
        invariant
            i <= k <= v.len(),
            skip_whitespace(v@, i as int) == skip_whitespace(v@, k as int),
        decreases v.len() - k,
    {
        k += 1;
    }
    k
}

/// Whether a line begins at `i`: behind a line break, or at the very start of
/// a text that is read `from_start`.
pub open spec fn is_line_start(t: Seq<char>, i: int, from_start: bool) -> bool {
    0 <= i <= t.len() && if i == 0 {
        from_start
    } else {
        t[i - 1] == '\n'
    }
}

/// Where the line that begins at `start` stops: at the next line break, or at
/// the end of the text.
pub open spec fn line_stop(t: Seq<char>, start: int) -> int
    decreases t.len() - start,
{
    if 0 <= start < t.len() && t[start] != '\n' {
        line_stop(t, start + 1)
    } else {
        start
    }
}

/// The line that begins at `start`, without its line break; a carriage return
/// just before the line break belongs to the break.
pub open spec fn line_at(t: Seq<char>, start: int) -> Seq<char> {
    let stop = line_stop(t, start);
    if stop < t.len() && start < stop && t[stop - 1] == '\r' {
        t.subrange(start, stop - 1)
    } else {
        t.subrange(start, stop)
    }
}

/// Whether `a` and `b` are the same text.
pub fn same_text(a: &str, b: &str) -> (r: bool)
    ensures
        r == (a@ == b@),
{
    let x = chars_of(a);
    let y = chars_of(b);
    if x.len() != y.len() {
        return false;
    }
    let r = matches_at(&x, 0, &y);
    assert(x@.subrange(0, x@.len() as int) =~= x@);
    r
}

/// Whether `a` comes before `b` or equals it from position `i` on, given that
/// they agree before `i`.
pub open spec fn lex_le_from(a: Seq<char>, b: Seq<char>, i: int) -> bool
    decreases a.len() - i,
{
    if i >= a.len() {
        true
    } else if i >= b.len() {
        false
    } else if a[i] != b[i] {
        a[i] < b[i]
    } else {
        lex_le_from(a, b, i + 1)
    }
}

/// The order of a dictionary: the first character in which two texts differ
/// decides, and a text comes before each of its extensions. It is the order in
/// which `String`s sort.
pub open spec fn lex_le(a: Seq<char>, b: Seq<char>) -> bool {
    lex_le_from(a, b, 0)
}

/// `lex_le`, for handing to functions that take an order.
pub open spec fn lex_order() -> spec_fn(Seq<char>, Seq<char>) -> bool {
    |a: Seq<char>, b: Seq<char>| lex_le(a, b)
}

/// Whether `a` comes before `b` in the order of a dictionary, or equals it.
pub fn text_le(a: &str, b: &str) -> (r: bool)
    ensures
        r == lex_le(a@, b@),
{
    let x = chars_of(a);
    let y = chars_of(b);
    let mut i: usize = 0;
    while i < x.len()
        invariant
            i <= x.len(),
            x@ == a@,
            y@ == b@,
            lex_le(a@, b@) == lex_le_from(a@, b@, i as int),
        decreases x.len() - i,
    {
        if i >= y.len() {
            return false;
        }
        if x[i] != y[i] {
            return x[i] < y[i];
        }
        i += 1;
    }
    true
}

proof fn lemma_lex_refl(a: Seq<char>, i: int)
    requires
        0 <= i,
    ensures
        lex_le_from(a, a, i),
    decreases a.len() - i,
{
    if i < a.len() {
        lemma_lex_refl(a, i + 1);
    }
}

proof fn lemma_lex_antisym(a: Seq<char>, b: Seq<char>, i: int)
    requires
        0 <= i <= a.len(),
        i <= b.len(),
        lex_le_from(a, b, i),
        lex_le_from(b, a, i),
    ensures
        a.len() == b.len(),
        forall|k: int| i <= k < a.len() ==> a[k] == b[k],
    decreases a.len() - i,
{
    if i < a.len() {
        lemma_lex_antisym(a, b, i + 1);
    }
}

proof fn lemma_lex_trans(a: Seq<char>, b: Seq<char>, c: Seq<char>, i: int)
    requires
        0 <= i,
        lex_le_from(a, b, i),
        lex_le_from(b, c, i),
    ensures
        lex_le_from(a, c, i),
    decreases a.len() - i,
{
    if i < a.len() && a[i] == b[i] && b[i] == c[i] {
        lemma_lex_trans(a, b, c, i + 1);
    }
}

proof fn lemma_lex_total(a: Seq<char>, b: Seq<char>, i: int)
    requires
        0 <= i,
    ensures
        lex_le_from(a, b, i) || lex_le_from(b, a, i),
    decreases a.len() - i,
{
    if i < a.len() && i < b.len() && a[i] == b[i] {
        lemma_lex_total(a, b, i + 1);
    }
}

/// The order of a dictionary is a total order.
pub proof fn lemma_lex_order_is_total()
    ensures
        vstd::relations::total_ordering(lex_order()),
{
    let le = lex_order();
    assert forall|a: Seq<char>| #[trigger] le(a, a) by {
        lemma_lex_refl(a, 0);
    }
    assert forall|a: Seq<char>, b: Seq<char>| #[trigger] le(a, b) && #[trigger] le(b, a) implies a
        == b by {
        lemma_lex_antisym(a, b, 0);
        assert(a =~= b);
    }
    assert forall|a: Seq<char>, b: Seq<char>, c: Seq<char>| #[trigger] le(a, b) && #[trigger] le(
        b,
        c,
    ) implies le(a, c) by {
        lemma_lex_trans(a, b, c, 0);
    }
    assert forall|a: Seq<char>, b: Seq<char>| #[trigger] le(a, b) || #[trigger] le(b, a) by {
        lemma_lex_total(a, b, 0);
    }
}

} // verus!
