//! Character sequences: conversion between strings and vectors of characters,
//! searching, splitting, trimming, joining and reading decimal numbers.

use vstd::prelude::*;
use crate::model::views;

verus! {

/// The index of the first occurrence of `c` in `s`, or the length of `s`
/// where `c` does not occur.
pub open spec fn first_at(s: Seq<char>, c: char) -> int
    decreases s.len(),
{
    if s.len() == 0 {
        0
    } else if s[0] == c {
        0
    } else {
        1 + first_at(s.drop_first(), c)
    }
}

/// The pieces of `s` between occurrences of `sep`. There is always at least
/// one piece; `n` separators give `n + 1` pieces, some of them possibly empty.
pub open spec fn split(s: Seq<char>, sep: char) -> Seq<Seq<char>>
    decreases s.len(),
{
    let i = first_at(s, sep);
    if 0 <= i < s.len() {
        seq![s.subrange(0, i)] + split(s.subrange(i + 1, s.len() as int), sep)
    } else {
        seq![s]
    }
}

/// Space, tab and carriage return.
pub open spec fn is_blank(c: char) -> bool {
    c == ' ' || c == '\t' || c == '\r'
}

/// `s` without its leading blanks.
pub open spec fn trim_start(s: Seq<char>) -> Seq<char>
    decreases s.len(),
{
    if s.len() > 0 && is_blank(s[0]) {
        trim_start(s.drop_first())
    } else {
        s
    }
}

/// `s` without its trailing blanks.
pub open spec fn trim_end(s: Seq<char>) -> Seq<char>
    decreases s.len(),
{
    if s.len() > 0 && is_blank(s.last()) {
        trim_end(s.drop_last())
    } else {
        s
    }
}

/// `s` without leading and trailing blanks.
pub open spec fn trim(s: Seq<char>) -> Seq<char> {
    trim_end(trim_start(s))
}

/// The items written one after another with `sep` between neighbours.
pub open spec fn join(items: Seq<Seq<char>>, sep: Seq<char>) -> Seq<char>
    decreases items.len(),
{
    if items.len() == 0 {
        Seq::empty()
    } else if items.len() == 1 {
        items[0]
    } else {
        join(items.drop_last(), sep) + sep + items.last()
    }
}

/// Whether `c` is one of the ten decimal digits.
pub open spec fn is_digit(c: char) -> bool {
    '0' <= c <= '9'
}

/// The value of a decimal digit; zero for any other character.
pub open spec fn digit_value(c: char) -> nat {
    if is_digit(c) {
        (c as u32 - '0' as u32) as nat
    } else {
        0
    }
}

/// Whether `s` consists of decimal digits only.
pub open spec fn all_digits(s: Seq<char>) -> bool {
    forall|i: int| 0 <= i < s.len() ==> is_digit(#[trigger] s[i])
}

/// The number that the decimal digits `s` denote.
pub open spec fn decimal_value(s: Seq<char>) -> nat
    decreases s.len(),
{
    if s.len() == 0 {
        0
    } else {
        decimal_value(s.drop_last()) * 10 + digit_value(s.last())
    }
}

/// The 16-bit number that `s` denotes: `s` is a non-empty run of decimal
/// digits whose value is at most 65535. Any other text denotes nothing.
pub open spec fn number_of(s: Seq<char>) -> Option<u16> {
    if s.len() > 0 && all_digits(s) && decimal_value(s) <= u16::MAX {
        Some(decimal_value(s) as u16)
    } else {
        None
    }
}

/// The first occurrence lies within the text, holds the character, and
/// nothing before it does.
proof fn lemma_first_at_bounds(s: Seq<char>, c: char)
    ensures
        0 <= first_at(s, c) <= s.len(),
        first_at(s, c) < s.len() ==> s[first_at(s, c)] == c,
        forall|j: int| 0 <= j < first_at(s, c) ==> s[j] != c,
    decreases s.len(),
{
    if s.len() > 0 && s[0] != c {
        let t = s.drop_first();
        lemma_first_at_bounds(t, c);
        assert forall|j: int| 0 <= j < first_at(s, c) implies s[j] != c by {
            if j > 0 {
                assert(s[j] == t[j - 1]);
            }
        }
    }
}

/// A position that holds the character, with none before it, is the
/// first occurrence.
proof fn lemma_first_at_is(s: Seq<char>, c: char, i: int)
    requires
        0 <= i <= s.len(),
        forall|j: int| 0 <= j < i ==> s[j] != c,
        i < s.len() ==> s[i] == c,
    ensures
        first_at(s, c) == i,
{
    lemma_first_at_bounds(s, c);
    let k = first_at(s, c);
    if k < i {
        assert(s[k] == c);
    } else if k > i {
        assert(s[i] == c);
    }
}

/// Trimming the start drops exactly the leading run of blanks.
proof fn lemma_trim_start_is(s: Seq<char>, a: int)
    requires
        0 <= a <= s.len(),
        forall|j: int| 0 <= j < a ==> is_blank(s[j]),
        a < s.len() ==> !is_blank(s[a]),
    ensures
        trim_start(s) == s.subrange(a, s.len() as int),
    decreases s.len(),
{
    if a == 0 {
        assert(s.subrange(0, s.len() as int) =~= s);
    } else {
        let t = s.drop_first();
        assert forall|j: int| 0 <= j < a - 1 implies is_blank(t[j]) by {
            assert(t[j] == s[j + 1]);
        }
        lemma_trim_start_is(t, a - 1);
        assert(t.subrange(a - 1, t.len() as int) =~= s.subrange(a, s.len() as int));
    }
}

/// Trimming the end drops exactly the trailing run of blanks.
proof fn lemma_trim_end_is(s: Seq<char>, b: int)
    requires
        0 <= b <= s.len(),
        forall|j: int| b <= j < s.len() ==> is_blank(s[j]),
        b > 0 ==> !is_blank(s[b - 1]),
    ensures
        trim_end(s) == s.subrange(0, b),
    decreases s.len(),
{
    if b == s.len() {
        assert(s.subrange(0, s.len() as int) =~= s);
    } else {
        let t = s.drop_last();
        lemma_trim_end_is(t, b);
        assert(t.subrange(0, b) =~= s.subrange(0, b));
    }
}

/// Appends one character to a string.
///
/// Trusted: `String::push`, which the standard library documents as appending
/// the given character to the end of the string.
#[verifier::external_body]
pub(crate) fn push_char(s: &mut String, c: char)
    ensures
        final(s)@ == old(s)@.push(c),
{
    s.push(c);
}

/// The characters of a string, in order.
pub fn chars_of(s: &str) -> (v: Vec<char>)
    ensures
        v@ == s@,
{
    let mut v: Vec<char> = Vec::new();
    for c in it: s.chars()
        invariant
            v@ == it.seq().take(it.index() as int),
            it.seq() == s@,
    {
        v.push(c);
    }
    v
}

/// The string made of the characters of `v`.
pub fn string_of(v: &[char]) -> (s: String)
    ensures
        s@ == v@,
{
    let mut s = String::new();
    let mut i: usize = 0;
    while i < v.len()
        invariant
            i <= v@.len(),
            s@ == v@.subrange(0, i as int),
        decreases v@.len() - i,
    {
        push_char(&mut s, v[i]);
        i += 1;
    }
    assert(v@.subrange(0, v@.len() as int) =~= v@);
    s
}

/// Whether two character slices hold the same characters.
pub fn same_chars(a: &[char], b: &[char]) -> (r: bool)
    ensures
        r == (a@ == b@),
{
    if a.len() != b.len() {
        return false;
    }
    let mut i: usize = 0;
    while i < a.len()
        invariant
            a@.len() == b@.len(),
            i <= a@.len(),
            forall|j: int| 0 <= j < i ==> a@[j] == b@[j],
        decreases a@.len() - i,
    {
        if a[i] != b[i] {
            return false;
        }
        i += 1;
    }
    assert(a@ =~= b@);
    true
}

/// Whether a character slice spells the given string.
pub fn spells(a: &[char], word: &str) -> (r: bool)
    ensures
        r == (a@ == word@),
{
    let w = chars_of(word);
    same_chars(a, w.as_slice())
}

/// The index of the first `c` in `s`, or the length of `s`.
pub fn find_char(s: &[char], c: char) -> (i: usize)
    ensures
        i == first_at(s@, c),
        i <= s@.len(),
{
    let mut i: usize = 0;
    while i < s.len() && s[i] != c
        invariant
            i <= s@.len(),
            forall|j: int| 0 <= j < i ==> s@[j] != c,
        decreases s@.len() - i,
    {
        i += 1;
    }
    proof {
        lemma_first_at_is(s@, c, i as int);
    }
    i
}

/// Splits `s` at every `sep`.
pub fn split_chars<'a>(s: &'a [char], sep: char) -> (parts: Vec<&'a [char]>)
    ensures
        views(parts@) == split(s@, sep),
{
    let mut parts: Vec<&'a [char]> = Vec::new();
    let mut start: usize = 0;
    let n = s.len();
    proof {
        assert(s@.subrange(0, n as int) =~= s@);
        assert(views(parts@) + split(s@, sep) =~= split(s@, sep));
    }
    loop
        invariant_except_break
            start <= n,
            views(parts@) + split(s@.subrange(start as int, n as int), sep) =~= split(
                s@,
                sep,
            ),
        invariant
            n == s@.len(),
        ensures
            views(parts@) == split(s@, sep),
        decreases n - start,
    {
        let rest = &s[start..n];
        let i = find_char(rest, sep);
        let ghost before = views(parts@);
        if i < rest.len() {
            let piece = &rest[0..i];
            parts.push(piece);
            proof {
                assert(rest@.subrange(i + 1, rest@.len() as int) =~= s@.subrange(
                    start + i + 1,
                    n as int,
                ));
                assert(views(parts@) =~= before + seq![rest@.subrange(0, i as int)]);
            }
            start = start + i + 1;
        } else {
            parts.push(rest);
            proof {
                assert(views(parts@) =~= before + seq![rest@]);
            }
            break ;
        }
    }
    parts
}

/// `s` without leading and trailing blanks.
pub fn trim_chars<'a>(s: &'a [char]) -> (r: &'a [char])
    ensures
        r@ == trim(s@),
{
    let n = s.len();
    let mut a: usize = 0;
    while a < n && blank(s[a])
        invariant
            a <= n == s@.len(),
            forall|j: int| 0 <= j < a ==> is_blank(s@[j]),
        decreases n - a,
    {
        a += 1;
    }
    let mut b: usize = n;
    while b > a && blank(s[b - 1])
        invariant
            a <= b <= n == s@.len(),
            forall|j: int| b <= j < n ==> is_blank(s@[j]),
        decreases b,
    {
        b -= 1;
    }
    proof {
        lemma_trim_start_is(s@, a as int);
        let t = s@.subrange(a as int, n as int);
        assert forall|j: int| b - a <= j < t.len() implies is_blank(t[j]) by {
            assert(t[j] == s@[j + a]);
        }
        lemma_trim_end_is(t, b - a);
        assert(t.subrange(0, b - a) =~= s@.subrange(a as int, b as int));
    }
    &s[a..b]
}

/// Whether `c` is a space, a tab or a carriage return.
pub fn blank(c: char) -> (r: bool)
    ensures
        r == is_blank(c),
{
    c == ' ' || c == '\t' || c == '\r'
}

/// Reads a 16-bit decimal number.
pub fn parse_number(s: &[char]) -> (r: Option<u16>)
    ensures
        r == number_of(s@),
{
    let n = s.len();
    if n == 0 {
        return None;
    }
    let mut value: u32 = 0;
    let mut i: usize = 0;
    while i < n
        invariant
            i <= n == s@.len(),
            all_digits(s@.subrange(0, i as int)),
            value == decimal_value(s@.subrange(0, i as int)),
            value <= u16::MAX,
        decreases n - i,
    {
        let c = s[i];
        let ghost next = s@.subrange(0, i + 1);
        proof {
            assert(next.drop_last() =~= s@.subrange(0, i as int));
            assert(next.last() == c);
        }
        if !('0' <= c && c <= '9') {
            proof {
                assert(s@[i as int] == c);
                assert(!all_digits(s@));
            }
            return None;
        }
        let d: u32 = c as u32 - '0' as u32;
        let wider: u32 = value * 10 + d;
        proof {
            assert(wider == decimal_value(next));
            assert(s@.subrange(0, n as int) =~= s@);
            lemma_decimal_value_grows(next, s@);
        }
        if wider > 65535 {
            return None;
        }
        value = wider;
        i += 1;
        proof {
            assert forall|j: int| 0 <= j < next.len() implies is_digit(#[trigger] next[j]) by {
                if j < i - 1 {
                    assert(next[j] == s@.subrange(0, i - 1)[j]);
                }
            }
        }
    }
    proof {
        assert(s@.subrange(0, n as int) =~= s@);
    }
    Some(value as u16)
}

/// A longer run of digits does not denote a smaller number than its prefix.
proof fn lemma_decimal_value_grows(prefix: Seq<char>, s: Seq<char>)
    requires
        prefix.len() <= s.len(),
        prefix =~= s.subrange(0, prefix.len() as int),
    ensures
        decimal_value(prefix) <= decimal_value(s),
    decreases s.len(),
{
    if prefix.len() < s.len() {
        let t = s.drop_last();
        assert(prefix =~= t.subrange(0, prefix.len() as int));
        lemma_decimal_value_grows(prefix, t);
    } else {
        assert(prefix =~= s);
    }
}

/// Whether `name` is among `names`.
pub fn has_name(names: &Vec<String>, name: &str) -> (r: bool)
    ensures
        r == views(names@).contains(name@),
{
    let wanted = chars_of(name);
    let mut i: usize = 0;
    while i < names.len()
        invariant
            i <= names@.len(),
            wanted@ == name@,
            forall|j: int| 0 <= j < i ==> names@[j]@ != name@,
        decreases names@.len() - i,
    {
        let here = chars_of(names[i].as_str());
        if same_chars(here.as_slice(), wanted.as_slice()) {
            proof {
                assert(views(names@)[i as int] == name@);
            }
            return true;
        }
        i += 1;
    }
    false
}

} // verus!
