//! Strings as sequences of characters: conversion, joining, trimming,
//! ASCII case folding and ordering.

use vstd::prelude::*;

verus! {

/// `String::push` appends one character to the end of the string.
pub assume_specification[ String::push ](s: &mut String, c: char)
    ensures
        final(s)@ == old(s)@.push(c),
;

/// `==` on string slices compares their characters.
pub assume_specification[ <str as PartialEq>::eq ](a: &str, b: &str) -> (same: bool)
    ensures
        same == (a@ == b@),
;

/// The characters of `s`, in order.
pub fn chars_of(s: &str) -> (out: Vec<char>)
    ensures
        out@ == s@,
{
    let mut out: Vec<char> = Vec::new();
    for c in it: s.chars()
        invariant
            it.seq() == s@,
            out@ == s@.take(it.index()),
    {
        assert(s@.take(it.index() + 1) =~= s@.take(it.index()).push(c));
        out.push(c);
    }
    out
}

/// The string made of `chars[from..to]`.
pub fn string_of_range(chars: &Vec<char>, from: usize, to: usize) -> (out: String)
    requires
        from <= to <= chars.len(),
    ensures
        out@ == chars@.subrange(from as int, to as int),
{
    let mut out = String::new();
    let mut i: usize = from;
    while i < to
        invariant
            from <= i <= to <= chars.len(),
            out@ == chars@.subrange(from as int, i as int),
        decreases to - i,
    {
        assert(chars@.subrange(from as int, i + 1) =~= chars@.subrange(
            from as int,
            i as int,
        ).push(chars@[i as int]));
        out.push(chars[i]);
        i += 1;
    }
    out
}

/// `a` followed by `b`.
pub fn concatenated(a: &str, b: &str) -> (out: String)
    ensures
        out@ == a@ + b@,
{
    let mut out = a.to_owned();
    out.append(b);
    out
}

/// The parts in order, with `sep` between each two neighbours.
pub open spec fn joined(parts: Seq<Seq<char>>, sep: Seq<char>) -> Seq<char>
    decreases parts.len(),
{
    if parts.len() == 0 {
        Seq::empty()
    } else if parts.len() == 1 {
        parts[0]
    } else {
        joined(parts.drop_last(), sep) + sep + parts.last()
    }
}

/// Joins `parts` with `sep` between each two neighbours.
pub fn join(parts: &Vec<String>, sep: &str) -> (out: String)
    ensures
        out@ == joined(parts.deep_view(), sep@),
{
    let mut out = String::new();
    let mut i: usize = 0;
    while i < parts.len()
        invariant
            i <= parts.len(),
            out@ == joined(parts.deep_view().take(i as int), sep@),
        decreases parts.len() - i,
    {
        proof {
            let now = parts.deep_view().take(i + 1);
            assert(now.drop_last() =~= parts.deep_view().take(i as int));
            assert(now.last() == parts@[i as int]@);
        }
        if i > 0 {
            out.append(sep);
        }
        out.append(parts[i].as_str());
        proof {
            if i == 0 {
                assert(out@ =~= parts@[0]@);
            }
        }
        i += 1;
    }
    assert(parts.deep_view().take(parts@.len() as int) =~= parts.deep_view());
    out
}

/// Whether `c` is Unicode white space (the White_Space property).
pub open spec fn is_whitespace(c: char) -> bool {
    let u = c as u32;
    ||| 0x09 <= u <= 0x0D
    ||| u == 0x20
    ||| u == 0x85
    ||| u == 0xA0
    ||| u == 0x1680
    ||| 0x2000 <= u <= 0x200A
    ||| u == 0x2028
    ||| u == 0x2029
    ||| u == 0x202F
    ||| u == 0x205F
    ||| u == 0x3000
}

/// Tests `c` for Unicode white space.
pub fn char_is_whitespace(c: char) -> (white: bool)
    ensures
        white == is_whitespace(c),
{
    let u: u32 = c as u32;
    (0x09 <= u && u <= 0x0D) || u == 0x20 || u == 0x85 || u == 0xA0 || u == 0x1680 || (0x2000 <= u
        && u <= 0x200A) || u == 0x2028 || u == 0x2029 || u == 0x202F || u == 0x205F || u == 0x3000
}

/// Number of white-space characters at the start of `s`.
pub open spec fn leading_whitespace(s: Seq<char>) -> nat
    decreases s.len(),
{
    if s.len() > 0 && is_whitespace(s[0]) {
        1 + leading_whitespace(s.drop_first())
    } else {
        0
    }
}

/// Number of white-space characters at the end of `s`.
pub open spec fn trailing_whitespace(s: Seq<char>) -> nat
    decreases s.len(),
{
    if s.len() > 0 && is_whitespace(s.last()) {
        1 + trailing_whitespace(s.drop_last())
    } else {
        0
    }
}

/// `s` without the white space at its start and at its end.
pub open spec fn trimmed(s: Seq<char>) -> Seq<char> {
    let start = leading_whitespace(s) as int;
    let end = s.len() - trailing_whitespace(s);
    if start < end {
        s.subrange(start, end)
    } else {
        Seq::empty()
    }
}

/// `s` without the white space at its start and at its end.
pub fn trim(s: &str) -> (out: String)
    ensures
        out@ == trimmed(s@),
{
    let chars = chars_of(s);
    let n = chars.len();
    let mut start: usize = 0;
    assert(chars@.skip(0) =~= chars@);
    while start < n && char_is_whitespace(chars[start])
        invariant
            start <= n == chars.len(),
            leading_whitespace(chars@) == start + leading_whitespace(chars@.skip(start as int)),
        decreases n - start,
    {
        assert(chars@.skip(start as int).drop_first() =~= chars@.skip(start + 1));
        start += 1;
    }
    assert(leading_whitespace(chars@) == start) by {
        if start < n {
            assert(chars@.skip(start as int)[0] == chars@[start as int]);
        }
    }
    let mut end: usize = n;
    assert(chars@.take(n as int) =~= chars@);
    while end > 0 && char_is_whitespace(chars[end - 1])
        invariant
            end <= n == chars.len(),
            trailing_whitespace(chars@) == (n - end) + trailing_whitespace(chars@.take(end as int)),
        decreases end,
    {
        assert(chars@.take(end as int).drop_last() =~= chars@.take(end - 1));
        end -= 1;
    }
    assert(trailing_whitespace(chars@) == n - end) by {
        if end > 0 {
            assert(chars@.take(end as int).last() == chars@[end - 1]);
        }
    }
    if start < end {
        string_of_range(&chars, start, end)
    } else {
        String::new()
    }
}

/// Whether `a` comes before `b` when strings are ordered character by
/// character, by code point; a proper prefix comes before the longer string.
pub open spec fn lex_less(a: Seq<char>, b: Seq<char>) -> bool
    decreases a.len(),
{
    if b.len() == 0 {
        false
    } else if a.len() == 0 {
        true
    } else if a[0] != b[0] {
        (a[0] as u32) < (b[0] as u32)
    } else {
        lex_less(a.drop_first(), b.drop_first())
    }
}

/// No string comes before itself.
pub proof fn lemma_lex_irreflexive(a: Seq<char>)
    ensures
        !lex_less(a, a),
    decreases a.len(),
{
    if a.len() > 0 {
        lemma_lex_irreflexive(a.drop_first());
    }
}

/// Of two different strings, one comes before the other.
pub proof fn lemma_lex_total(a: Seq<char>, b: Seq<char>)
    ensures
        a == b || lex_less(a, b) || lex_less(b, a),
    decreases a.len(),
{
    if a.len() > 0 && b.len() > 0 && a[0] == b[0] {
        lemma_lex_total(a.drop_first(), b.drop_first());
        if a.drop_first() == b.drop_first() {
            assert(a =~= seq![a[0]] + a.drop_first());
            assert(b =~= seq![b[0]] + b.drop_first());
        }
    } else if a.len() == 0 && b.len() == 0 {
        assert(a =~= b);
    } else if a.len() > 0 && b.len() > 0 {
        vstd::utf8::char_u32_cast(a[0], a[0] as u32);
        vstd::utf8::char_u32_cast(b[0], b[0] as u32);
    }
}

/// The order is transitive.
pub proof fn lemma_lex_transitive(a: Seq<char>, b: Seq<char>, c: Seq<char>)
    requires
        lex_less(a, b),
        lex_less(b, c),
    ensures
        lex_less(a, c),
    decreases a.len(),
{
    if a.len() > 0 && a[0] == b[0] && b[0] == c[0] {
        lemma_lex_transitive(a.drop_first(), b.drop_first(), c.drop_first());
    }
}

/// Whether `a` comes before `b` in the order of `lex_less`.
pub fn str_less(a: &str, b: &str) -> (less: bool)
    ensures
        less == lex_less(a@, b@),
{
    let x = chars_of(a);
    let y = chars_of(b);
    let mut i: usize = 0;
    assert(x@.skip(0) =~= x@ && y@.skip(0) =~= y@);
    while i < x.len() && i < y.len() && x[i] == y[i]
        invariant
            i <= x.len(),
            i <= y.len(),
            lex_less(x@, y@) == lex_less(x@.skip(i as int), y@.skip(i as int)),
        decreases x.len() - i,
    {
        assert(x@.skip(i as int).drop_first() =~= x@.skip(i + 1));
        assert(y@.skip(i as int).drop_first() =~= y@.skip(i + 1));
        i += 1;
    }
    if i >= y.len() {
        false
    } else if i >= x.len() {
        true
    } else {
        (x[i] as u32) < (y[i] as u32)
    }
}

/// The code point of `c`, with the letters `a` to `z` taken as `A` to `Z`.
pub open spec fn ascii_fold(c: char) -> u32 {
    let code = c as u32;
    if 0x61 <= code <= 0x7A {
        (code - 0x20) as u32
    } else {
        code
    }
}

/// [`ascii_fold`] as a function value.
pub open spec fn ascii_folding() -> spec_fn(char) -> u32 {
    |c: char| ascii_fold(c)
}

/// The code points of `s`, with the letters `a` to `z` taken as `A` to `Z`.
pub open spec fn folded(s: Seq<char>) -> Seq<u32> {
    s.map_values(ascii_folding())
}

/// The code point of `c`, with the letters `a` to `z` taken as `A` to `Z`.
pub fn fold_char(c: char) -> (code: u32)
    ensures
        code == ascii_fold(c),
{
    let code: u32 = c as u32;
    if 0x61 <= code && code <= 0x7A {
        code - 0x20
    } else {
        code
    }
}

/// Whether `a` and `b` are the same but for the case of ASCII letters.
pub fn eq_ignore_ascii_case(a: &str, b: &str) -> (same: bool)
    ensures
        same == (folded(a@) == folded(b@)),
{
    let x = chars_of(a);
    let y = chars_of(b);
    if x.len() != y.len() {
        assert(folded(a@).len() != folded(b@).len());
        return false;
    }
    let mut i: usize = 0;
    while i < x.len()
        invariant
            i <= x.len(),
            x.len() == y.len(),
            x@ == a@,
            y@ == b@,
            forall|k: int| 0 <= k < i ==> ascii_fold(x@[k]) == ascii_fold(y@[k]),
        decreases x.len() - i,
    {
        if fold_char(x[i]) != fold_char(y[i]) {
            assert(folded(a@)[i as int] != folded(b@)[i as int]);
            return false;
        }
        i += 1;
    }
    assert(folded(a@) =~= folded(b@));
    true
}

} // verus!
