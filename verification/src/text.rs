//! Verified helpers on character sequences: conversion between strings and
//! character vectors, decimal notation, searching, splitting at a separator
//! and trimming of whitespace.
//!
//! The functions that read a text take its characters as a vector and the
//! bounds of the part they are to read, so that a part is read in place.

use vstd::prelude::*;

verus! {

/// `String::push` appends one character at the end and changes nothing else.
pub assume_specification[ String::push ](s: &mut String, ch: char)
    ensures
        final(s)@ == old(s)@.push(ch),
;

/// The characters of `s`, in order.
pub fn chars_of(s: &str) -> (out: Vec<char>)
    ensures
        out@ == s@,
{
    let mut out: Vec<char> = Vec::new();
    let chars = s.chars();
    for c in it: chars
        invariant
            it.seq() == s@,
            out@ == s@.take(it.index()),
    {
        out.push(c);
    }
    out
}

/// Appends `chars[lo..hi]` to `out`.
pub fn push_range(out: &mut String, chars: &Vec<char>, lo: usize, hi: usize)
    requires
        lo <= hi <= chars.len(),
    ensures
        final(out)@ == old(out)@ + chars@.subrange(lo as int, hi as int),
{
    let mut i: usize = lo;
    while i < hi
        invariant
            lo <= i <= hi <= chars.len(),
            out@ == old(out)@ + chars@.subrange(lo as int, i as int),
        decreases hi - i,
    {
        out.push(chars[i]);
        i += 1;
    }
}

/// The text made of `chars[lo..hi]`.
pub fn string_of(chars: &Vec<char>, lo: usize, hi: usize) -> (out: String)
    requires
        lo <= hi <= chars.len(),
    ensures
        out@ == chars@.subrange(lo as int, hi as int),
{
    let mut out = String::new();
    push_range(&mut out, chars, lo, hi);
    out
}

/// The character that stands for a decimal digit; `'0'` for anything above nine.
pub open spec fn digit_char(d: nat) -> char {
    if d == 1 {
        '1'
    } else if d == 2 {
        '2'
    } else if d == 3 {
        '3'
    } else if d == 4 {
        '4'
    } else if d == 5 {
        '5'
    } else if d == 6 {
        '6'
    } else if d == 7 {
        '7'
    } else if d == 8 {
        '8'
    } else if d == 9 {
        '9'
    } else {
        '0'
    }
}

/// Decimal notation of `n`, without sign or padding: `0` is `"0"`, `1203` is `"1203"`.
pub open spec fn decimal_text(n: nat) -> Seq<char>
    decreases n,
{
    if n < 10 {
        seq![digit_char(n)]
    } else {
        decimal_text(n / 10).push(digit_char(n % 10))
    }
}

fn digit_of(d: usize) -> (c: char)
    requires
        d < 10,
    ensures
        c == digit_char(d as nat),
{
    if d == 1 {
        '1'
    } else if d == 2 {
        '2'
    } else if d == 3 {
        '3'
    } else if d == 4 {
        '4'
    } else if d == 5 {
        '5'
    } else if d == 6 {
        '6'
    } else if d == 7 {
        '7'
    } else if d == 8 {
        '8'
    } else if d == 9 {
        '9'
    } else {
        '0'
    }
}

/// Appends the decimal notation of `n` to `out`.
pub fn push_decimal(out: &mut String, n: usize)
    ensures
        final(out)@ == old(out)@ + decimal_text(n as nat),
    decreases n,
{
    if n >= 10 {
        push_decimal(out, n / 10);
    }
    out.push(digit_of(n % 10));
}

/// The decimal notation of `n`.
pub fn decimal(n: usize) -> (out: String)
    ensures
        out@ == decimal_text(n as nat),
{
    let mut out = String::new();
    push_decimal(&mut out, n);
    out
}

/// The index of the first `c` in `s`, or the length of `s` where it holds none.
pub open spec fn first_index_of(s: Seq<char>, c: char) -> int
    decreases s.len(),
{
    if s.len() == 0 || s[0] == c {
        0
    } else {
        1 + first_index_of(s.skip(1), c)
    }
}

/// The index of the last `c` in `s`, or `-1` where it holds none.
pub open spec fn last_index_of(s: Seq<char>, c: char) -> int
    decreases s.len(),
{
    if s.len() == 0 {
        -1
    } else if s.last() == c {
        s.len() - 1
    } else {
        last_index_of(s.drop_last(), c)
    }
}

/// Whether `c` stands at index `k` of `s` and again right after it.
pub open spec fn double_at(s: Seq<char>, c: char, k: int) -> bool {
    0 <= k && k + 1 < s.len() && s[k] == c && s[k + 1] == c
}

/// The index at which `c` first stands twice in a row in `s`, or the length
/// of `s` where it never does.
pub open spec fn first_double(s: Seq<char>, c: char) -> int
    decreases s.len(),
{
    if s.len() < 2 {
        s.len() as int
    } else if double_at(s, c, 0) {
        0
    } else {
        1 + first_double(s.skip(1), c)
    }
}

/// `first_index_of` finds the place before which `c` does not occur and at
/// which, unless it is the end, it does.
pub proof fn lemma_first_index_of(s: Seq<char>, c: char, k: int)
    requires
        0 <= k <= s.len(),
        forall|j: int| 0 <= j < k ==> s[j] != c,
        k < s.len() ==> s[k] == c,
    ensures
        first_index_of(s, c) == k,
    decreases k,
{
    if k > 0 {
        lemma_first_index_of(s.skip(1), c, k - 1);
    }
}

/// `first_index_of` lies within the text or at its end, with no `c` before it.
pub proof fn lemma_first_index_of_bounds(s: Seq<char>, c: char)
    ensures
        0 <= first_index_of(s, c) <= s.len(),
        forall|j: int| 0 <= j < first_index_of(s, c) ==> s[j] != c,
        first_index_of(s, c) < s.len() ==> s[first_index_of(s, c)] == c,
    decreases s.len(),
{
    if s.len() > 0 && s[0] != c {
        lemma_first_index_of_bounds(s.skip(1), c);
        assert forall|j: int| 0 <= j < first_index_of(s, c) implies s[j] != c by {
            if j > 0 {
                assert(s.skip(1)[j - 1] == s[j]);
            }
        }
    }
}

/// `last_index_of` finds the place after which `c` does not occur and at
/// which, unless it is `-1`, it does.
pub proof fn lemma_last_index_of(s: Seq<char>, c: char, k: int)
    requires
        -1 <= k < s.len(),
        forall|j: int| k < j < s.len() ==> s[j] != c,
        0 <= k ==> s[k] == c,
    ensures
        last_index_of(s, c) == k,
    decreases s.len() - k,
{
    if s.len() > 0 && k < s.len() - 1 {
        lemma_last_index_of(s.drop_last(), c, k);
    }
}

/// `last_index_of` is no less than any index at which `c` stands.
pub proof fn lemma_last_index_of_bounds(s: Seq<char>, c: char, j: int)
    requires
        0 <= j < s.len(),
        s[j] == c,
    ensures
        j <= last_index_of(s, c) < s.len(),
    decreases s.len(),
{
    if s.last() != c {
        lemma_last_index_of_bounds(s.drop_last(), c, j);
    }
}

/// `first_double` finds the place before which `c` never stands twice in a
/// row and at which, unless it is the end, it does.
pub proof fn lemma_first_double(s: Seq<char>, c: char, k: int)
    requires
        0 <= k <= s.len(),
        forall|j: int| 0 <= j < k ==> !#[trigger] double_at(s, c, j),
        k < s.len() ==> double_at(s, c, k),
    ensures
        first_double(s, c) == k,
    decreases k,
{
    if k > 0 {
        assert(!double_at(s, c, 0));
        if s.len() >= 2 {
            let rest = s.skip(1);
            assert forall|j: int| 0 <= j < k - 1 implies !#[trigger] double_at(rest, c, j) by {
                assert(!double_at(s, c, j + 1));
            }
            lemma_first_double(rest, c, k - 1);
        }
    }
}

/// `first_double` lies within the text or at its end, with no `c` twice in
/// a row before it.
pub proof fn lemma_first_double_bounds(s: Seq<char>, c: char)
    ensures
        0 <= first_double(s, c) <= s.len(),
        forall|j: int| 0 <= j < first_double(s, c) ==> !#[trigger] double_at(s, c, j),
    decreases s.len(),
{
    if s.len() >= 2 && !double_at(s, c, 0) {
        let rest = s.skip(1);
        lemma_first_double_bounds(rest, c);
        assert forall|j: int| 0 <= j < first_double(s, c) implies !#[trigger] double_at(
            s,
            c,
            j,
        ) by {
            if j > 0 {
                assert(!double_at(rest, c, j - 1));
            }
        }
    } else if s.len() < 2 {
        assert forall|j: int| 0 <= j < first_double(s, c) implies !#[trigger] double_at(
            s,
            c,
            j,
        ) by {}
    }
}

/// Where `first_double` lies within the text, `c` stands twice in a row at it.
pub proof fn lemma_first_double_at(s: Seq<char>, c: char)
    ensures
        first_double(s, c) < s.len() ==> double_at(s, c, first_double(s, c)),
    decreases s.len(),
{
    if s.len() >= 2 && !double_at(s, c, 0) {
        let rest = s.skip(1);
        lemma_first_double_at(rest, c);
        lemma_first_double_bounds(rest, c);
        let k = first_double(rest, c);
        if k < rest.len() {
            assert(rest[k] == s[k + 1]);
            assert(rest[k + 1] == s[k + 2]);
        }
    }
}

/// The place of the first `c` in `chars[lo..hi]`, or `hi` where there is none.
pub fn find_first(chars: &Vec<char>, lo: usize, hi: usize, c: char) -> (k: usize)
    requires
        lo <= hi <= chars.len(),
    ensures
        lo <= k <= hi,
        k - lo == first_index_of(chars@.subrange(lo as int, hi as int), c),
{
    let ghost run = chars@.subrange(lo as int, hi as int);
    let mut i: usize = lo;
    while i < hi
        invariant
            lo <= i <= hi <= chars.len(),
            run == chars@.subrange(lo as int, hi as int),
            forall|j: int| 0 <= j < i - lo ==> run[j] != c,
        decreases hi - i,
    {
        if chars[i] == c {
            proof {
                lemma_first_index_of(run, c, i - lo);
            }
            return i;
        }
        i += 1;
    }
    proof {
        lemma_first_index_of(run, c, hi - lo);
    }
    hi
}

/// The place of the last `c` in `chars[lo..hi]`, or `hi` where there is none.
pub fn find_last(chars: &Vec<char>, lo: usize, hi: usize, c: char) -> (k: usize)
    requires
        lo <= hi <= chars.len(),
    ensures
        lo <= k <= hi,
        k < hi <==> chars@.subrange(lo as int, hi as int).contains(c),
        k < hi ==> k - lo == last_index_of(chars@.subrange(lo as int, hi as int), c),
{
    let ghost run = chars@.subrange(lo as int, hi as int);
    let mut i: usize = hi;
    while i > lo
        invariant
            lo <= i <= hi <= chars.len(),
            run == chars@.subrange(lo as int, hi as int),
            forall|j: int| i - lo <= j < run.len() ==> run[j] != c,
        decreases i - lo,
    {
        i -= 1;
        if chars[i] == c {
            proof {
                lemma_last_index_of(run, c, i - lo);
                assert(run[i - lo] == c);
            }
            return i;
        }
    }
    hi
}

/// The place at which `c` first stands twice in a row in `chars[lo..hi]`, or
/// `hi` where it never does.
pub fn find_double(chars: &Vec<char>, lo: usize, hi: usize, c: char) -> (k: usize)
    requires
        lo <= hi <= chars.len(),
    ensures
        lo <= k <= hi,
        k - lo == first_double(chars@.subrange(lo as int, hi as int), c),
        k < hi ==> k + 2 <= hi,
{
    let ghost run = chars@.subrange(lo as int, hi as int);
    let mut i: usize = lo;
    while i < hi
        invariant
            lo <= i <= hi <= chars.len(),
            run == chars@.subrange(lo as int, hi as int),
            forall|j: int| 0 <= j < i - lo ==> !#[trigger] double_at(run, c, j),
        decreases hi - i,
    {
        if i + 1 < hi && chars[i] == c && chars[i + 1] == c {
            proof {
                assert(double_at(run, c, i - lo));
                lemma_first_double(run, c, i - lo);
            }
            return i;
        }
        assert(!double_at(run, c, i - lo));
        i += 1;
    }
    proof {
        lemma_first_double(run, c, hi - lo);
    }
    hi
}

/// The pieces of `s` between its separators, in order: one more than there are
/// separators, each free of the separator, empty ones included. A text
/// without separator is its own single piece.
pub open spec fn fields(s: Seq<char>, sep: char) -> Seq<Seq<char>>
    decreases s.len(),
{
    let k = first_index_of(s, sep);
    if 0 <= k < s.len() {
        seq![s.take(k)] + fields(s.skip(k + 1), sep)
    } else {
        seq![s]
    }
}

/// A text without separator is a single field.
pub proof fn lemma_fields_single(s: Seq<char>, sep: char)
    requires
        forall|j: int| 0 <= j < s.len() ==> s[j] != sep,
    ensures
        fields(s, sep) == seq![s],
{
    lemma_first_index_of(s, sep, s.len() as int);
}

/// At its first separator a text parts into its first field and the fields
/// of what follows the separator.
pub proof fn lemma_fields_step(s: Seq<char>, sep: char, k: int)
    requires
        0 <= k < s.len(),
        forall|j: int| 0 <= j < k ==> s[j] != sep,
        s[k] == sep,
    ensures
        fields(s, sep) == seq![s.take(k)] + fields(s.skip(k + 1), sep),
{
    lemma_first_index_of(s, sep, k);
}

/// The first field of a text that does not start with the separator is not
/// empty and starts as the text does.
pub proof fn lemma_first_field_start(s: Seq<char>, sep: char)
    requires
        s.len() > 0,
        s[0] != sep,
    ensures
        fields(s, sep).len() >= 1,
        fields(s, sep)[0].len() > 0,
        fields(s, sep)[0][0] == s[0],
{
    lemma_first_index_of_bounds(s, sep);
}

/// Every character of a text that is no separator stands in one of its
/// fields: the result names the field and the place in it.
pub proof fn lemma_field_of(s: Seq<char>, sep: char, i: int) -> (at: (int, int))
    requires
        0 <= i < s.len(),
        s[i] != sep,
    ensures
        0 <= at.0 < fields(s, sep).len(),
        0 <= at.1 < fields(s, sep)[at.0].len(),
        fields(s, sep)[at.0][at.1] == s[i],
    decreases s.len(),
{
    let k = first_index_of(s, sep);
    lemma_first_index_of_bounds(s, sep);
    if k < s.len() && i > k {
        let rest = s.skip(k + 1);
        let inner = lemma_field_of(rest, sep, i - k - 1);
        assert(fields(s, sep)[inner.0 + 1] == fields(rest, sep)[inner.0]);
        (inner.0 + 1, inner.1)
    } else {
        (0, i)
    }
}

/// Whether `cuts` are the bounds of adjoining pieces that cover
/// `lo..hi` but for one place between each two neighbours.
pub open spec fn cuts_cover(cuts: Seq<(usize, usize)>, lo: int, hi: int) -> bool {
    &&& cuts.len() >= 1
    &&& cuts.first().0 == lo
    &&& cuts.last().1 == hi
    &&& forall|j: int| 0 <= j < cuts.len() ==> (#[trigger] cuts[j]).0 <= cuts[j].1
    &&& forall|j: int| 0 <= j < cuts.len() - 1 ==> (#[trigger] cuts[j]).1 + 1 == cuts[j + 1].0
}

/// Splits `chars[lo..hi]` at every `sep`: the bounds of each field, in
/// order. The fields adjoin, with one separator between each two.
pub fn split(chars: &Vec<char>, lo: usize, hi: usize, sep: char) -> (cuts: Vec<(usize, usize)>)
    requires
        lo <= hi <= chars.len(),
    ensures
        cuts.len() == fields(chars@.subrange(lo as int, hi as int), sep).len(),
        cuts_cover(cuts@, lo as int, hi as int),
        forall|j: int|
            0 <= j < cuts.len() ==> {
                &&& lo <= (#[trigger] cuts[j]).0 <= cuts[j].1 <= hi
                &&& chars@.subrange(cuts[j].0 as int, cuts[j].1 as int) == fields(
                    chars@.subrange(lo as int, hi as int),
                    sep,
                )[j]
            },
{
    let ghost whole = chars@.subrange(lo as int, hi as int);
    let ghost mut done: Seq<Seq<char>> = Seq::empty();
    let mut cuts: Vec<(usize, usize)> = Vec::new();
    let mut start: usize = lo;
    let mut i: usize = lo;
    while i < hi
        invariant
            lo <= start <= i <= hi <= chars.len(),
            whole == chars@.subrange(lo as int, hi as int),
            forall|j: int| start <= j < i ==> chars@[j] != sep,
            fields(whole, sep) == done + fields(chars@.subrange(start as int, hi as int), sep),
            cuts.len() == done.len(),
            forall|j: int|
                0 <= j < cuts.len() ==> {
                    &&& lo <= (#[trigger] cuts[j]).0 <= cuts[j].1 <= hi
                    &&& chars@.subrange(cuts[j].0 as int, cuts[j].1 as int) == done[j]
                },
            cuts.len() == 0 ==> start == lo,
            cuts.len() > 0 ==> cuts@.first().0 == lo && cuts@.last().1 + 1 == start,
            forall|j: int| 0 <= j < cuts.len() - 1 ==> (#[trigger] cuts[j]).1 + 1 == cuts[j + 1].0,
        decreases hi - i,
    {
        if chars[i] == sep {
            proof {
                let rest = chars@.subrange(start as int, hi as int);
                lemma_fields_step(rest, sep, i - start);
                assert(rest.take(i - start) =~= chars@.subrange(start as int, i as int));
                assert(rest.skip(i - start + 1) =~= chars@.subrange(i + 1, hi as int));
                assert(done + (seq![rest.take(i - start)] + fields(rest.skip(i - start + 1), sep))
                    =~= done.push(chars@.subrange(start as int, i as int)) + fields(
                    chars@.subrange(i + 1, hi as int),
                    sep,
                ));
                done = done.push(chars@.subrange(start as int, i as int));
            }
            cuts.push((start, i));
            start = i + 1;
        }
        i += 1;
    }
    proof {
        let rest = chars@.subrange(start as int, hi as int);
        lemma_fields_single(rest, sep);
        assert(done + seq![rest] =~= done.push(rest));
        done = done.push(rest);
    }
    cuts.push((start, hi));
    cuts
}

/// The characters that trimming removes: those with the Unicode property
/// `White_Space`.
pub open spec fn is_whitespace(c: char) -> bool {
    ||| c == ' '
    ||| '\t' <= c <= '\r'
    ||| c == '\u{85}'
    ||| c == '\u{a0}'
    ||| c == '\u{1680}'
    ||| '\u{2000}' <= c <= '\u{200a}'
    ||| c == '\u{2028}'
    ||| c == '\u{2029}'
    ||| c == '\u{202f}'
    ||| c == '\u{205f}'
    ||| c == '\u{3000}'
}

/// `s` without the whitespace at its start.
pub open spec fn trim_start(s: Seq<char>) -> Seq<char>
    decreases s.len(),
{
    if s.len() > 0 && is_whitespace(s.first()) {
        trim_start(s.skip(1))
    } else {
        s
    }
}

/// `s` without the whitespace at its end.
pub open spec fn trim_end(s: Seq<char>) -> Seq<char>
    decreases s.len(),
{
    if s.len() > 0 && is_whitespace(s.last()) {
        trim_end(s.drop_last())
    } else {
        s
    }
}

/// `s` without the whitespace at its start and at its end.
pub open spec fn trimmed(s: Seq<char>) -> Seq<char> {
    trim_end(trim_start(s))
}

fn is_whitespace_char(c: char) -> (b: bool)
    ensures
        b == is_whitespace(c),
{
    let low = c == ' ' || ('\t' <= c && c <= '\r') || c == '\u{85}' || c == '\u{a0}';
    let spaces = c == '\u{1680}' || ('\u{2000}' <= c && c <= '\u{200a}');
    let breaks = c == '\u{2028}' || c == '\u{2029}';
    low || spaces || breaks || c == '\u{202f}' || c == '\u{205f}' || c == '\u{3000}'
}

/// Trimming at the start removes a run of whitespace that ends before a
/// character that is none, or at the end.
proof fn lemma_trim_start(s: Seq<char>, n: int)
    requires
        0 <= n <= s.len(),
        forall|j: int| 0 <= j < n ==> is_whitespace(#[trigger] s[j]),
        n < s.len() ==> !is_whitespace(s[n]),
    ensures
        trim_start(s) == s.skip(n),
    decreases n,
{
    if n > 0 {
        let rest = s.skip(1);
        assert forall|j: int| 0 <= j < n - 1 implies is_whitespace(#[trigger] rest[j]) by {
            assert(rest[j] == s[j + 1]);
        }
        lemma_trim_start(rest, n - 1);
        assert(rest.skip(n - 1) =~= s.skip(n));
    } else {
        assert(s.skip(0) =~= s);
    }
}

/// Trimming at the end removes a run of whitespace that starts after a
/// character that is none, or at the start.
proof fn lemma_trim_end(s: Seq<char>, n: int)
    requires
        0 <= n <= s.len(),
        forall|j: int| n <= j < s.len() ==> is_whitespace(#[trigger] s[j]),
        n > 0 ==> !is_whitespace(s[n - 1]),
    ensures
        trim_end(s) == s.take(n),
    decreases s.len() - n,
{
    if n < s.len() {
        let rest = s.drop_last();
        lemma_trim_end(rest, n);
        assert(rest.take(n) =~= s.take(n));
    } else {
        assert(s.take(n) =~= s);
    }
}

/// The bounds of `chars[lo..hi]` without the whitespace at its two ends:
/// they start where the whitespace at the start ends.
pub fn trim_bounds(chars: &Vec<char>, lo: usize, hi: usize) -> (cut: (usize, usize))
    requires
        lo <= hi <= chars.len(),
    ensures
        lo <= cut.0 <= cut.1 <= hi,
        chars@.subrange(cut.0 as int, cut.1 as int) == trimmed(
            chars@.subrange(lo as int, hi as int),
        ),
        hi - cut.0 == trim_start(chars@.subrange(lo as int, hi as int)).len(),
{
    let ghost run = chars@.subrange(lo as int, hi as int);
    let mut from: usize = lo;
    while from < hi && is_whitespace_char(chars[from])
        invariant
            lo <= from <= hi <= chars.len(),
            run == chars@.subrange(lo as int, hi as int),
            forall|j: int| 0 <= j < from - lo ==> is_whitespace(#[trigger] run[j]),
        decreases hi - from,
    {
        from += 1;
    }
    let ghost rest = chars@.subrange(from as int, hi as int);
    proof {
        lemma_trim_start(run, from - lo);
        assert(run.skip(from - lo) =~= rest);
    }
    let mut to: usize = hi;
    while to > from && is_whitespace_char(chars[to - 1])
        invariant
            from <= to <= hi <= chars.len(),
            rest == chars@.subrange(from as int, hi as int),
            forall|j: int| to - from <= j < rest.len() ==> is_whitespace(#[trigger] rest[j]),
        decreases to - from,
    {
        to -= 1;
    }
    proof {
        lemma_trim_end(rest, to - from);
        assert(rest.take(to - from) =~= chars@.subrange(from as int, to as int));
    }
    (from, to)
}

} // verus!
