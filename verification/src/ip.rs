//! The textual forms of IPv4 and IPv6 addresses and of a port number, as
//! predicates on character sequences, with verified recognizers for them.
//!
//! An IPv4 literal is four decimal fields joined by dots; each has one to
//! three digits, no leading zero unless it is the single digit zero, and a
//! value of at most 255. An IPv6 literal is eight groups of one to four
//! hexadecimal digits joined by colons, where the last two groups may be
//! written as an IPv4 literal and one run of zero groups may be left out and
//! marked by a double colon. A port is a decimal number of at most 65535, with
//! leading zeros and a leading plus sign allowed.

use crate::text::{
    double_at, fields, find_double, first_double, lemma_field_of, lemma_fields_single,
    lemma_first_double_at, lemma_first_double_bounds, lemma_first_field_start, split,
};
use vstd::prelude::*;

verus! {

pub open spec fn is_dec_digit(c: char) -> bool {
    '0' <= c <= '9'
}

pub open spec fn is_hex_digit(c: char) -> bool {
    is_dec_digit(c) || ('a' <= c <= 'f') || ('A' <= c <= 'F')
}

/// The value of a decimal digit.
pub open spec fn digit_value(c: char) -> nat {
    (c as nat - '0' as nat) as nat
}

pub open spec fn all_dec_digits(s: Seq<char>) -> bool {
    forall|i: int| 0 <= i < s.len() ==> is_dec_digit(#[trigger] s[i])
}

pub open spec fn all_hex_digits(s: Seq<char>) -> bool {
    forall|i: int| 0 <= i < s.len() ==> is_hex_digit(#[trigger] s[i])
}

/// The number that a run of decimal digits denotes; zero for the empty run.
pub open spec fn dec_value(s: Seq<char>) -> nat
    decreases s.len(),
{
    if s.len() == 0 {
        0
    } else {
        dec_value(s.drop_last()) * 10 + digit_value(s.last())
    }
}

/// One field of an IPv4 literal.
pub open spec fn is_dec_octet(s: Seq<char>) -> bool {
    &&& 1 <= s.len() <= 3
    &&& all_dec_digits(s)
    &&& (s.len() > 1 ==> s[0] != '0')
    &&& dec_value(s) <= 255
}

/// Whether `s` is an IPv4 address in dotted decimal notation.
pub open spec fn is_ipv4_literal(s: Seq<char>) -> bool {
    let parts = fields(s, '.');
    &&& parts.len() == 4
    &&& forall|i: int| 0 <= i < 4 ==> is_dec_octet(#[trigger] parts[i])
}

/// One 16-bit group of an IPv6 literal.
pub open spec fn is_hex_group(s: Seq<char>) -> bool {
    1 <= s.len() <= 4 && all_hex_digits(s)
}

/// The number of 16-bit groups that a colon-separated run stands for, if it
/// is well formed: each field is a hexadecimal group, but that the last
/// field may be an IPv4 literal, which stands for two groups, where
/// `v4_tail` allows it. The empty run stands for no group.
pub open spec fn group_count(s: Seq<char>, v4_tail: bool) -> Option<nat> {
    let parts = fields(s, ':');
    if s.len() == 0 {
        Some(0nat)
    } else if !(forall|i: int| 0 <= i < parts.len() - 1 ==> is_hex_group(#[trigger] parts[i])) {
        None
    } else if is_hex_group(parts.last()) {
        Some(parts.len())
    } else if v4_tail && is_ipv4_literal(parts.last()) {
        Some(parts.len() + 1)
    } else {
        None
    }
}

/// Whether `s` is an IPv6 address in its textual form. Without a double
/// colon the text must stand for exactly eight groups. With one, the first
/// of them parts the text into a head without IPv4 notation and a tail,
/// which together stand for at most seven groups.
pub open spec fn is_ipv6_literal(s: Seq<char>) -> bool {
    let k = first_double(s, ':');
    if k < s.len() {
        match (group_count(s.take(k), false), group_count(s.skip(k + 2), true)) {
            (Some(head), Some(tail)) => head + tail <= 7,
            _ => false,
        }
    } else {
        group_count(s, true) == Some(8nat)
    }
}

/// Whether `s` denotes an unsigned 16-bit number: decimal digits, at least
/// one, after an optional plus sign, with a value of at most 65535.
pub open spec fn is_u16_text(s: Seq<char>) -> bool {
    let digits = if s.len() > 0 && s[0] == '+' {
        s.skip(1)
    } else {
        s
    };
    &&& digits.len() >= 1
    &&& all_dec_digits(digits)
    &&& dec_value(digits) <= 65535
}

/// Appending a digit multiplies the value by ten and adds the digit.
proof fn lemma_dec_value_push(s: Seq<char>, c: char)
    ensures
        dec_value(s.push(c)) == dec_value(s) * 10 + digit_value(c),
{
    assert(s.push(c).drop_last() =~= s);
}

/// A run of digits denotes at least what any of its prefixes denotes.
proof fn lemma_dec_value_prefix(s: Seq<char>, n: int)
    requires
        0 <= n <= s.len(),
    ensures
        dec_value(s.take(n)) <= dec_value(s),
    decreases s.len() - n,
{
    if n < s.len() {
        lemma_dec_value_prefix(s.drop_last(), n);
        assert(s.drop_last().take(n) =~= s.take(n));
    } else {
        assert(s.take(n) =~= s);
    }
}

/// No IPv4 literal starts with a character that is no decimal digit.
pub proof fn lemma_ipv4_starts_with_digit(s: Seq<char>)
    requires
        is_ipv4_literal(s),
    ensures
        s.len() > 0,
        is_dec_digit(s[0]),
{
    let parts = fields(s, '.');
    assert(is_dec_octet(parts[0]));
    if s.len() == 0 {
        assert(parts =~= seq![s]);
    } else if s[0] == '.' {
        assert(parts[0] =~= s.take(0));
    } else {
        lemma_first_field_start(s, '.');
    }
}

/// An IPv4 literal holds decimal digits and dots only.
pub proof fn lemma_ipv4_alphabet(s: Seq<char>)
    requires
        is_ipv4_literal(s),
    ensures
        forall|i: int| 0 <= i < s.len() ==> is_dec_digit(#[trigger] s[i]) || s[i] == '.',
{
    let parts = fields(s, '.');
    assert forall|i: int| 0 <= i < s.len() implies is_dec_digit(#[trigger] s[i]) || s[i] == '.' by {
        if s[i] != '.' {
            let at = lemma_field_of(s, '.', i);
            assert(is_dec_octet(parts[at.0]));
            assert(is_dec_digit(parts[at.0][at.1]));
        }
    }
}

/// An IPv6 literal holds a colon.
pub proof fn lemma_ipv6_has_colon(s: Seq<char>)
    requires
        is_ipv6_literal(s),
    ensures
        s.contains(':'),
{
    lemma_first_double_bounds(s, ':');
    lemma_first_double_at(s, ':');
    let k = first_double(s, ':');
    if k < s.len() {
        assert(double_at(s, ':', k));
        assert(s[k] == ':');
    } else if !s.contains(':') {
        assert forall|j: int| 0 <= j < s.len() implies s[j] != ':' by {
            if s[j] == ':' {
                assert(s.contains(':'));
            }
        }
        lemma_fields_single(s, ':');
    }
}

/// The text of an unsigned 16-bit number holds no colon.
pub proof fn lemma_u16_text_has_no_colon(s: Seq<char>)
    requires
        is_u16_text(s),
    ensures
        !s.contains(':'),
{
    if s.contains(':') {
        let i = choose|i: int| 0 <= i < s.len() && s[i] == ':';
        if s[0] == '+' {
            assert(s.skip(1)[i - 1] == s[i]);
            assert(is_dec_digit(s.skip(1)[i - 1]));
        } else {
            assert(is_dec_digit(s[i]));
        }
    }
}

/// No IPv6 literal starts with a character that is neither a hexadecimal
/// digit nor a colon.
pub proof fn lemma_ipv6_starts_with_hex_or_colon(s: Seq<char>)
    requires
        is_ipv6_literal(s),
    ensures
        s.len() > 0,
        is_hex_digit(s[0]) || s[0] == ':',
{
    let k = first_double(s, ':');
    lemma_first_double_bounds(s, ':');
    if s.len() > 0 && s[0] != ':' {
        if k < s.len() {
            assert(k > 0) by {
                assert(!double_at(s, ':', 0));
                lemma_first_double_bounds(s.skip(1), ':');
            }
            let head = s.take(k);
            lemma_group_run_starts_with_hex(head, false);
        } else {
            lemma_group_run_starts_with_hex(s, true);
        }
    }
}

/// A run that stands for groups and does not start with a colon starts with
/// a hexadecimal digit.
proof fn lemma_group_run_starts_with_hex(s: Seq<char>, v4_tail: bool)
    requires
        s.len() > 0,
        s[0] != ':',
        group_count(s, v4_tail) is Some,
    ensures
        is_hex_digit(s[0]),
{
    let parts = fields(s, ':');
    lemma_first_field_start(s, ':');
    if parts.len() > 1 {
        assert(is_hex_group(parts[0]));
        assert(is_hex_digit(parts[0][0]));
    } else {
        assert(parts.last() == parts[0]);
        if is_hex_group(parts[0]) {
            assert(is_hex_digit(parts[0][0]));
        } else {
            lemma_ipv4_starts_with_digit(parts[0]);
        }
    }
}

fn is_dec_digit_char(c: char) -> (b: bool)
    ensures
        b == is_dec_digit(c),
{
    '0' <= c && c <= '9'
}

fn is_hex_digit_char(c: char) -> (b: bool)
    ensures
        b == is_hex_digit(c),
{
    ('0' <= c && c <= '9') || ('a' <= c && c <= 'f') || ('A' <= c && c <= 'F')
}

fn digit_value_of(c: char) -> (v: u32)
    requires
        is_dec_digit(c),
    ensures
        v == digit_value(c),
        v <= 9,
{
    c as u32 - '0' as u32
}

/// Whether `chars[lo..hi]` is a run of decimal digits whose value is at most
/// `limit`.
fn is_number_up_to(chars: &Vec<char>, lo: usize, hi: usize, limit: u32) -> (b: bool)
    requires
        lo <= hi <= chars.len(),
        limit <= 100_000,
    ensures
        b == (all_dec_digits(chars@.subrange(lo as int, hi as int)) && dec_value(
            chars@.subrange(lo as int, hi as int),
        ) <= limit),
{
    let ghost run = chars@.subrange(lo as int, hi as int);
    let mut value: u32 = 0;
    let mut i: usize = lo;
    while i < hi
        invariant
            lo <= i <= hi <= chars.len(),
            limit <= 100_000,
            run == chars@.subrange(lo as int, hi as int),
            all_dec_digits(run.take(i - lo)),
            value == dec_value(run.take(i - lo)),
            value <= limit,
        decreases hi - i,
    {
        let c = chars[i];
        if !is_dec_digit_char(c) {
            assert(!is_dec_digit(run[i - lo]));
            return false;
        }
        proof {
            assert(run.take(i - lo + 1) =~= run.take(i - lo).push(c));
            lemma_dec_value_push(run.take(i - lo), c);
        }
        value = value * 10 + digit_value_of(c);
        if value > limit {
            proof {
                lemma_dec_value_prefix(run, i - lo + 1);
            }
            return false;
        }
        i += 1;
    }
    assert(run.take(hi - lo) =~= run);
    true
}

/// Whether `chars[lo..hi]` is one field of an IPv4 literal.
fn is_octet(chars: &Vec<char>, lo: usize, hi: usize) -> (b: bool)
    requires
        lo <= hi <= chars.len(),
    ensures
        b == is_dec_octet(chars@.subrange(lo as int, hi as int)),
{
    let len = hi - lo;
    if len < 1 || len > 3 {
        return false;
    }
    if len > 1 && chars[lo] == '0' {
        return false;
    }
    is_number_up_to(chars, lo, hi, 255)
}

/// Whether `chars[lo..hi]` is an IPv4 address in dotted decimal notation.
pub fn is_ipv4(chars: &Vec<char>, lo: usize, hi: usize) -> (b: bool)
    requires
        lo <= hi <= chars.len(),
    ensures
        b == is_ipv4_literal(chars@.subrange(lo as int, hi as int)),
{
    let cuts = split(chars, lo, hi, '.');
    if cuts.len() != 4 {
        return false;
    }
    let ghost parts = fields(chars@.subrange(lo as int, hi as int), '.');
    let mut j: usize = 0;
    while j < 4
        invariant
            0 <= j <= 4,
            cuts.len() == 4,
            parts == fields(chars@.subrange(lo as int, hi as int), '.'),
            parts.len() == 4,
            forall|k: int|
                0 <= k < 4 ==> {
                    &&& lo <= (#[trigger] cuts[k]).0 <= cuts[k].1 <= hi <= chars.len()
                    &&& chars@.subrange(cuts[k].0 as int, cuts[k].1 as int) == parts[k]
                },
            forall|k: int| 0 <= k < j ==> is_dec_octet(#[trigger] parts[k]),
        decreases 4 - j,
    {
        let cut = cuts[j];
        if !is_octet(chars, cut.0, cut.1) {
            assert(!is_dec_octet(parts[j as int]));
            return false;
        }
        j += 1;
    }
    true
}

/// Whether `chars[lo..hi]` is one 16-bit group of an IPv6 literal.
fn is_group(chars: &Vec<char>, lo: usize, hi: usize) -> (b: bool)
    requires
        lo <= hi <= chars.len(),
    ensures
        b == is_hex_group(chars@.subrange(lo as int, hi as int)),
{
    let len = hi - lo;
    if len < 1 || len > 4 {
        return false;
    }
    let ghost run = chars@.subrange(lo as int, hi as int);
    let mut i: usize = lo;
    while i < hi
        invariant
            lo <= i <= hi <= chars.len(),
            run == chars@.subrange(lo as int, hi as int),
            forall|k: int| 0 <= k < i - lo ==> is_hex_digit(#[trigger] run[k]),
        decreases hi - i,
    {
        if !is_hex_digit_char(chars[i]) {
            assert(!is_hex_digit(run[i - lo]));
            return false;
        }
        i += 1;
    }
    true
}

/// The number of groups that `chars[lo..hi]` stands for, as far as it
/// matters to an address: `None` where the run is not well formed or stands
/// for more than sixteen groups.
fn count_groups(chars: &Vec<char>, lo: usize, hi: usize, v4_tail: bool) -> (count: Option<usize>)
    requires
        lo <= hi <= chars.len(),
    ensures
        match count {
            Some(n) => n <= 17 && group_count(chars@.subrange(lo as int, hi as int), v4_tail)
                == Some(n as nat),
            None => match group_count(chars@.subrange(lo as int, hi as int), v4_tail) {
                Some(n) => n > 16,
                None => true,
            },
        },
{
    if lo == hi {
        return Some(0);
    }
    let cuts = split(chars, lo, hi, ':');
    let ghost parts = fields(chars@.subrange(lo as int, hi as int), ':');
    let n = cuts.len();
    let mut j: usize = 0;
    while j < n - 1
        invariant
            0 <= j <= n - 1,
            n == cuts.len(),
            parts == fields(chars@.subrange(lo as int, hi as int), ':'),
            n == parts.len(),
            lo < hi,
            forall|k: int|
                0 <= k < n ==> {
                    &&& lo <= (#[trigger] cuts[k]).0 <= cuts[k].1 <= hi <= chars.len()
                    &&& chars@.subrange(cuts[k].0 as int, cuts[k].1 as int) == parts[k]
                },
            forall|k: int| 0 <= k < j ==> is_hex_group(#[trigger] parts[k]),
        decreases n - 1 - j,
    {
        let cut = cuts[j];
        if !is_group(chars, cut.0, cut.1) {
            assert(!is_hex_group(parts[j as int]));
            return None;
        }
        j += 1;
    }
    let last = cuts[n - 1];
    assert(parts.last() == parts[n - 1]);
    if n > 16 {
        None
    } else if is_group(chars, last.0, last.1) {
        Some(n)
    } else if v4_tail && is_ipv4(chars, last.0, last.1) {
        Some(n + 1)
    } else {
        None
    }
}

/// Whether `chars[lo..hi]` is an IPv6 address in its textual form.
pub fn is_ipv6(chars: &Vec<char>, lo: usize, hi: usize) -> (b: bool)
    requires
        lo <= hi <= chars.len(),
    ensures
        b == is_ipv6_literal(chars@.subrange(lo as int, hi as int)),
{
    let ghost run = chars@.subrange(lo as int, hi as int);
    let k = find_double(chars, lo, hi, ':');
    if k < hi {
        assert(run.take(k - lo) =~= chars@.subrange(lo as int, k as int));
        assert(run.skip(k - lo + 2) =~= chars@.subrange(k + 2, hi as int));
        match count_groups(chars, lo, k, false) {
            None => false,
            Some(head) => match count_groups(chars, k + 2, hi, true) {
                None => false,
                Some(tail) => head + tail <= 7,
            },
        }
    } else {
        match count_groups(chars, lo, hi, true) {
            None => false,
            Some(n) => n == 8,
        }
    }
}

/// Whether `chars[lo..hi]` denotes an unsigned 16-bit number.
pub fn is_u16(chars: &Vec<char>, lo: usize, hi: usize) -> (b: bool)
    requires
        lo <= hi <= chars.len(),
    ensures
        b == is_u16_text(chars@.subrange(lo as int, hi as int)),
{
    let ghost run = chars@.subrange(lo as int, hi as int);
    let from = if lo < hi && chars[lo] == '+' {
        lo + 1
    } else {
        lo
    };
    proof {
        if from > lo {
            assert(run.skip(1) =~= chars@.subrange(from as int, hi as int));
        }
    }
    if from == hi {
        return false;
    }
    is_number_up_to(chars, from, hi, 65535)
}

} // verus!
