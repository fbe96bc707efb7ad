//! From a raw address line to the URLs that are tried for it.
//!
//! A line that already names its scheme is kept as it is. An IP address,
//! with or without a port, is tried over `http` and over `https`, in this
//! order. Anything else is taken for a host name and tried over `http` only.
//! No line is refused.

use crate::ip::{
    is_dec_digit, is_ipv4, is_ipv4_literal, is_ipv6, is_ipv6_literal, is_u16, is_u16_text,
    lemma_ipv4_alphabet, lemma_ipv4_starts_with_digit, lemma_ipv6_has_colon,
    lemma_ipv6_starts_with_hex_or_colon, lemma_u16_text_has_no_colon,
};
use crate::text::{
    chars_of, fields, find_last, last_index_of, lemma_last_index_of, lemma_last_index_of_bounds,
    split, string_of, trim_bounds, trimmed,
};
use vstd::prelude::*;
use vstd::string::StringExecFns;

verus! {

/// What an address line is taken for.
#[derive(Clone, Copy, PartialEq, Eq, Structural, Debug)]
pub enum AddressClass {
    /// The line starts with `http://` or `https://`.
    AlreadyQualified,
    /// The line is an IPv4 address.
    IPv4Literal,
    /// The line is an IPv4 address, a colon and a port.
    IPv4LiteralWithPort,
    /// The line is an IPv6 address.
    IPv6Literal,
    /// The line is an IPv6 address, in brackets or not, a colon and a port.
    IPv6LiteralWithPort,
    /// Anything else.
    DomainName,
}

pub open spec fn http_scheme() -> Seq<char> {
    "http://"@
}

pub open spec fn https_scheme() -> Seq<char> {
    "https://"@
}

/// Whether `s` starts with one of the two schemes.
pub open spec fn has_scheme(s: Seq<char>) -> bool {
    http_scheme().is_prefix_of(s) || https_scheme().is_prefix_of(s)
}

/// Whether `s` is an IPv4 or an IPv6 address.
pub open spec fn is_ip_address_text(s: Seq<char>) -> bool {
    is_ipv4_literal(s) || is_ipv6_literal(s)
}

/// What stands before the last colon of `s`; empty where `s` has no colon.
pub open spec fn host_part(s: Seq<char>) -> Seq<char> {
    s.take(last_index_of(s, ':'))
}

/// What stands after the last colon of `s`; all of `s` where it has no colon.
pub open spec fn port_part(s: Seq<char>) -> Seq<char> {
    s.skip(last_index_of(s, ':') + 1)
}

/// Whether `host` starts with an opening and ends with a closing bracket.
pub open spec fn is_bracketed(host: Seq<char>) -> bool {
    host.len() > 0 && host.first() == '[' && host.last() == ']'
}

/// Whether `host` is an address that may stand before a port: an IPv6
/// address in brackets, or else an IPv4 address where it holds no colon and
/// an IPv6 address where it holds one.
pub open spec fn is_host_address(host: Seq<char>) -> bool {
    if is_bracketed(host) {
        is_ipv6_literal(host.subrange(1, host.len() - 1))
    } else if !host.contains(':') {
        is_ipv4_literal(host)
    } else {
        is_ipv6_literal(host)
    }
}

/// Whether `s` is an address, a colon and a port: it holds a colon, what
/// follows the last colon is a port and what stands before it is an address.
pub open spec fn is_ip_with_port_text(s: Seq<char>) -> bool {
    &&& s.contains(':')
    &&& is_u16_text(port_part(s))
    &&& is_host_address(host_part(s))
}

/// The class of a line. The first rule that applies decides.
pub open spec fn classify_text(s: Seq<char>) -> AddressClass {
    if has_scheme(s) {
        AddressClass::AlreadyQualified
    } else if is_ipv4_literal(s) {
        AddressClass::IPv4Literal
    } else if is_ipv6_literal(s) {
        AddressClass::IPv6Literal
    } else if is_ip_with_port_text(s) {
        if !is_bracketed(host_part(s)) && !host_part(s).contains(':') {
            AddressClass::IPv4LiteralWithPort
        } else {
            AddressClass::IPv6LiteralWithPort
        }
    } else {
        AddressClass::DomainName
    }
}

/// The line over `http` and then over `https`.
pub open spec fn both_schemes(line: Seq<char>) -> Seq<Seq<char>> {
    seq![http_scheme() + line, https_scheme() + line]
}

/// The URLs that are tried for a line of this class.
pub open spec fn candidates_of_class(class: AddressClass, s: Seq<char>) -> Seq<Seq<char>> {
    match class {
        AddressClass::AlreadyQualified => seq![s],
        AddressClass::DomainName => seq![http_scheme() + s],
        _ => both_schemes(s),
    }
}

/// The URLs that are tried for a line.
pub open spec fn candidates(s: Seq<char>) -> Seq<Seq<char>> {
    candidates_of_class(classify_text(s), s)
}

/// The URLs that are tried for the lines, line by line.
pub open spec fn all_candidates(lines: Seq<Seq<char>>) -> Seq<Seq<char>> {
    lines.map_values(|line: Seq<char>| candidates(line)).flatten()
}

/// The trimmed texts among `parts` that are not empty, in order.
pub open spec fn trimmed_nonempty(parts: Seq<Seq<char>>) -> Seq<Seq<char>> {
    parts.map_values(|part: Seq<char>| trimmed(part)).filter(|line: Seq<char>| line.len() > 0)
}

/// The address lines of a text: its lines, trimmed, without the empty ones.
/// A carriage return before a line feed is whitespace and goes with the
/// trimming.
pub open spec fn address_lines_text(content: Seq<char>) -> Seq<Seq<char>> {
    trimmed_nonempty(fields(content, '\n'))
}

/// The URLs that are tried for a text of address lines, in the order of the
/// lines.
pub open spec fn websites_text(content: Seq<char>) -> Seq<Seq<char>> {
    all_candidates(address_lines_text(content))
}

/// Whether `chars[lo..hi]` starts with `prefix`.
fn starts_with(chars: &Vec<char>, lo: usize, hi: usize, prefix: &str) -> (b: bool)
    requires
        lo <= hi <= chars.len(),
    ensures
        b == prefix@.is_prefix_of(chars@.subrange(lo as int, hi as int)),
{
    let wanted = chars_of(prefix);
    let ghost run = chars@.subrange(lo as int, hi as int);
    if wanted.len() > hi - lo {
        return false;
    }
    let mut i: usize = 0;
    while i < wanted.len()
        invariant
            0 <= i <= wanted.len() <= hi - lo,
            lo <= hi <= chars.len(),
            run == chars@.subrange(lo as int, hi as int),
            wanted@ == prefix@,
            forall|j: int| 0 <= j < i ==> wanted@[j] == run[j],
        decreases wanted.len() - i,
    {
        if wanted[i] != chars[lo + i] {
            assert(wanted@[i as int] != run.subrange(0, wanted@.len() as int)[i as int]);
            return false;
        }
        i += 1;
    }
    assert(wanted@ =~= run.subrange(0, wanted@.len() as int));
    true
}

/// Whether `chars[lo..hi]` starts with one of the two schemes.
fn has_scheme_in(chars: &Vec<char>, lo: usize, hi: usize) -> (b: bool)
    requires
        lo <= hi <= chars.len(),
    ensures
        b == has_scheme(chars@.subrange(lo as int, hi as int)),
{
    starts_with(chars, lo, hi, "http://") || starts_with(chars, lo, hi, "https://")
}

/// Whether `chars[lo..hi]` holds a colon.
fn has_colon(chars: &Vec<char>, lo: usize, hi: usize) -> (b: bool)
    requires
        lo <= hi <= chars.len(),
    ensures
        b == chars@.subrange(lo as int, hi as int).contains(':'),
{
    find_last(chars, lo, hi, ':') < hi
}

/// How `chars[lo..hi]` reads as an address before a port: `None` where it is
/// no such address, else whether it is an IPv6 address.
fn host_address_in(chars: &Vec<char>, lo: usize, hi: usize) -> (found: Option<bool>)
    requires
        lo <= hi <= chars.len(),
    ensures
        found is Some == is_host_address(chars@.subrange(lo as int, hi as int)),
        found matches Some(v6) ==> v6 == (is_bracketed(chars@.subrange(lo as int, hi as int))
            || chars@.subrange(lo as int, hi as int).contains(':')),
{
    let ghost host = chars@.subrange(lo as int, hi as int);
    if lo < hi && chars[lo] == '[' && chars[hi - 1] == ']' {
        assert(is_bracketed(host));
        assert(host.subrange(1, host.len() - 1) =~= chars@.subrange(lo + 1, hi - 1));
        if is_ipv6(chars, lo + 1, hi - 1) {
            Some(true)
        } else {
            None
        }
    } else if !has_colon(chars, lo, hi) {
        if is_ipv4(chars, lo, hi) {
            Some(false)
        } else {
            None
        }
    } else if is_ipv6(chars, lo, hi) {
        Some(true)
    } else {
        None
    }
}

/// How `chars[lo..hi]` reads as an address with a port: `None` where it is
/// none, else whether the address is an IPv6 address.
fn ip_with_port_in(chars: &Vec<char>, lo: usize, hi: usize) -> (found: Option<bool>)
    requires
        lo <= hi <= chars.len(),
    ensures
        found is Some == is_ip_with_port_text(chars@.subrange(lo as int, hi as int)),
        found matches Some(v6) ==> v6 == (is_bracketed(
            host_part(chars@.subrange(lo as int, hi as int)),
        ) || host_part(chars@.subrange(lo as int, hi as int)).contains(':')),
{
    let ghost run = chars@.subrange(lo as int, hi as int);
    let k = find_last(chars, lo, hi, ':');
    if k == hi {
        return None;
    }
    assert(host_part(run) =~= chars@.subrange(lo as int, k as int));
    assert(port_part(run) =~= chars@.subrange(k + 1, hi as int));
    if !is_u16(chars, k + 1, hi) {
        return None;
    }
    host_address_in(chars, lo, k)
}

/// The class of `chars[lo..hi]`.
fn classify_in(chars: &Vec<char>, lo: usize, hi: usize) -> (class: AddressClass)
    requires
        lo <= hi <= chars.len(),
    ensures
        class == classify_text(chars@.subrange(lo as int, hi as int)),
{
    if has_scheme_in(chars, lo, hi) {
        AddressClass::AlreadyQualified
    } else if is_ipv4(chars, lo, hi) {
        AddressClass::IPv4Literal
    } else if is_ipv6(chars, lo, hi) {
        AddressClass::IPv6Literal
    } else {
        match ip_with_port_in(chars, lo, hi) {
            Some(true) => AddressClass::IPv6LiteralWithPort,
            Some(false) => AddressClass::IPv4LiteralWithPort,
            None => AddressClass::DomainName,
        }
    }
}

/// Whether `input` is an IPv4 or an IPv6 address.
pub fn is_ip_address(input: &str) -> (b: bool)
    ensures
        b == is_ip_address_text(input@),
{
    let chars = chars_of(input);
    assert(chars@.subrange(0, chars@.len() as int) =~= input@);
    is_ipv4(&chars, 0, chars.len()) || is_ipv6(&chars, 0, chars.len())
}

/// Whether `input` is an IP address, a colon and a port.
pub fn is_ip_with_port(input: &str) -> (b: bool)
    ensures
        b == is_ip_with_port_text(input@),
{
    let chars = chars_of(input);
    assert(chars@.subrange(0, chars@.len() as int) =~= input@);
    ip_with_port_in(&chars, 0, chars.len()).is_some()
}

/// The class of an address line.
pub fn classify(input: &str) -> (class: AddressClass)
    ensures
        class == classify_text(input@),
{
    let chars = chars_of(input);
    assert(chars@.subrange(0, chars@.len() as int) =~= input@);
    classify_in(&chars, 0, chars.len())
}

/// `scheme` followed by `rest`.
fn with_scheme(scheme: &str, rest: &str) -> (url: String)
    ensures
        url@ == scheme@ + rest@,
{
    let mut url = scheme.to_owned();
    url.append(rest);
    url
}

/// The URLs that are tried for an address line, in the order in which they
/// are tried: the line itself where it names its scheme; `http://` and then
/// `https://` before the line where it is an IP address, with or without a
/// port; `http://` before the line in every other case.
pub fn generate_urls(input: &str) -> (urls: Vec<String>)
    ensures
        urls.deep_view() == candidates(input@),
        has_scheme(input@) ==> urls.deep_view() == seq![input@],
        is_ip_address_text(input@) ==> urls.deep_view() == both_schemes(input@),
        is_ip_with_port_text(input@) ==> urls.deep_view() == both_schemes(input@),
        !has_scheme(input@) && !is_ip_address_text(input@) && !is_ip_with_port_text(input@)
            ==> urls.deep_view() == seq![http_scheme() + input@],
        1 <= urls.len() <= 2,
        forall|i: int| 0 <= i < urls.len() ==> has_scheme(#[trigger] urls[i]@),
{
    let mut urls: Vec<String> = Vec::new();
    match classify(input) {
        AddressClass::AlreadyQualified => {
            urls.push(input.to_owned());
        },
        AddressClass::DomainName => {
            urls.push(with_scheme("http://", input));
        },
        _ => {
            urls.push(with_scheme("http://", input));
            urls.push(with_scheme("https://", input));
        },
    }
    proof {
        assert(urls.deep_view() =~= candidates(input@));
        lemma_scheme_excludes_address(input@);
        lemma_candidates_have_scheme(input@);
        assert forall|i: int| 0 <= i < urls.len() implies has_scheme(#[trigger] urls[i]@) by {
            assert(urls[i]@ == urls.deep_view()[i]);
        }
    }
    urls
}

/// The address lines of a text: its lines, each without the whitespace at
/// its two ends, but for those that are empty then, in the order of the text.
pub fn address_lines(content: &str) -> (lines: Vec<String>)
    ensures
        lines.deep_view() == address_lines_text(content@),
        forall|i: int| 0 <= i < lines.len() ==> (#[trigger] lines[i])@.len() > 0,
{
    let chars = chars_of(content);
    assert(chars@.subrange(0, chars@.len() as int) =~= content@);
    let cuts = split(&chars, 0, chars.len(), '\n');
    let ghost parts = fields(content@, '\n');
    let mut lines: Vec<String> = Vec::new();
    let mut j: usize = 0;
    assert(parts.take(0) =~= Seq::<Seq<char>>::empty());
    assert(trimmed_nonempty(Seq::<Seq<char>>::empty()) =~= Seq::<Seq<char>>::empty()) by {
        reveal(Seq::filter);
    }
    while j < cuts.len()
        invariant
            0 <= j <= cuts.len(),
            cuts.len() == parts.len(),
            forall|k: int|
                0 <= k < cuts.len() ==> {
                    &&& (#[trigger] cuts[k]).0 <= cuts[k].1 <= chars.len()
                    &&& chars@.subrange(cuts[k].0 as int, cuts[k].1 as int) == parts[k]
                },
            lines.deep_view() == trimmed_nonempty(parts.take(j as int)),
            forall|i: int| 0 <= i < lines.len() ==> (#[trigger] lines[i])@.len() > 0,
        decreases cuts.len() - j,
    {
        let cut = cuts[j];
        let (from, to) = trim_bounds(&chars, cut.0, cut.1);
        let ghost before = lines.deep_view();
        proof {
            lemma_trimmed_nonempty_push(parts.take(j as int), parts[j as int]);
            assert(parts.take(j + 1) =~= parts.take(j as int).push(parts[j as int]));
        }
        if from < to {
            lines.push(string_of(&chars, from, to));
            assert(lines.deep_view() =~= before.push(trimmed(parts[j as int])));
        }
        j += 1;
    }
    assert(parts.take(parts.len() as int) =~= parts);
    lines
}

/// What one more part adds to the trimmed, non-empty texts.
proof fn lemma_trimmed_nonempty_push(parts: Seq<Seq<char>>, part: Seq<char>)
    ensures
        trimmed_nonempty(parts.push(part)) == if trimmed(part).len() > 0 {
            trimmed_nonempty(parts).push(trimmed(part))
        } else {
            trimmed_nonempty(parts)
        },
{
    let trim = |part: Seq<char>| trimmed(part);
    let keep = |line: Seq<char>| line.len() > 0;
    assert(parts.push(part).map_values(trim) =~= parts.map_values(trim).push(trimmed(part)));
    parts.map_values(trim).lemma_filter_push(trimmed(part), keep);
}

/// What one more line adds to the URLs that are tried.
proof fn lemma_all_candidates_push(lines: Seq<Seq<char>>, line: Seq<char>)
    ensures
        all_candidates(lines.push(line)) == all_candidates(lines) + candidates(line),
{
    let each = |line: Seq<char>| candidates(line);
    assert(lines.push(line).map_values(each) =~= lines.map_values(each).push(candidates(line)));
    lines.map_values(each).lemma_flatten_push(candidates(line));
}

/// The URLs that are tried for the address lines, in the order of the lines
/// and, for each line, in the order in which they are tried. No line goes
/// without a URL.
pub fn expand_lines(lines: &Vec<String>) -> (urls: Vec<String>)
    ensures
        urls.deep_view() == all_candidates(lines.deep_view()),
        urls.len() >= lines.len(),
        forall|i: int| 0 <= i < urls.len() ==> has_scheme(#[trigger] urls[i]@),
{
    let mut urls: Vec<String> = Vec::new();
    let mut j: usize = 0;
    assert(lines.deep_view().take(0) =~= Seq::<Seq<char>>::empty());
    assert(all_candidates(Seq::<Seq<char>>::empty()) =~= Seq::<Seq<char>>::empty());
    while j < lines.len()
        invariant
            0 <= j <= lines.len(),
            urls.deep_view() == all_candidates(lines.deep_view().take(j as int)),
            urls.len() >= j,
            forall|i: int| 0 <= i < urls.len() ==> has_scheme(#[trigger] urls[i]@),
        decreases lines.len() - j,
    {
        let ghost before = urls.deep_view();
        let ghost line = lines[j as int]@;
        let mut found = generate_urls(lines[j].as_str());
        proof {
            lemma_all_candidates_push(lines.deep_view().take(j as int), line);
            assert(lines.deep_view().take(j + 1) =~= lines.deep_view().take(j as int).push(line));
        }
        let ghost added = found.deep_view();
        let ghost old_urls = urls@;
        let ghost old_found = found@;
        urls.append(&mut found);
        proof {
            assert(urls@ =~= old_urls + old_found);
            assert(urls.deep_view() =~= before + added);
            assert forall|i: int| 0 <= i < urls.len() implies has_scheme(#[trigger] urls[i]@) by {
                if i >= old_urls.len() {
                    assert(urls[i] == old_found[i - old_urls.len()]);
                }
            }
        }
        j += 1;
    }
    assert(lines.deep_view().take(lines.len() as int) =~= lines.deep_view());
    urls
}

/// The URLs that are tried for a text of address lines: the lines are
/// trimmed, the empty ones are left out, and each of the others gives its
/// one or two URLs, in the order of the text.
pub fn websites_from_text(content: &str) -> (urls: Vec<String>)
    ensures
        urls.deep_view() == websites_text(content@),
        urls.len() >= address_lines_text(content@).len(),
        forall|i: int| 0 <= i < urls.len() ==> has_scheme(#[trigger] urls[i]@),
{
    let lines = address_lines(content);
    expand_lines(&lines)
}

/// The rules do not overlap: a line that names its scheme is no IP address,
/// with or without a port.
pub proof fn lemma_scheme_excludes_address(line: Seq<char>)
    ensures
        has_scheme(line) ==> !is_ip_address_text(line) && !is_ip_with_port_text(line),
{
    reveal_strlit("http://");
    reveal_strlit("https://");
    if has_scheme(line) {
        let at = if http_scheme().is_prefix_of(line) {
            4int
        } else {
            5int
        };
        assert(line[0] == 'h' && line[at] == ':') by {
            if http_scheme().is_prefix_of(line) {
                assert(line.subrange(0, 7)[0] == 'h');
                assert(line.subrange(0, 7)[4] == ':');
            } else {
                assert(line.subrange(0, 8)[0] == 'h');
                assert(line.subrange(0, 8)[5] == ':');
            }
        }
        if is_ipv4_literal(line) {
            lemma_ipv4_starts_with_digit(line);
        }
        if is_ipv6_literal(line) {
            lemma_ipv6_starts_with_hex_or_colon(line);
        }
        if is_ip_with_port_text(line) {
            let host = host_part(line);
            lemma_last_index_of_bounds(line, ':', at);
            assert(host[0] == 'h');
            if is_ipv4_literal(host) {
                lemma_ipv4_starts_with_digit(host);
            }
            if is_ipv6_literal(host) {
                lemma_ipv6_starts_with_hex_or_colon(host);
            }
        }
    }
}

/// A line made of a host, a colon and a text without colon parts at that
/// colon.
proof fn lemma_parts_of_joined(host: Seq<char>, port: Seq<char>)
    requires
        !port.contains(':'),
    ensures
        (host + seq![':'] + port).contains(':'),
        host_part(host + seq![':'] + port) == host,
        port_part(host + seq![':'] + port) == port,
{
    let line = host + seq![':'] + port;
    let k = host.len() as int;
    assert(line[k] == ':');
    assert forall|j: int| k < j < line.len() implies line[j] != ':' by {
        assert(line[j] == port[j - k - 1]);
        if port[j - k - 1] == ':' {
            assert(port.contains(':'));
        }
    }
    lemma_last_index_of(line, ':', k);
    assert(line.take(k) =~= host);
    assert(line.skip(k + 1) =~= port);
}

/// An IP address followed by a colon and a port is tried over both
/// schemes, and so is an IPv6 address in brackets followed by a colon and a
/// port: the candidates are the two schemes before the unchanged line.
pub proof fn lemma_address_with_port_gives_both(address: Seq<char>, port: Seq<char>)
    requires
        is_ip_address_text(address),
        is_u16_text(port),
    ensures
        candidates(address + seq![':'] + port) == both_schemes(address + seq![':'] + port),
        is_ipv6_literal(address) ==> candidates(seq!['['] + address + seq![']'] + seq![':'] + port)
            == both_schemes(seq!['['] + address + seq![']'] + seq![':'] + port),
{
    lemma_u16_text_has_no_colon(port);
    let plain = address + seq![':'] + port;
    lemma_parts_of_joined(address, port);
    lemma_scheme_excludes_address(plain);
    assert(is_host_address(address)) by {
        if is_ipv4_literal(address) {
            lemma_ipv4_starts_with_digit(address);
            lemma_ipv4_alphabet(address);
            if address.contains(':') {
                let i = choose|i: int| 0 <= i < address.len() && address[i] == ':';
                assert(is_dec_digit(address[i]) || address[i] == '.');
            }
        } else {
            lemma_ipv6_starts_with_hex_or_colon(address);
            lemma_ipv6_has_colon(address);
        }
    }
    assert(is_ip_with_port_text(plain));
    if is_ipv6_literal(address) {
        let host = seq!['['] + address + seq![']'];
        let bracketed = host + seq![':'] + port;
        lemma_parts_of_joined(host, port);
        lemma_scheme_excludes_address(bracketed);
        assert(is_bracketed(host));
        assert(host.subrange(1, host.len() - 1) =~= address);
        assert(is_ip_with_port_text(bracketed));
    }
}

/// Every URL that is tried for a line starts with a scheme, and there are
/// one or two of them.
pub proof fn lemma_candidates_have_scheme(line: Seq<char>)
    ensures
        1 <= candidates(line).len() <= 2,
        forall|i: int|
            0 <= i < candidates(line).len() ==> has_scheme(#[trigger] candidates(line)[i]),
{
    assert(http_scheme().is_prefix_of(http_scheme() + line)) by {
        assert((http_scheme() + line).subrange(0, http_scheme().len() as int) =~= http_scheme());
    }
    assert(https_scheme().is_prefix_of(https_scheme() + line)) by {
        assert((https_scheme() + line).subrange(0, https_scheme().len() as int)
            =~= https_scheme());
    }
}

/// Normalizing is idempotent: a URL that was generated for a line is kept
/// as it is when it is given back as a line.
pub proof fn lemma_candidates_idempotent(line: Seq<char>, i: int)
    requires
        0 <= i < candidates(line).len(),
    ensures
        candidates(candidates(line)[i]) == seq![candidates(line)[i]],
{
    lemma_candidates_have_scheme(line);
}

} // verus!
