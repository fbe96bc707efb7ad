//! The recognizers of the library state the address grammars by their fields.
//! Here the same grammars are read the other way, by a reader that consumes
//! the text from the left and backs up where a rule fails, and the two are
//! held against each other on every string of several families.

use picmyweb::ip::{is_ipv4, is_ipv6};

/// A reader over the bytes of a text.
struct Reader<'a> {
    rest: &'a [u8],
}

impl<'a> Reader<'a> {
    fn new(text: &'a str) -> Reader<'a> {
        Reader { rest: text.as_bytes() }
    }

    /// Runs `rule` and takes back what it consumed where it fails.
    fn atomically<T>(&mut self, rule: impl FnOnce(&mut Reader<'a>) -> Option<T>) -> Option<T> {
        let saved = self.rest;
        let result = rule(self);
        if result.is_none() {
            self.rest = saved;
        }
        result
    }

    fn at_end(&self) -> bool {
        self.rest.is_empty()
    }

    fn peek(&self) -> Option<char> {
        self.rest.first().map(|&b| char::from(b))
    }

    fn next_char(&mut self) -> Option<char> {
        let (&first, tail) = self.rest.split_first()?;
        self.rest = tail;
        Some(char::from(first))
    }

    fn given(&mut self, wanted: char) -> Option<()> {
        self.atomically(|r| if r.next_char()? == wanted { Some(()) } else { None })
    }

    fn separated<T>(
        &mut self,
        sep: char,
        index: usize,
        inner: impl FnOnce(&mut Reader<'a>) -> Option<T>,
    ) -> Option<T> {
        self.atomically(move |r| {
            if index > 0 {
                r.given(sep)?;
            }
            inner(r)
        })
    }

    /// Reads all the digits that follow and fails on too many of them.
    fn number(&mut self, radix: u32, max_digits: usize, zero_prefix: bool, max: u32) -> Option<u32> {
        self.atomically(move |r| {
            let mut value = 0u32;
            let mut digits = 0;
            let leading_zero = r.peek() == Some('0');
            while let Some(digit) = r.atomically(|r| r.next_char()?.to_digit(radix)) {
                value = value * radix + digit;
                digits += 1;
                if digits > max_digits {
                    return None;
                }
            }
            if digits == 0 || (!zero_prefix && leading_zero && digits > 1) || value > max {
                None
            } else {
                Some(value)
            }
        })
    }

    fn ipv4(&mut self) -> Option<()> {
        self.atomically(|r| {
            for i in 0..4 {
                r.separated('.', i, |r| r.number(10, 3, false, 255))?;
            }
            Some(())
        })
    }

    /// Reads up to `limit` groups; the last two may be an IPv4 address.
    /// Gives the number of groups read and whether an IPv4 address ended them.
    fn groups(&mut self, limit: usize) -> (usize, bool) {
        for i in 0..limit {
            if i + 1 < limit && self.separated(':', i, |r| r.ipv4()).is_some() {
                return (i + 2, true);
            }
            if self.separated(':', i, |r| r.number(16, 4, true, 0xffff)).is_none() {
                return (i, false);
            }
        }
        (limit, false)
    }

    fn ipv6(&mut self) -> Option<()> {
        self.atomically(|r| {
            let (head, head_v4) = r.groups(8);
            if head == 8 {
                return Some(());
            }
            if head_v4 {
                return None;
            }
            r.given(':')?;
            r.given(':')?;
            r.groups(8 - (head + 1));
            Some(())
        })
    }
}

fn descent_v4(text: &str) -> bool {
    let mut reader = Reader::new(text);
    reader.ipv4().is_some() && reader.at_end()
}

fn descent_v6(text: &str) -> bool {
    let mut reader = Reader::new(text);
    reader.ipv6().is_some() && reader.at_end()
}

fn agree(text: &str) -> (bool, bool) {
    let chars: Vec<char> = text.chars().collect();
    let v4 = is_ipv4(&chars, 0, chars.len());
    let v6 = is_ipv6(&chars, 0, chars.len());
    assert_eq!(v4, descent_v4(text), "IPv4 {:?}", text);
    assert_eq!(v6, descent_v6(text), "IPv6 {:?}", text);
    (v4, v6)
}

/// Calls `visit` on every text made of at most `max` of the `pieces`.
fn each_text(pieces: &[&str], max: usize, visit: &mut dyn FnMut(&str)) {
    let mut text = String::new();
    let mut stack: Vec<(usize, usize)> = Vec::new();
    visit(&text);
    if max == 0 {
        return;
    }
    let mut next = 0;
    loop {
        if next < pieces.len() {
            let len = text.len();
            text.push_str(pieces[next]);
            stack.push((next, len));
            visit(&text);
            next = if stack.len() < max { 0 } else { pieces.len() };
        } else {
            match stack.pop() {
                Some((piece, len)) => {
                    text.truncate(len);
                    next = piece + 1;
                }
                None => return,
            }
        }
    }
}

#[test]
fn short_texts_read_the_same_both_ways() {
    let mut seen = 0usize;
    let mut valid = 0usize;
    each_text(&["0", "1", "f", ":", "."], 8, &mut |text| {
        let (v4, v6) = agree(text);
        seen += 1;
        if v4 || v6 {
            valid += 1;
        }
    });
    assert_eq!(seen, (5usize.pow(9) - 1) / 4);
    assert!(valid > 0);
}

#[test]
fn runs_of_groups_read_the_same_both_ways() {
    let mut valid = 0usize;
    each_text(&["1", ":", "::", "1.2.3.4", ":1", "ffff:"], 9, &mut |text| {
        let (_, v6) = agree(text);
        if v6 {
            valid += 1;
        }
    });
    assert!(valid > 100);
}

#[test]
fn dotted_quads_read_the_same_both_ways() {
    let mut valid = 0usize;
    each_text(&["0", "25", "5", "6", ".", "1.", ".0", "a", ":"], 7, &mut |text| {
        let (v4, _) = agree(text);
        if v4 {
            valid += 1;
        }
    });
    assert!(valid > 100);
}

#[test]
fn long_forms_read_the_same_both_ways() {
    let mut valid = 0usize;
    let pieces = ["1:2:3:4:", "5:6:", "7:8", "::", "1.2.3.4", "a", ":", "00000", "9"];
    each_text(&pieces, 6, &mut |text| {
        let (_, v6) = agree(text);
        if v6 {
            valid += 1;
        }
    });
    assert!(valid > 20);
}
