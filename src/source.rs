//! Turning lines of an input source into jobs.
use vstd::prelude::*;
use crate::jobs::Inputs;
use crate::text::{chars_of, string_of_range};

verus! {

/// Whether `c` is white space in Unicode's sense, as `char::is_whitespace`
/// defines it.
pub open spec fn is_white(c: char) -> bool {
    ('\u{9}' <= c && c <= '\u{d}') || c == ' ' || c == '\u{85}' || c == '\u{a0}' || c
        == '\u{1680}' || ('\u{2000}' <= c && c <= '\u{200a}') || c == '\u{2028}' || c == '\u{2029}'
        || c == '\u{202f}' || c == '\u{205f}' || c == '\u{3000}'
}

/// `s` without its leading white space.
pub open spec fn trim_start(s: Seq<char>) -> Seq<char>
    decreases s.len(),
{
    if s.len() > 0 && is_white(s[0]) {
        trim_start(s.drop_first())
    } else {
        s
    }
}

/// `s` without its trailing white space.
pub open spec fn trim_end(s: Seq<char>) -> Seq<char>
    decreases s.len(),
{
    if s.len() > 0 && is_white(s.last()) {
        trim_end(s.drop_last())
    } else {
        s
    }
}

/// The input that a line holds: the line without surrounding white space,
/// unless that is empty or starts with `#`.
pub open spec fn line_input(s: Seq<char>) -> Option<Seq<char>> {
    let t = trim_end(trim_start(s));
    if t.len() == 0 || t[0] == '#' {
        None
    } else {
        Some(t)
    }
}

fn is_white_char(c: char) -> (r: bool)
    ensures
        r == is_white(c),
{
    ('\u{9}' <= c && c <= '\u{d}') || c == ' ' || c == '\u{85}' || c == '\u{a0}' || c
        == '\u{1680}' || ('\u{2000}' <= c && c <= '\u{200a}') || c == '\u{2028}' || c == '\u{2029}'
        || c == '\u{202f}' || c == '\u{205f}' || c == '\u{3000}'
}

/// The input that a line of an input source holds, if any.
pub fn input_line(line: &str) -> (r: Option<String>)
    ensures
        match line_input(line@) {
            Some(t) => r matches Some(x) && x@ == t,
            None => r is None,
        },
{
    let cs = chars_of(line);
    let n = cs.len();
    let mut a: usize = 0;
    assert(cs@.subrange(0, n as int) == cs@);
    while a < n && is_white_char(cs[a])
        invariant
            n == cs@.len(),
            a <= n,
            trim_start(cs@) == trim_start(cs@.subrange(a as int, n as int)),
        decreases n - a,
    {
        assert(cs@.subrange(a as int, n as int).drop_first() == cs@.subrange(a + 1, n as int));
        a = a + 1;
    }
    assert(trim_start(cs@.subrange(a as int, n as int)) == cs@.subrange(a as int, n as int));
    let mut b: usize = n;
    while b > a && is_white_char(cs[b - 1])
        invariant
            n == cs@.len(),
            a <= b <= n,
            trim_end(trim_start(cs@)) == trim_end(cs@.subrange(a as int, b as int)),
        decreases b,
    {
        assert(cs@.subrange(a as int, b as int).drop_last() == cs@.subrange(a as int, b - 1));
        b = b - 1;
    }
    assert(trim_end(cs@.subrange(a as int, b as int)) == cs@.subrange(a as int, b as int));
    if a == b || cs[a] == '#' {
        return None;
    }
    Some(string_of_range(cs.as_slice(), a, b))
}

/// Adds the input of one line, if it holds one, to `inputs` as the job with
/// id `*count`, and counts it.
pub fn read_line(inputs: &mut Inputs, line: &str, count: &mut usize)
    requires
        *old(count) < usize::MAX,
    ensures
        match line_input(line@) {
            Some(t) => final(inputs)@ == old(inputs)@.push((*old(count), t)) && *final(count)
                == *old(count) + 1,
            None => final(inputs)@ == old(inputs)@ && *final(count) == *old(count),
        },
{
    match input_line(line) {
        Some(x) => {
            inputs.push(*count, x);
            *count = *count + 1;
        },
        None => {},
    }
}

} // verus!
