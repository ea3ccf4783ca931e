//! Where redirected standard input comes from.
use vstd::prelude::*;
use crate::text::chars_of;

verus! {

/// The kind of a redirected standard input.
#[derive(Debug, PartialEq)]
pub enum RedirectionSource {
    /// A pipe.
    Pipe,
    /// A file, by its path.
    File(String),
}

/// Whether `s` starts with `p`.
pub open spec fn starts_with(s: Seq<char>, p: Seq<char>) -> bool {
    p.len() <= s.len() && s.subrange(0, p.len() as int) == p
}

/// Whether `s` starts with the characters of `p`.
fn has_prefix(s: &[char], p: &[char]) -> (r: bool)
    ensures
        r == starts_with(s@, p@),
{
    if p.len() > s.len() {
        return false;
    }
    let mut i: usize = 0;
    while i < p.len()
        invariant
            p@.len() <= s@.len(),
            i <= p@.len(),
            forall|j: int| 0 <= j < i ==> s@[j] == p@[j],
        decreases p@.len() - i,
    {
        if s[i] != p[i] {
            assert(s@.subrange(0, p@.len() as int)[i as int] != p@[i as int]);
            return false;
        }
        i = i + 1;
    }
    assert(s@.subrange(0, p@.len() as int) =~= p@);
    true
}

/// What standard input is redirected from, given where its file descriptor
/// links to, if that could be read: a terminal under `/dev/pts` is no
/// redirection, `pipe:` is a pipe, and anything else is a file.
pub fn source(link: Option<&str>) -> (r: Option<RedirectionSource>)
    ensures
        match link {
            None => r is None,
            Some(l) => if starts_with(l@, "/dev/pts"@) {
                r is None
            } else if starts_with(l@, "pipe:"@) {
                r == Some(RedirectionSource::Pipe)
            } else {
                r matches Some(RedirectionSource::File(p)) && p@ == l@
            },
        },
{
    match link {
        None => None,
        Some(l) => {
            let cs = chars_of(l);
            let terminal = chars_of("/dev/pts");
            let pipe = chars_of("pipe:");
            if has_prefix(cs.as_slice(), terminal.as_slice()) {
                None
            } else if has_prefix(cs.as_slice(), pipe.as_slice()) {
                Some(RedirectionSource::Pipe)
            } else {
                Some(RedirectionSource::File(l.to_owned()))
            }
        },
    }
}

} // verus!
