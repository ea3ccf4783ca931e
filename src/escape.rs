//! Keeping captured output on one line: newlines and backslashes are escaped
//! before output is sent, and unescaped when it arrives.
use vstd::prelude::*;
use crate::text::{chars_of, push_char};

verus! {

/// What one character is written as once escaped.
pub open spec fn escape_char(c: char) -> Seq<char> {
    if c == '\n' {
        seq!['\\', 'n']
    } else if c == '\\' {
        seq!['\\', '\\']
    } else {
        seq![c]
    }
}

/// `s` with each newline written as `\n` and each backslash as `\\`.
pub open spec fn escape_text(s: Seq<char>) -> Seq<char>
    decreases s.len(),
{
    if s.len() == 0 {
        seq![]
    } else {
        escape_char(s[0]) + escape_text(s.drop_first())
    }
}

/// `s` with `\n` read as a newline and `\\` as a backslash; a backslash
/// before any other character leaves both as they are.
pub open spec fn unescape_text(s: Seq<char>) -> Seq<char>
    decreases s.len(),
{
    if s.len() == 0 {
        seq![]
    } else if s[0] == '\\' && s.len() >= 2 {
        let head = if s[1] == '\\' {
            seq!['\\']
        } else if s[1] == 'n' {
            seq!['\n']
        } else {
            seq!['\\', s[1]]
        };
        head + unescape_text(s.subrange(2, s.len() as int))
    } else {
        seq![s[0]] + unescape_text(s.drop_first())
    }
}

/// Escaping distributes over concatenation.
pub proof fn lemma_escape_concat(a: Seq<char>, b: Seq<char>)
    ensures
        escape_text(a + b) == escape_text(a) + escape_text(b),
    decreases a.len(),
{
    if a.len() > 0 {
        lemma_escape_concat(a.drop_first(), b);
        assert((a + b).drop_first() == a.drop_first() + b);
        assert(escape_text(a + b) == escape_char(a[0]) + escape_text(a.drop_first() + b));
    } else {
        assert(a + b == b);
    }
}

/// Escaped text holds no newline.
pub proof fn lemma_escape_no_newline(s: Seq<char>)
    ensures
        !escape_text(s).contains('\n'),
    decreases s.len(),
{
    if s.len() > 0 {
        lemma_escape_no_newline(s.drop_first());
        let h = escape_char(s[0]);
        let t = escape_text(s.drop_first());
        assert forall|i: int| 0 <= i < (h + t).len() implies (h + t)[i] != '\n' by {
            if i >= h.len() {
                assert((h + t)[i] == t[i - h.len()]);
            }
        }
    }
}

/// Unescaping undoes escaping.
pub proof fn lemma_unescape_escape(s: Seq<char>)
    ensures
        unescape_text(escape_text(s)) == s,
    decreases s.len(),
{
    if s.len() > 0 {
        let rest = s.drop_first();
        lemma_unescape_escape(rest);
        let e = escape_text(s);
        let h = escape_char(s[0]);
        assert(e == h + escape_text(rest));
        if s[0] == '\n' || s[0] == '\\' {
            assert(e.subrange(2, e.len() as int) == escape_text(rest));
        } else {
            assert(e.drop_first() == escape_text(rest));
        }
        assert(s == seq![s[0]] + rest);
    }
}

/// Escapes newlines and backslashes so that `input` fits on one line.
pub fn escape(input: &str) -> (r: String)
    ensures
        r@ == escape_text(input@),
{
    let cs = chars_of(input);
    let mut r = String::new();
    let mut i: usize = 0;
    while i < cs.len()
        invariant
            cs@ == input@,
            i <= cs@.len(),
            r@ == escape_text(cs@.take(i as int)),
        decreases cs@.len() - i,
    {
        let ghost done = cs@.take(i as int);
        let c = cs[i];
        if c == '\n' {
            push_char(&mut r, '\\');
            push_char(&mut r, 'n');
        } else if c == '\\' {
            push_char(&mut r, '\\');
            push_char(&mut r, '\\');
        } else {
            push_char(&mut r, c);
        }
        proof {
            lemma_escape_concat(done, seq![c]);
            assert(seq![c].drop_first() =~= seq![]);
            assert(escape_text(seq![c].drop_first()) == Seq::<char>::empty());
            assert(escape_text(seq![c]) =~= escape_char(c));
            assert(cs@.take(i as int + 1) == done + seq![c]);
            assert(r@ =~= escape_text(done) + escape_char(c));
        }
        i = i + 1;
    }
    assert(cs@.take(cs@.len() as int) == cs@);
    r
}

/// Reads escaped text back: `\n` becomes a newline and `\\` a backslash.
pub fn unescape(input: &str) -> (r: String)
    ensures
        r@ == unescape_text(input@),
{
    let cs = chars_of(input);
    let mut r = String::new();
    let mut i: usize = 0;
    assert(cs@.subrange(0, cs@.len() as int) =~= cs@);
    assert(r@ + cs@ =~= cs@);
    while i < cs.len()
        invariant
            cs@ == input@,
            i <= cs@.len(),
            unescape_text(cs@) == r@ + unescape_text(cs@.subrange(i as int, cs@.len() as int)),
        decreases cs@.len() - i,
    {
        let ghost rest = cs@.subrange(i as int, cs@.len() as int);
        let ghost before = r@;
        let c = cs[i];
        if c == '\\' && i + 1 < cs.len() {
            let n = cs[i + 1];
            if n == '\\' {
                push_char(&mut r, '\\');
            } else if n == 'n' {
                push_char(&mut r, '\n');
            } else {
                push_char(&mut r, '\\');
                push_char(&mut r, n);
            }
            assert(rest.subrange(2, rest.len() as int) == cs@.subrange(i + 2, cs@.len() as int));
            i = i + 2;
        } else {
            push_char(&mut r, c);
            assert(rest.drop_first() == cs@.subrange(i + 1, cs@.len() as int));
            i = i + 1;
        }
        assert(r@ + unescape_text(cs@.subrange(i as int, cs@.len() as int)) =~= before
            + unescape_text(rest));
    }
    assert(cs@.subrange(i as int, cs@.len() as int) =~= seq![]);
    assert(r@ + seq![] == r@);
    r
}

} // verus!
