//! Command templates: parsing a pattern into tokens, rendering it back, and
//! substituting one job's values into it.
use vstd::prelude::*;
use crate::decimal::{decimal, push_decimal};
use crate::text::{chars_of, push_char, string_of_range};

verus! {

/// One piece of a parsed command template.
#[derive(Clone, Debug, PartialEq)]
pub enum Token {
    /// `{}`: the job's input.
    Placeholder,
    /// `{%}`: the id of the slot that runs the job.
    Slot,
    /// `{#}`: the job's id.
    Job,
    /// Literal text, copied verbatim.
    Text(String),
}

/// What a token stands for, with its text as characters.
pub enum TokenView {
    Placeholder,
    Slot,
    Job,
    Text(Seq<char>),
}

impl View for Token {
    type V = TokenView;

    open spec fn view(&self) -> TokenView {
        match self {
            Token::Placeholder => TokenView::Placeholder,
            Token::Slot => TokenView::Slot,
            Token::Job => TokenView::Job,
            Token::Text(s) => TokenView::Text(s@),
        }
    }
}

/// A parsed command template.
#[derive(Debug, Clone, PartialEq)]
pub struct Tokens {
    pub tokens: Vec<Token>,
}

/// The template as the server's command registry names it.
pub type PreparedCommand = Tokens;

impl View for Tokens {
    type V = Seq<TokenView>;

    open spec fn view(&self) -> Seq<TokenView> {
        self.tokens@.map_values(|t: Token| t@)
    }
}

/// The token that a closed brace group `{...}` stands for, if any.
pub open spec fn brace_token(body: Seq<char>) -> Option<TokenView> {
    if body == seq!['{', '}'] {
        Some(TokenView::Placeholder)
    } else if body == seq!['{', '%', '}'] {
        Some(TokenView::Slot)
    } else if body == seq!['{', '#', '}'] {
        Some(TokenView::Job)
    } else {
        None
    }
}

/// The tokens before the literal text that starts at `start`.
pub open spec fn flush(s: Seq<char>, start: int, end: int, acc: Seq<TokenView>) -> Seq<TokenView> {
    if start < end {
        acc.push(TokenView::Text(s.subrange(start, end)))
    } else {
        acc
    }
}

/// Scans `s` from position `i`, with pending literal text starting at `start`,
/// a brace group open or not, and a placeholder seen or not. Gives the tokens
/// found, trailing text included, and whether a placeholder was seen.
pub open spec fn scan(
    s: Seq<char>,
    i: int,
    start: int,
    open: bool,
    seen: bool,
    acc: Seq<TokenView>,
) -> (Seq<TokenView>, bool)
    decreases s.len() + 1 - i,
{
    if i < 0 || i >= s.len() {
        (flush(s, start, s.len() as int, acc), seen)
    } else if s[i] == '\\' {
        scan(s, i + 2, start, open, seen, acc)
    } else if s[i] == '{' && !open {
        scan(s, i + 1, i, true, seen, flush(s, start, i, acc))
    } else if s[i] == '}' && open {
        match brace_token(s.subrange(start, i + 1)) {
            Some(t) => scan(
                s,
                i + 1,
                i + 1,
                false,
                seen || t == TokenView::Placeholder,
                acc.push(t),
            ),
            None => scan(s, i + 1, start, false, seen, acc),
        }
    } else {
        scan(s, i + 1, start, open, seen, acc)
    }
}

/// Appends a placeholder, after a space, to tokens that hold none.
pub open spec fn with_placeholder(t: Seq<TokenView>, seen: bool) -> Seq<TokenView> {
    if seen {
        t
    } else if t.len() == 0 {
        seq![TokenView::Placeholder]
    } else {
        match t.last() {
            TokenView::Text(x) => t.drop_last().push(TokenView::Text(x.push(' '))).push(
                TokenView::Placeholder,
            ),
            _ => t.push(TokenView::Text(seq![' '])).push(TokenView::Placeholder),
        }
    }
}

/// The tokens of the pattern `s`.
pub open spec fn parse_template(s: Seq<char>) -> Seq<TokenView> {
    let (t, seen) = scan(s, 0, 0, false, false, seq![]);
    with_placeholder(t, seen)
}

/// The text that one token is written as.
pub open spec fn token_text(t: TokenView) -> Seq<char> {
    match t {
        TokenView::Placeholder => seq!['{', '}'],
        TokenView::Slot => seq!['{', '%', '}'],
        TokenView::Job => seq!['{', '#', '}'],
        TokenView::Text(x) => x,
    }
}

/// The pattern that a token list is written as.
pub open spec fn render_template(t: Seq<TokenView>) -> Seq<char>
    decreases t.len(),
{
    if t.len() == 0 {
        seq![]
    } else {
        render_template(t.drop_last()) + token_text(t.last())
    }
}

/// The text that one token stands for in the command of one job.
pub open spec fn token_value(t: TokenView, slot: nat, job: nat, input: Seq<char>) -> Seq<char> {
    match t {
        TokenView::Placeholder => input,
        TokenView::Slot => decimal(slot),
        TokenView::Job => decimal(job),
        TokenView::Text(x) => x,
    }
}

/// The command that a template gives for one job.
pub open spec fn substitute_template(
    t: Seq<TokenView>,
    slot: nat,
    job: nat,
    input: Seq<char>,
) -> Seq<char>
    decreases t.len(),
{
    if t.len() == 0 {
        seq![]
    } else {
        substitute_template(t.drop_last(), slot, job, input) + token_value(
            t.last(),
            slot,
            job,
            input,
        )
    }
}

/// Whether a token list holds a placeholder.
pub open spec fn has_placeholder(t: Seq<TokenView>) -> bool {
    exists|i: int| 0 <= i < t.len() && #[trigger] t[i] == TokenView::Placeholder
}

/// The scan keeps the tokens it was given as a prefix, and a placeholder it
/// reports as seen is among its tokens.
proof fn lemma_scan_placeholder(
    s: Seq<char>,
    i: int,
    start: int,
    open: bool,
    seen: bool,
    acc: Seq<TokenView>,
)
    requires
        seen ==> has_placeholder(acc),
    ensures
        scan(s, i, start, open, seen, acc).1 ==> has_placeholder(scan(s, i, start, open, seen, acc).0),
    decreases s.len() + 1 - i,
{
    if i < 0 || i >= s.len() {
        if seen && start < s.len() {
            let j = choose|j: int| 0 <= j < acc.len() && acc[j] == TokenView::Placeholder;
            let r = flush(s, start, s.len() as int, acc);
            assert(r[j] == TokenView::Placeholder);
        }
    } else if s[i] == '\\' {
        lemma_scan_placeholder(s, i + 2, start, open, seen, acc);
    } else if s[i] == '{' && !open {
        let f = flush(s, start, i, acc);
        if seen && start < i {
            let j = choose|j: int| 0 <= j < acc.len() && acc[j] == TokenView::Placeholder;
            assert(f[j] == TokenView::Placeholder);
        }
        lemma_scan_placeholder(s, i + 1, i, true, seen, f);
    } else if s[i] == '}' && open {
        match brace_token(s.subrange(start, i + 1)) {
            Some(t) => {
                let a = acc.push(t);
                if seen {
                    let j = choose|j: int| 0 <= j < acc.len() && acc[j] == TokenView::Placeholder;
                    assert(a[j] == TokenView::Placeholder);
                }
                if t == TokenView::Placeholder {
                    assert(a[acc.len() as int] == TokenView::Placeholder);
                }
                lemma_scan_placeholder(s, i + 1, i + 1, false, seen || t == TokenView::Placeholder, a);
            },
            None => {
                lemma_scan_placeholder(s, i + 1, start, false, seen, acc);
            },
        }
    } else {
        lemma_scan_placeholder(s, i + 1, start, open, seen, acc);
    }
}

/// Every parsed template holds at least one placeholder.
pub proof fn lemma_parse_has_placeholder(s: Seq<char>)
    ensures
        has_placeholder(parse_template(s)),
{
    let (t, seen) = scan(s, 0, 0, false, false, seq![]);
    lemma_scan_placeholder(s, 0, 0, false, false, seq![]);
    let r = parse_template(s);
    if !seen {
        assert(r[r.len() - 1] == TokenView::Placeholder);
    }
}

impl Tokens {
    /// Writes the template back as a pattern.
    pub fn to_string(&self) -> (r: String)
        ensures
            r@ == render_template(self@),
    {
        let mut r = String::new();
        let mut i: usize = 0;
        while i < self.tokens.len()
            invariant
                i <= self.tokens@.len(),
                r@ == render_template(self@.take(i as int)),
            decreases self.tokens@.len() - i,
        {
            assert(self@.take(i as int + 1).drop_last() == self@.take(i as int));
            match &self.tokens[i] {
                Token::Placeholder => {
                    push_char(&mut r, '{');
                    push_char(&mut r, '}');
                },
                Token::Slot => {
                    push_char(&mut r, '{');
                    push_char(&mut r, '%');
                    push_char(&mut r, '}');
                },
                Token::Job => {
                    push_char(&mut r, '{');
                    push_char(&mut r, '#');
                    push_char(&mut r, '}');
                },
                Token::Text(x) => {
                    r.append(x.as_str());
                },
            }
            assert(r@ =~= render_template(self@.take(i as int + 1)));
            i = i + 1;
        }
        assert(self@.take(self.tokens@.len() as int) == self@);
        r
    }

    /// The command for one job: `{}` becomes `input`, `{%}` the slot id and
    /// `{#}` the job id, in decimal; text is copied.
    pub fn substitute(&self, slot: usize, job: usize, input: &str) -> (r: String)
        ensures
            r@ == substitute_template(self@, slot as nat, job as nat, input@),
    {
        let mut r = String::new();
        let mut i: usize = 0;
        while i < self.tokens.len()
            invariant
                i <= self.tokens@.len(),
                r@ == substitute_template(self@.take(i as int), slot as nat, job as nat, input@),
            decreases self.tokens@.len() - i,
        {
            assert(self@.take(i as int + 1).drop_last() == self@.take(i as int));
            match &self.tokens[i] {
                Token::Placeholder => r.append(input),
                Token::Slot => push_decimal(&mut r, slot),
                Token::Job => push_decimal(&mut r, job),
                Token::Text(x) => r.append(x.as_str()),
            }
            assert(r@ =~= substitute_template(self@.take(i as int + 1), slot as nat, job as nat, input@));
            i = i + 1;
        }
        assert(self@.take(self.tokens@.len() as int) == self@);
        r
    }

    /// Parses a command pattern. `{}`, `{%}` and `{#}` become tokens, a
    /// backslash shields the character after it, and a pattern without `{}`
    /// gets one appended after a space.
    pub fn new(input: &str) -> (r: Tokens)
        ensures
            r@ == parse_template(input@),
    {
        let cs = chars_of(input);
        let ghost s = cs@;
        let mut tokens: Vec<Token> = Vec::new();
        let mut start: usize = 0;
        let mut open = false;
        let mut seen = false;
        let mut i: usize = 0;
        assert(tokens@.map_values(|t: Token| t@) =~= seq![]);
        while i < cs.len()
            invariant
                s == cs@,
                s == input@,
                start <= i <= s.len(),
                start <= s.len(),
                open ==> start < i && s[start as int] == '{',
                scan(s, 0, 0, false, false, seq![]) == scan(
                    s,
                    i as int,
                    start as int,
                    open,
                    seen,
                    tokens@.map_values(|t: Token| t@),
                ),
            decreases s.len() + 1 - i,
        {
            let c = cs[i];
            let ghost acc = tokens@.map_values(|t: Token| t@);
            if c == '\\' {
                let next = if i + 1 < cs.len() {
                    i + 2
                } else {
                    cs.len()
                };
                assert(scan(s, i as int + 2, start as int, open, seen, acc) == scan(
                    s,
                    next as int,
                    start as int,
                    open,
                    seen,
                    acc,
                ));
                i = next;
            } else if c == '{' && !open {
                if start < i {
                    let text = string_of_range(cs.as_slice(), start, i);
                    tokens.push(Token::Text(text));
                }
                assert(tokens@.map_values(|t: Token| t@) =~= flush(s, start as int, i as int, acc));
                start = i;
                open = true;
                i = i + 1;
            } else if c == '}' && open {
                let ghost body = s.subrange(start as int, i as int + 1);
                let width = i - start;
                let found: Option<Token> = if width == 1 {
                    assert(body == seq!['{', '}']);
                    Some(Token::Placeholder)
                } else if width == 2 && cs[start + 1] == '%' {
                    assert(body == seq!['{', '%', '}']);
                    Some(Token::Slot)
                } else if width == 2 && cs[start + 1] == '#' {
                    assert(body == seq!['{', '#', '}']);
                    Some(Token::Job)
                } else {
                    assert(brace_token(body) is None) by {
                        assert(body.len() == width + 1);
                        if width == 2 {
                            assert(body[1] == s[start + 1]);
                            assert(body[1] != seq!['{', '%', '}'][1]);
                            assert(body[1] != seq!['{', '#', '}'][1]);
                        }
                    }
                    None
                };
                open = false;
                match found {
                    Some(t) => {
                        match t {
                            Token::Placeholder => {
                                seen = true;
                            },
                            _ => {},
                        }
                        let ghost tv = t@;
                        tokens.push(t);
                        assert(tokens@.map_values(|t: Token| t@) =~= acc.push(tv));
                        start = i + 1;
                    },
                    None => {},
                }
                i = i + 1;
            } else {
                i = i + 1;
            }
        }
        let ghost acc = tokens@.map_values(|t: Token| t@);
        if start < cs.len() {
            let text = string_of_range(cs.as_slice(), start, cs.len());
            tokens.push(Token::Text(text));
        }
        assert(tokens@.map_values(|t: Token| t@) =~= flush(s, start as int, s.len() as int, acc));
        let ghost t = tokens@.map_values(|t: Token| t@);
        if !seen {
            let n = tokens.len();
            if n == 0 {
                tokens.push(Token::Placeholder);
            } else {
                let last = tokens.pop().unwrap();
                match last {
                    Token::Text(x) => {
                        let mut x = x;
                        push_char(&mut x, ' ');
                        tokens.push(Token::Text(x));
                    },
                    other => {
                        tokens.push(other);
                        let mut space = String::new();
                        push_char(&mut space, ' ');
                        tokens.push(Token::Text(space));
                    },
                }
                tokens.push(Token::Placeholder);
            }
        }
        proof {
            assert(tokens@.map_values(|t: Token| t@) == with_placeholder(t, seen));
        }
        Tokens { tokens }
    }
}

} // verus!
