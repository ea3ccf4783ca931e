//! Parsing a rendered template gives the template back.
use vstd::prelude::*;
use crate::template::{
    brace_token, flush, has_placeholder, parse_template, render_template, scan, token_text,
    with_placeholder, TokenView,
};

verus! {

/// Whether a text can stand in a template as it is: it holds no brace and no
/// backslash.
pub open spec fn plain_text(x: Seq<char>) -> bool {
    forall|i: int| 0 <= i < x.len() ==> x[i] != '{' && x[i] != '}' && x[i] != '\\'
}

/// Whether every text of a token list is plain.
pub open spec fn plain_tokens(t: Seq<TokenView>) -> bool {
    forall|i: int| 0 <= i < t.len() ==> (#[trigger] t[i] matches TokenView::Text(x) ==> plain_text(x))
}

/// `t` with adjacent texts merged and empty texts dropped.
pub open spec fn coalesce(t: Seq<TokenView>) -> Seq<TokenView>
    decreases t.len(),
{
    if t.len() == 0 {
        seq![]
    } else {
        let c = coalesce(t.drop_last());
        match t.last() {
            TokenView::Text(x) => if x.len() == 0 {
                c
            } else if c.len() > 0 && c.last() is Text {
                c.drop_last().push(TokenView::Text(c.last()->Text_0 + x))
            } else {
                c.push(TokenView::Text(x))
            },
            other => c.push(other),
        }
    }
}

/// The text at the end of a token list that a following text would join.
spec fn pending(c: Seq<TokenView>) -> Seq<char> {
    if c.len() > 0 && c.last() is Text {
        c.last()->Text_0
    } else {
        seq![]
    }
}

/// A token list without the text at its end.
spec fn settled(c: Seq<TokenView>) -> Seq<TokenView> {
    if c.len() > 0 && c.last() is Text {
        c.drop_last()
    } else {
        c
    }
}

proof fn lemma_render_concat(a: Seq<TokenView>, b: Seq<TokenView>)
    ensures
        render_template(a + b) == render_template(a) + render_template(b),
    decreases b.len(),
{
    if b.len() == 0 {
        assert(a + b == a);
    } else {
        lemma_render_concat(a, b.drop_last());
        assert((a + b).drop_last() == a + b.drop_last());
        assert((a + b).last() == b.last());
    }
}

proof fn lemma_render_coalesce(t: Seq<TokenView>)
    ensures
        render_template(coalesce(t)) == render_template(t),
        forall|i: int|
            0 <= i < coalesce(t).len() ==> (#[trigger] coalesce(t)[i] matches TokenView::Text(x)
                ==> x.len() > 0),
    decreases t.len(),
{
    if t.len() > 0 {
        let c = coalesce(t.drop_last());
        lemma_render_coalesce(t.drop_last());
        match t.last() {
            TokenView::Text(x) => {
                if x.len() == 0 {
                } else if c.len() > 0 && c.last() is Text {
                    let n = c.drop_last().push(TokenView::Text(c.last()->Text_0 + x));
                    assert(n.drop_last() == c.drop_last());
                    assert(c == c.drop_last().push(c.last()));
                    assert(render_template(c) == render_template(c.drop_last()) + c.last()->Text_0);
                    assert forall|i: int| 0 <= i < n.len() implies (#[trigger] n[i] matches TokenView::Text(
                        y,
                    ) ==> y.len() > 0) by {
                        if i < n.len() - 1 {
                            assert(n[i] == c[i]);
                        }
                    }
                } else {
                    let n = c.push(TokenView::Text(x));
                    assert(n.drop_last() == c);
                    assert forall|i: int| 0 <= i < n.len() implies (#[trigger] n[i] matches TokenView::Text(
                        y,
                    ) ==> y.len() > 0) by {
                        if i < n.len() - 1 {
                            assert(n[i] == c[i]);
                        }
                    }
                }
            },
            other => {
                let n = c.push(other);
                assert(n.drop_last() == c);
                assert forall|i: int| 0 <= i < n.len() implies (#[trigger] n[i] matches TokenView::Text(
                    y,
                ) ==> y.len() > 0) by {
                    if i < n.len() - 1 {
                        assert(n[i] == c[i]);
                    }
                }
            },
        }
    }
}

/// Scanning plain characters, outside braces, changes nothing but the
/// position.
proof fn lemma_plain_run(
    s: Seq<char>,
    p: int,
    q: int,
    start: int,
    seen: bool,
    acc: Seq<TokenView>,
)
    requires
        0 <= p <= q <= s.len(),
        forall|j: int| p <= j < q ==> s[j] != '{' && s[j] != '}' && s[j] != '\\',
    ensures
        scan(s, p, start, false, seen, acc) == scan(s, q, start, false, seen, acc),
    decreases q - p,
{
    if p < q {
        lemma_plain_run(s, p + 1, q, start, seen, acc);
    }
}

proof fn lemma_placeholder_take(t: Seq<TokenView>, k: int)
    requires
        0 <= k < t.len(),
    ensures
        has_placeholder(t.take(k + 1)) == (has_placeholder(t.take(k)) || t[k]
            == TokenView::Placeholder),
{
    let a = t.take(k);
    let b = t.take(k + 1);
    if has_placeholder(b) {
        let i = choose|i: int| 0 <= i < b.len() && b[i] == TokenView::Placeholder;
        if i < k {
            assert(a[i] == TokenView::Placeholder);
        }
    }
    if has_placeholder(a) {
        let i = choose|i: int| 0 <= i < a.len() && a[i] == TokenView::Placeholder;
        assert(b[i] == TokenView::Placeholder);
    }
    if t[k] == TokenView::Placeholder {
        assert(b[k] == TokenView::Placeholder);
    }
}

/// After the first `k` tokens of `t`, scanning the rendered template stands
/// at the end of their text, outside braces, with the coalesced tokens so far
/// found except a trailing text, which is pending from its start.
proof fn lemma_scan_prefix(t: Seq<TokenView>, k: int)
    requires
        plain_tokens(t),
        0 <= k <= t.len(),
    ensures
        ({
            let s = render_template(t);
            let p = render_template(t.take(k)).len() as int;
            let c = coalesce(t.take(k));
            scan(s, 0, 0, false, false, seq![]) == scan(
                s,
                p,
                p - pending(c).len(),
                false,
                has_placeholder(t.take(k)),
                settled(c),
            )
        }),
    decreases k,
{
    let s = render_template(t);
    lemma_render_concat(t.take(k), t.skip(k));
    assert(t == t.take(k) + t.skip(k));
    if k == 0 {
        assert(t.take(0) == Seq::<TokenView>::empty());
        assert(!has_placeholder(t.take(0)));
    } else {
        let j = k - 1;
        lemma_scan_prefix(t, j);
        let pre = t.take(j);
        let cur = t.take(k);
        assert(cur.drop_last() == pre);
        assert(cur.last() == t[j]);
        lemma_placeholder_take(t, j);
        let p = render_template(pre).len() as int;
        let c = coalesce(pre);
        let tok = t[j];
        let w = token_text(tok);
        assert(render_template(cur) == render_template(pre) + w);
        lemma_render_concat(cur, t.skip(k));
        assert(t == cur + t.skip(k));
        assert(s == render_template(pre) + w + render_template(t.skip(k)));
        assert forall|i: int| 0 <= i < w.len() implies s[p + i] == w[i] by {
            assert((render_template(pre) + w + render_template(t.skip(k)))[p + i] == w[i]);
        }
        lemma_render_coalesce(pre);
        let seen = has_placeholder(pre);
        let st = p - pending(c).len();
        // the pending text is what the rendered prefix ends with
        assert(render_template(c) == render_template(pre));
        if c.len() > 0 && c.last() is Text {
            assert(c == c.drop_last().push(c.last()));
            assert(render_template(c) == render_template(c.drop_last()) + pending(c));
        }
        assert(s.subrange(st, p) == pending(c)) by {
            assert(s.subrange(0, p) == render_template(pre));
            if c.len() > 0 && c.last() is Text {
                assert(render_template(pre) == render_template(c.drop_last()) + pending(c));
                assert(s.subrange(st, p) == render_template(pre).subrange(st, p));
            }
        }
        // flushing the pending text gives the coalesced tokens back
        assert(flush(s, st, p, settled(c)) == c) by {
            if c.len() > 0 && c.last() is Text {
                assert(c[c.len() - 1] == c.last());
                assert(pending(c).len() > 0);
                assert(c.drop_last().push(TokenView::Text(pending(c))) == c);
            }
        }
        match tok {
            TokenView::Text(y) => {
                assert(plain_text(y)) by {
                    assert(t[j] matches TokenView::Text(x) ==> plain_text(x));
                }
                lemma_plain_run(s, p, p + y.len(), st, seen, settled(c));
                let n = coalesce(cur);
                if y.len() == 0 {
                    assert(n == c);
                } else if c.len() > 0 && c.last() is Text {
                    assert(n == c.drop_last().push(TokenView::Text(pending(c) + y)));
                    assert(n.drop_last() == c.drop_last());
                } else {
                    assert(n == c.push(TokenView::Text(y)));
                    assert(n.drop_last() == c);
                }
            },
            TokenView::Placeholder => {
                let q = p + 2;
                assert(s[p] == '{' && s[p + 1] == '}');
                assert(s.subrange(p, p + 2) == seq!['{', '}']);
                assert(brace_token(s.subrange(p, p + 2)) == Some(TokenView::Placeholder));
                assert(scan(s, p + 1, p, true, seen, c) == scan(s, q, q, false, true, c.push(tok)));
                assert(coalesce(cur) == c.push(tok));
            },
            TokenView::Slot => {
                let q = p + 3;
                assert(s[p] == '{' && s[p + 1] == '%' && s[p + 2] == '}');
                assert(s.subrange(p, p + 3) == seq!['{', '%', '}']);
                assert(brace_token(s.subrange(p, p + 3)) == Some(TokenView::Slot));
                assert(scan(s, p + 1, p, true, seen, c) == scan(s, p + 2, p, true, seen, c));
                assert(scan(s, p + 2, p, true, seen, c) == scan(s, q, q, false, seen, c.push(tok)));
                assert(coalesce(cur) == c.push(tok));
            },
            TokenView::Job => {
                let q = p + 3;
                assert(s[p] == '{' && s[p + 1] == '#' && s[p + 2] == '}');
                assert(s.subrange(p, p + 3) == seq!['{', '#', '}']);
                assert(brace_token(s.subrange(p, p + 3)) == Some(TokenView::Job));
                assert(scan(s, p + 1, p, true, seen, c) == scan(s, p + 2, p, true, seen, c));
                assert(scan(s, p + 2, p, true, seen, c) == scan(s, q, q, false, seen, c.push(tok)));
                assert(coalesce(cur) == c.push(tok));
            },
        }
    }
}

/// Rendering a template that holds a placeholder and only plain texts, then
/// parsing the result, gives the template back with adjacent texts merged and
/// empty texts dropped.
pub proof fn lemma_parse_render(t: Seq<TokenView>)
    requires
        has_placeholder(t),
        plain_tokens(t),
    ensures
        parse_template(render_template(t)) == coalesce(t),
{
    let s = render_template(t);
    lemma_scan_prefix(t, t.len() as int);
    assert(t.take(t.len() as int) == t);
    let c = coalesce(t);
    let p = s.len() as int;
    lemma_render_coalesce(t);
    if c.len() > 0 && c.last() is Text {
        assert(c == c.drop_last().push(c.last()));
        assert(render_template(c) == render_template(c.drop_last()) + pending(c));
        assert(s.subrange(p - pending(c).len(), p) == pending(c));
        assert(c[c.len() - 1] == c.last());
        assert(c.drop_last().push(TokenView::Text(pending(c))) == c);
    }
    assert(flush(s, p - pending(c).len(), p, settled(c)) == c);
}

} // verus!
