//! Conversions between strings, character vectors and bytes.
use vstd::prelude::*;
use vstd::utf8::*;

verus! {

/// The characters of `s`, in order.
pub fn chars_of(s: &str) -> (r: Vec<char>)
    ensures
        r@ == s@,
{
    let mut r: Vec<char> = Vec::new();
    for c in it: s.chars()
        invariant
            r@ == it.seq().take(it.index() as int),
    {
        r.push(c);
    }
    r
}

/// Relies on `String::push`: appends one character at the end.
#[verifier::external_body]
pub(crate) fn push_char(s: &mut String, c: char)
    ensures
        final(s)@ == old(s)@.push(c),
{
    s.push(c)
}

/// The string made of the characters of `v` from index `from` up to `to`.
pub fn string_of_range(v: &[char], from: usize, to: usize) -> (r: String)
    requires
        from <= to <= v@.len(),
    ensures
        r@ == v@.subrange(from as int, to as int),
{
    let mut r = String::new();
    let mut i: usize = from;
    while i < to
        invariant
            from <= i <= to <= v@.len(),
            r@ == v@.subrange(from as int, i as int),
        decreases to - i,
    {
        push_char(&mut r, v[i]);
        assert(v@.subrange(from as int, i as int + 1) == v@.subrange(from as int, i as int).push(
            v@[i as int],
        ));
        i = i + 1;
    }
    r
}

/// The encoding of one character holds the ASCII byte `b` only when the
/// character is `b` itself.
proof fn lemma_scalar_ascii_byte(c: char, b: u8)
    requires
        b < 0x80,
        c as u32 != b as u32,
    ensures
        !encode_scalar(c as u32).contains(b),
{
    let v = c as u32;
    char_is_scalar(c);
    if has_width_1_encoding(v) {
        assert((v & 0x7F) as u8 == v) by (bit_vector)
            requires
                v <= 0x7F,
        ;
        assert(encode_scalar(v)[0] == v as u8);
    } else {
        let e = encode_scalar(v);
        assert forall|y: u8| #[trigger] (0x80u8 | y) >= 0x80 by {
            assert((0x80u8 | y) >= 0x80) by (bit_vector);
        }
        assert forall|y: u8| #[trigger] (0xC0u8 | y) >= 0x80 by {
            assert((0xC0u8 | y) >= 0x80) by (bit_vector);
        }
        assert forall|y: u8| #[trigger] (0xE0u8 | y) >= 0x80 by {
            assert((0xE0u8 | y) >= 0x80) by (bit_vector);
        }
        assert forall|y: u8| #[trigger] (0xF0u8 | y) >= 0x80 by {
            assert((0xF0u8 | y) >= 0x80) by (bit_vector);
        }
        assert forall|i: int| 0 <= i < e.len() implies e[i] >= 0x80 by {}
    }
}

/// The UTF-8 encoding of `s` holds the ASCII byte `b` only where `s` holds
/// that character.
pub proof fn lemma_utf8_ascii_byte(s: Seq<char>, b: u8)
    requires
        b < 0x80,
        forall|i: int| 0 <= i < s.len() ==> s[i] as u32 != b as u32,
    ensures
        !encode_utf8(s).contains(b),
    decreases s.len(),
{
    if s.len() > 0 {
        lemma_scalar_ascii_byte(s[0], b);
        lemma_utf8_ascii_byte(s.drop_first(), b);
        let h = encode_scalar(s[0] as u32);
        let t = encode_utf8(s.drop_first());
        assert(encode_utf8(s) == h + t);
        assert forall|i: int| 0 <= i < (h + t).len() implies (h + t)[i] != b by {
            if i < h.len() {
                assert(h[i] != b);
            } else {
                assert((h + t)[i] == t[i - h.len()]);
            }
        }
    }
}

/// Encoding distributes over concatenation.
pub proof fn lemma_utf8_concat(a: Seq<char>, b: Seq<char>)
    ensures
        encode_utf8(a + b) == encode_utf8(a) + encode_utf8(b),
    decreases a.len(),
{
    if a.len() > 0 {
        lemma_utf8_concat(a.drop_first(), b);
        assert((a + b).drop_first() == a.drop_first() + b);
        assert((a + b)[0] == a[0]);
    } else {
        assert(a + b == b);
    }
}

/// Relies on `std::str::from_utf8`: the bytes are accepted exactly when they
/// are valid UTF-8, and then read as the characters they encode.
#[verifier::external_body]
pub(crate) fn utf8_text(b: &[u8]) -> (r: Option<String>)
    ensures
        r is Some <==> valid_utf8(b@),
        r is Some ==> r->0@ == decode_utf8(b@),
{
    match std::str::from_utf8(b) {
        Ok(s) => Some(String::from(s)),
        Err(_) => None,
    }
}

} // verus!
