//! Decimal numbers as text: writing them and reading them back.
use vstd::prelude::*;
use crate::text::push_char;

verus! {

/// The character of the decimal digit `d`.
pub open spec fn digit_char(d: nat) -> char
    recommends
        d < 10,
{
    ((d + 48) as u8) as char
}

/// The shortest decimal writing of `n`.
pub open spec fn decimal(n: nat) -> Seq<char>
    decreases n,
{
    if n < 10 {
        seq![digit_char(n)]
    } else {
        decimal(n / 10).push(digit_char(n % 10))
    }
}

/// The shortest decimal writing of `n`, as ASCII bytes.
pub open spec fn decimal_bytes(n: nat) -> Seq<u8>
    decreases n,
{
    if n < 10 {
        seq![(n + 48) as u8]
    } else {
        decimal_bytes(n / 10).push((n % 10 + 48) as u8)
    }
}

/// Whether `b` is one of the ASCII digits `0` to `9`.
pub open spec fn is_digit(b: u8) -> bool {
    48 <= b <= 57
}

/// Whether every byte of `s` is an ASCII digit.
pub open spec fn all_digits(s: Seq<u8>) -> bool {
    forall|i: int| 0 <= i < s.len() ==> is_digit(#[trigger] s[i])
}

/// The value of a sequence of ASCII digits.
pub open spec fn digits_value(s: Seq<u8>) -> nat
    decreases s.len(),
{
    if s.len() == 0 {
        0
    } else {
        digits_value(s.drop_last()) * 10 + (s.last() - 48) as nat
    }
}

/// Whether `s` is a decimal number: an optional `+` and at least one digit.
pub open spec fn is_decimal(s: Seq<u8>) -> bool {
    if s.len() > 0 && s[0] == 43 {
        s.len() > 1 && all_digits(s.drop_first())
    } else {
        s.len() > 0 && all_digits(s)
    }
}

/// The value that a decimal number `s` writes.
pub open spec fn decimal_value(s: Seq<u8>) -> nat {
    if s.len() > 0 && s[0] == 43 {
        digits_value(s.drop_first())
    } else {
        digits_value(s)
    }
}

/// What reading `s` as a decimal number no larger than `max` gives.
pub open spec fn read_decimal(s: Seq<u8>, max: nat) -> Option<nat> {
    if is_decimal(s) && decimal_value(s) <= max {
        Some(decimal_value(s))
    } else {
        None
    }
}

/// The decimal writing of `n` is made of digits and reads back as `n`.
pub proof fn lemma_decimal_reads_back(n: nat)
    ensures
        all_digits(decimal_bytes(n)),
        decimal_bytes(n).len() > 0,
        decimal_bytes(n)[0] != 43,
        digits_value(decimal_bytes(n)) == n,
        is_decimal(decimal_bytes(n)),
        decimal_value(decimal_bytes(n)) == n,
    decreases n,
{
    let d = n % 10;
    if n >= 10 {
        lemma_decimal_reads_back(n / 10);
        let p = decimal_bytes(n / 10);
        assert(decimal_bytes(n).drop_last() == p);
        assert(decimal_bytes(n)[0] == p[0]);
        vstd::arithmetic::div_mod::lemma_fundamental_div_mod(n as int, 10);
    } else {
        assert(decimal_bytes(n).drop_last() =~= seq![]);
        assert(digits_value(decimal_bytes(n).drop_last()) == 0);
    }
}

/// A decimal writing holds neither a space nor a line feed.
pub proof fn lemma_decimal_plain(n: nat)
    ensures
        !decimal_bytes(n).contains(32u8),
        !decimal_bytes(n).contains(10u8),
        !decimal_bytes(n).contains(13u8),
{
    lemma_decimal_reads_back(n);
}

/// A longer run of digits is worth at least as much as its prefix.
proof fn lemma_digits_value_prefix(s: Seq<u8>, k: int)
    requires
        0 <= k <= s.len(),
        all_digits(s),
    ensures
        digits_value(s.subrange(0, k)) <= digits_value(s),
    decreases s.len(),
{
    if k < s.len() {
        let p = s.drop_last();
        assert(all_digits(p)) by {
            assert forall|i: int| 0 <= i < p.len() implies is_digit(#[trigger] p[i]) by {
                assert(p[i] == s[i]);
            }
        }
        lemma_digits_value_prefix(p, k);
        assert(p.subrange(0, k) == s.subrange(0, k));
    } else {
        assert(s.subrange(0, k) == s);
    }
}

/// Appends the decimal writing of `n` to `r`.
pub fn push_decimal(r: &mut String, n: usize)
    ensures
        final(r)@ == old(r)@ + decimal(n as nat),
    decreases n,
{
    if n >= 10 {
        push_decimal(r, n / 10);
    }
    let d = (n % 10) as u8;
    push_char(r, (d + 48) as char);
}

/// Writes `n` in decimal.
pub fn format_usize(n: usize) -> (r: String)
    ensures
        r@ == decimal(n as nat),
{
    let mut r = String::new();
    push_decimal(&mut r, n);
    assert(r@ =~= decimal(n as nat));
    r
}

/// Appends the decimal writing of `n` to `v`.
pub fn push_decimal_bytes(v: &mut Vec<u8>, n: usize)
    ensures
        final(v)@ == old(v)@ + decimal_bytes(n as nat),
    decreases n,
{
    if n >= 10 {
        push_decimal_bytes(v, n / 10);
    }
    let d = (n % 10) as u8;
    v.push(d + 48);
    assert(final(v)@ =~= old(v)@ + decimal_bytes(n as nat));
}

/// Reads a decimal number no larger than `max` from the bytes `s[from..to]`.
fn read_bounded(s: &[u8], from: usize, to: usize, max: u64) -> (r: Option<u64>)
    requires
        from <= to <= s@.len(),
    ensures
        r matches Some(v) ==> read_decimal(s@.subrange(from as int, to as int), max as nat) == Some(
            v as nat,
        ),
        r is None ==> read_decimal(s@.subrange(from as int, to as int), max as nat) is None,
{
    let ghost t = s@.subrange(from as int, to as int);
    let mut i: usize = from;
    if from < to && s[from] == 43 {
        i = from + 1;
    }
    let ghost digits = s@.subrange(i as int, to as int);
    assert(decimal_value(t) == digits_value(digits) && (is_decimal(t) <==> (digits.len() > 0
        && all_digits(digits)))) by {
        if from < to && s@[from as int] == 43 {
            assert(t.drop_first() == digits);
        } else {
            assert(t == digits);
        }
    }
    if i == to {
        return None;
    }
    let start = i;
    let mut value: u64 = 0;
    while i < to
        invariant
            from <= start <= i <= to <= s@.len(),
            digits == s@.subrange(start as int, to as int),
            t == s@.subrange(from as int, to as int),
            decimal_value(t) == digits_value(digits),
            is_decimal(t) <==> (digits.len() > 0 && all_digits(digits)),
            all_digits(s@.subrange(start as int, i as int)),
            value as nat == digits_value(s@.subrange(start as int, i as int)),
            value <= max,
        decreases to - i,
    {
        let b = s[i];
        let ghost done = s@.subrange(start as int, i as int);
        let ghost next = s@.subrange(start as int, i as int + 1);
        assert(next.drop_last() == done);
        if b < 48 || b > 57 {
            assert(!all_digits(digits)) by {
                assert(digits[i - start] == b);
            }
            return None;
        }
        let d = (b - 48) as u64;
        if d > max || value > (max - d) / 10 {
            proof {
                assert(digits_value(next) == value * 10 + d);
                if d <= max {
                    assert(value * 10 + d > max) by (nonlinear_arith)
                        requires
                            value > (max - d) / 10,
                            d <= max,
                    ;
                }
                assert(digits.subrange(0, (i - start) as int + 1) == next);
                if all_digits(digits) {
                    lemma_digits_value_prefix(digits, (i - start) as int + 1);
                }
            }
            return None;
        }
        assert(value * 10 + d <= max) by (nonlinear_arith)
            requires
                value <= (max - d) / 10,
                d <= max,
        ;
        value = value * 10 + d;
        i = i + 1;
    }
    assert(s@.subrange(start as int, i as int) == digits);
    Some(value)
}

/// Reads a decimal `usize`: an optional `+` and digits, with no other
/// character, and no larger than `usize::MAX`.
pub fn parse_usize(input: &[u8]) -> (r: Option<usize>)
    ensures
        r matches Some(v) ==> read_decimal(input@, usize::MAX as nat) == Some(v as nat),
        r is None ==> read_decimal(input@, usize::MAX as nat) is None,
{
    assert(input@.subrange(0, input@.len() as int) == input@);
    match read_bounded(input, 0, input.len(), usize::MAX as u64) {
        Some(v) => Some(v as usize),
        None => None,
    }
}

/// Reads a decimal `u8`: an optional `+` and digits, with no other
/// character, and no larger than 255.
pub fn parse_u8(input: &[u8]) -> (r: Option<u8>)
    ensures
        r matches Some(v) ==> read_decimal(input@, 255) == Some(v as nat),
        r is None ==> read_decimal(input@, 255) is None,
{
    assert(input@.subrange(0, input@.len() as int) == input@);
    match read_bounded(input, 0, input.len(), 255) {
        Some(v) => Some(v as u8),
        None => None,
    }
}

} // verus!
