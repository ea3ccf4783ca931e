use concurr::decimal::{format_usize, parse_u8, parse_usize};
use concurr::escape::{escape, unescape};

#[test]
fn escape_newlines_and_backslashes() {
    assert_eq!(escape("a\nb\\c"), "a\\nb\\\\c");
    assert_eq!(escape(""), "");
    assert_eq!(escape("\n\n"), "\\n\\n");
}

#[test]
fn unescape_reads_escapes_back() {
    assert_eq!(unescape("a\\nb\\\\c"), "a\nb\\c");
    assert_eq!(unescape("\\x"), "\\x");
    assert_eq!(unescape("end\\"), "end\\");
}

#[test]
fn unescape_of_escape_is_identity() {
    for s in ["", "plain", "a\nb", "\\", "\\n", "\\\\n\n", "é\nü\\", "\r\n"] {
        assert_eq!(unescape(&escape(s)), s);
    }
}

#[test]
fn escaped_text_has_no_newline() {
    assert!(!escape("x\ny\n\nz").contains('\n'));
}

#[test]
fn decimal_writing() {
    assert_eq!(format_usize(0), "0");
    assert_eq!(format_usize(7), "7");
    assert_eq!(format_usize(1234), "1234");
    assert_eq!(format_usize(usize::MAX), usize::MAX.to_string());
}

#[test]
fn decimal_reading() {
    assert_eq!(parse_usize(b"42"), Some(42));
    assert_eq!(parse_usize(b"+42"), Some(42));
    assert_eq!(parse_usize(b"007"), Some(7));
    assert_eq!(parse_usize(b""), None);
    assert_eq!(parse_usize(b"+"), None);
    assert_eq!(parse_usize(b"-1"), None);
    assert_eq!(parse_usize(b"12a"), None);
    assert_eq!(parse_usize(b" 1"), None);
    let over = format!("{}0", usize::MAX);
    assert_eq!(parse_usize(over.as_bytes()), None);
    assert_eq!(parse_usize(usize::MAX.to_string().as_bytes()), Some(usize::MAX));
}

#[test]
fn status_byte_reading() {
    assert_eq!(parse_u8(b"0"), Some(0));
    assert_eq!(parse_u8(b"255"), Some(255));
    assert_eq!(parse_u8(b"256"), None);
    assert_eq!(parse_u8(b"1000"), None);
}
