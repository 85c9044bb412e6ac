use pdf_signer::der_reader::{read_value, write_short};
use pdf_signer::text::{
    chars_of, from_utf8_lossy, has_text, parse_signed, parse_unsigned, split_at_char, split_words, trim_chars, white,
};
use pdf_signer::Error;

fn chars(s: &str) -> Vec<char> {
    chars_of(s)
}

fn strings(v: Vec<Vec<char>>) -> Vec<String> {
    v.iter().map(|l| l.iter().collect()).collect()
}

#[test]
fn white_space_is_unicode() {
    for c in (0..=0x10ffffu32).filter_map(char::from_u32) {
        assert_eq!(white(c), c.is_whitespace(), "{:?}", c);
    }
}

#[test]
fn splits_like_std() {
    for s in ["", " ", "a", "  a  b\u{2003}c ", "a;b;;c;", "\n"] {
        let words: Vec<&str> = s.split_whitespace().collect();
        assert_eq!(strings(split_words(&chars(s))), words);
        let parts: Vec<&str> = s.split(';').collect();
        assert_eq!(strings(split_at_char(&chars(s), ';')), parts);
        let trimmed: String = trim_chars(&chars(s)).iter().collect();
        assert_eq!(trimmed, s.trim());
    }
    assert!(has_text(&chars("HTTP/1.1 200 OK"), &chars(" 200")));
    assert!(!has_text(&chars("HTTP/1.1 404"), &chars(" 200")));
}

#[test]
fn parses_like_std() {
    for s in ["", "+", "-", "0", "+7", "-7", "65535", "65536", "x1", "1x", "00012", "99999999999999999999"] {
        match s.parse::<u16>() {
            Ok(n) => assert_eq!(parse_unsigned(&chars(s), 10, 65535), Ok(n as u64)),
            Err(e) => assert_eq!(parse_unsigned(&chars(s), 10, 65535), Err(e.to_string().as_str()).map_err(leak)),
        }
        assert_eq!(parse_signed(&chars(s)), s.parse::<i64>().ok(), "{}", s);
    }
    for s in ["ff", "FF", "g", "", "10"] {
        match u64::from_str_radix(s, 16) {
            Ok(n) => assert_eq!(parse_unsigned(&chars(s), 16, u64::MAX), Ok(n)),
            Err(_) => assert!(parse_unsigned(&chars(s), 16, u64::MAX).is_err()),
        }
    }
    for s in ["-9223372036854775808", "-9223372036854775809", "9223372036854775807", "9223372036854775808"] {
        assert_eq!(parse_signed(&chars(s)), s.parse::<i64>().ok());
    }
}

fn leak(s: &str) -> &'static str {
    Box::leak(s.to_string().into_boxed_str())
}

#[test]
fn replaces_what_is_no_utf8() {
    assert_eq!(from_utf8_lossy(b"ab\xffc"), "ab\u{fffd}c");
    assert_eq!(from_utf8_lossy("\u{e9}".as_bytes()), "\u{e9}");
}

#[test]
fn der_values_read_back() {
    let v = write_short(0x04, &[1, 2, 3]);
    assert_eq!(v, vec![0x04, 0x03, 1, 2, 3]);
    let r = read_value(&v, 0).unwrap();
    assert_eq!((r.tag, r.start, r.end), (0x04, 2, 5));
    assert!(read_value(&v[..4], 0).is_none());
    assert!(read_value(&[0x30, 0x80, 0, 0], 0).is_none());
    // A length that a shorter form could give.
    assert!(read_value(&[0x04, 0x81, 0x01, 0x00], 0).is_none());
}

#[test]
fn errors_have_messages() {
    assert_eq!(Error::Io("x".to_string()).message(), "I/O error: x");
    assert_eq!(Error::Pdf("x".to_string()).message(), "PDF parsing/serialization error: x");
    assert_eq!(Error::Crypto("x".to_string()).message(), "cryptography error: x");
    assert_eq!(
        Error::PlaceholderTooSmall { needed: 12, capacity: 3 }.message(),
        "signature does not fit in reserved placeholder: need 12 bytes, have 3"
    );
    assert_eq!(Error::Malformed("x".to_string()).message(), "malformed PDF: x");
    assert_eq!(Error::Verification("x".to_string()).message(), "signature verification failed: x");
}
