use pdf_signer::util::{
    append_dec, bytes_eq, contains_blob, der_total_len, distinct_blobs, find_from, find_last, find_sub, hex_decode,
    hex_encode, push_dec, push_dec_padded, push_hex_upper, push_int,
};

#[test]
fn finds_the_first_occurrence() {
    assert_eq!(find_sub(b"abcabc", b"bc"), Some(1));
    assert_eq!(find_sub(b"abc", b"d"), None);
    assert_eq!(find_sub(b"", b"d"), None);
    assert_eq!(find_from(b"abcabc", b"bc", 2), Some(4));
    assert_eq!(find_from(b"abcabc", b"bc", 5), None);
}

#[test]
fn finds_the_last_occurrence() {
    assert_eq!(find_last(b"abcabc", b"bc"), Some(4));
    assert_eq!(find_last(b"abc", b"x"), None);
    assert_eq!(find_last(b"a", b"abc"), None);
}

#[test]
fn hex_round_trips() {
    assert_eq!(hex_encode(&[0x00, 0xab, 0xff]), b"00abff".to_vec());
    assert_eq!(hex_decode(b"00ABff"), Some(vec![0x00, 0xab, 0xff]));
    assert_eq!(hex_decode(b""), Some(vec![]));
    assert_eq!(hex_decode(b"0"), None);
    assert_eq!(hex_decode(b"0g"), None);
    let all: Vec<u8> = (0..=255).collect();
    assert_eq!(hex_decode(&hex_encode(&all)), Some(all));
}

#[test]
fn reads_der_lengths() {
    assert_eq!(der_total_len(&[0x30, 0x03, 1, 2, 3, 0, 0]), Some(5));
    assert_eq!(der_total_len(&[0x30, 0x82, 0x01, 0x00]), Some(260));
    assert_eq!(der_total_len(&[0x30, 0x80]), None);
    assert_eq!(der_total_len(&[0x30]), None);
    assert_eq!(der_total_len(&[0x30, 0x85, 1, 1, 1, 1, 1]), None);
}

#[test]
fn writes_decimal_numbers() {
    let mut out = Vec::new();
    push_dec(&mut out, 0);
    out.push(b' ');
    push_dec(&mut out, 18446744073709551615);
    out.push(b' ');
    push_int(&mut out, -9223372036854775808);
    out.push(b' ');
    push_dec_padded(&mut out, 42, 10);
    out.push(b' ');
    push_dec_padded(&mut out, 123456, 5);
    assert_eq!(out, b"0 18446744073709551615 -9223372036854775808 0000000042 123456".to_vec());
    let mut text = String::from("n=");
    append_dec(&mut text, 9070);
    assert_eq!(text, "n=9070");
}

#[test]
fn writes_upper_case_hex() {
    let mut out = Vec::new();
    push_hex_upper(&mut out, 0xaf);
    assert_eq!(out, b"AF".to_vec());
}

#[test]
fn keeps_the_first_of_equal_blobs() {
    let v = vec![vec![2], vec![1], vec![2], vec![], vec![1]];
    assert_eq!(distinct_blobs(&v), vec![vec![2], vec![1], vec![]]);
    assert!(contains_blob(&v, &[]));
    assert!(!contains_blob(&v, &[3]));
    assert!(bytes_eq(b"ab", b"ab"));
    assert!(!bytes_eq(b"ab", b"abc"));
}
