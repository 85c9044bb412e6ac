use pdf_signer::http::{dechunk, http_get, http_post, http_response};
use pdf_signer::tsa::{build_timestamp_request, read_timestamp_reply};

fn text(r: Result<Vec<u8>, pdf_signer::Error>) -> String {
    r.unwrap_err().message()
}

#[test]
fn builds_a_post_request() {
    let o = http_post("http://tsa.example.org:8080/stamp?x=1", "application/timestamp-query", b"abc").unwrap();
    assert_eq!(o.host, "tsa.example.org");
    assert_eq!(o.port, 8080);
    assert_eq!(
        String::from_utf8(o.bytes).unwrap(),
        "POST /stamp?x=1 HTTP/1.1\r\nHost: tsa.example.org\r\nConnection: close\r\nUser-Agent: pdf_signer\r\nContent-Type: application/timestamp-query\r\nContent-Length: 3\r\n\r\nabc"
    );
}

#[test]
fn builds_a_get_request() {
    let o = http_get("http://crl.example.org").unwrap();
    assert_eq!(o.host, "crl.example.org");
    assert_eq!(o.port, 80);
    assert_eq!(
        String::from_utf8(o.bytes).unwrap(),
        "GET / HTTP/1.1\r\nHost: crl.example.org\r\nConnection: close\r\nUser-Agent: pdf_signer\r\n\r\n"
    );
}

#[test]
fn refuses_other_urls() {
    assert_eq!(
        http_get("https://example.org").unwrap_err().message(),
        "cryptography error: URL must start with http:// (https is not supported)"
    );
    assert_eq!(
        http_get("http://h:70000/").unwrap_err().message(),
        "cryptography error: number too large to fit in target type"
    );
    assert_eq!(http_get("http://h:x/").unwrap_err().message(), "cryptography error: invalid digit found in string");
    assert_eq!(
        http_get("http://h:/").unwrap_err().message(),
        "cryptography error: cannot parse integer from empty string"
    );
}

#[test]
fn takes_the_body_out_of_a_reply() {
    assert_eq!(http_response(b"HTTP/1.1 200 OK\r\nA: b\r\n\r\nbody\r\n\r\n").unwrap(), b"body\r\n\r\n".to_vec());
    assert_eq!(
        http_response(b"HTTP/1.1 200 OK\r\nTRANSFER-Encoding: Chunked\r\n\r\n3\r\nabc\r\n0\r\n\r\n").unwrap(),
        b"abc".to_vec()
    );
    assert_eq!(text(http_response(b"HTTP/1.1 404 Not Found\r\n\r\n")), "cryptography error: HTTP error: HTTP/1.1 404 Not Found");
    assert_eq!(text(http_response(b"HTTP/1.1 200 OK\r\n")), "cryptography error: malformed HTTP response");
}

#[test]
fn joins_chunks() {
    assert_eq!(dechunk(b"4;x=y\r\nWiki\r\n A \r\n0123456789\r\n0\r\n\r\n").unwrap(), b"Wiki0123456789".to_vec());
    assert_eq!(dechunk(b"").unwrap(), Vec::<u8>::new());
    assert_eq!(text(dechunk(b"5")), "cryptography error: bad chunk header");
    assert_eq!(text(dechunk(b"z\r\n")), "cryptography error: invalid digit found in string");
    assert_eq!(text(dechunk(b"5\r\nab")), "cryptography error: truncated chunk");
}

#[test]
fn timestamp_request_is_exact() {
    // SHA-256 of "abc".
    let digest = pdf_signer::util::hex_decode(b"ba7816bf8f01cfea414140de5dae2223b00361a396177a9cb410ff61f20015ad").unwrap();
    let mut expected = vec![
        0x30, 0x37, 0x02, 0x01, 0x01, 0x30, 0x2f, 0x30, 0x0b, 0x06, 0x09, 0x60, 0x86, 0x48, 0x01, 0x65, 0x03, 0x04, 0x02,
        0x01, 0x04, 0x20,
    ];
    expected.extend_from_slice(&digest);
    expected.extend_from_slice(&[0x01, 0x01, 0xff]);
    assert_eq!(build_timestamp_request(b"abc"), expected);
}

#[test]
fn reads_timestamp_replies() {
    // A token of type id-data with an empty octet string for content.
    let token = [
        0x30u8, 0x0f, 0x06, 0x09, 0x2a, 0x86, 0x48, 0x86, 0xf7, 0x0d, 0x01, 0x07, 0x01, 0xa0, 0x02, 0x04, 0x00,
    ];
    let mut granted = vec![0x30, 0x16, 0x30, 0x03, 0x02, 0x01, 0x00];
    granted.extend_from_slice(&token);
    assert_eq!(read_timestamp_reply(&granted).unwrap(), token.to_vec());
    granted[6] = 1;
    assert_eq!(read_timestamp_reply(&granted).unwrap(), token.to_vec());
    granted[6] = 2;
    assert_eq!(text(read_timestamp_reply(&granted)), "cryptography error: TSA rejected the request (PKIStatus 2)");
    assert_eq!(
        text(read_timestamp_reply(&[0x30, 0x05, 0x30, 0x03, 0x02, 0x01, 0x00])),
        "cryptography error: TSA response carried no timestamp token"
    );
    assert!(text(read_timestamp_reply(b"junk")).starts_with("cryptography error: malformed TSA response: "));
}

#[test]
fn unknown_tags_in_a_status_are_malformed() {
    // Behind the status stands a value whose tag is none of those of the encoding.
    let reply = [0x30u8, 0x07, 0x30, 0x05, 0x02, 0x01, 0x00, 0x0b, 0x00];
    assert!(text(read_timestamp_reply(&reply)).starts_with("cryptography error: malformed TSA response: "));
    // With a known one the token is what is missing.
    let reply = [0x30u8, 0x07, 0x30, 0x05, 0x02, 0x01, 0x00, 0x05, 0x00];
    assert_eq!(text(read_timestamp_reply(&reply)), "cryptography error: TSA response carried no timestamp token");
}

#[test]
fn trailers_behind_the_chunks_are_left_out() {
    assert_eq!(dechunk(b"3\r\nabc\r\n0\r\nX-Checksum: 5\r\n\r\n").unwrap(), b"abc".to_vec());
    assert_eq!(dechunk(b"3\r\nabc\r\n0\r\n").unwrap(), b"abc".to_vec());
}
