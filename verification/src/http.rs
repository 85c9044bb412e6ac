//! A minimal HTTP/1.1 client's messages: what to send, and what a reply holds.
//! Only `http://` endpoints are supported.
use vstd::prelude::*;
use vstd::utf8::{
    encode_utf8, encode_utf8_decode_utf8, encode_utf8_valid_utf8, is_ascii_chars, is_ascii_chars_encode_utf8,
};

use crate::error::{bytes_result, crypto, Error, ErrorView};
use crate::names::after_last;
use crate::text::{
    chars_of, contains_text, digit_in, digits_from, find_char, from_utf8_lossy, has_text, invalid_digit, is_text_at, is_white,
    lossy_text, lowercase, next_char, part, parse_unsigned, skip_white, string_of, text_at, to_lowercase, too_large, trim,
    trim_chars, unsigned,
};
use crate::util::{
    dec, find_sub, first_from, hex_digit, lemma_first_from, lemma_first_from_is, lemma_lit, lit, occurs_at, push_dec,
    push_str, raw, to_vec, utf8,
};

verus! {

// ---------------------------------------------------------------------------
// Requests

/// A request that is ready to be sent: the host and the port to connect to, and the
/// bytes to write.
#[derive(Debug)]
pub struct Outgoing {
    pub host: String,
    pub port: u16,
    pub bytes: Vec<u8>,
}

/// A request as a mathematical value.
pub struct OutgoingView {
    pub host: Seq<char>,
    pub port: u16,
    pub bytes: Seq<u8>,
}

impl Outgoing {
    pub open spec fn view(&self) -> OutgoingView {
        OutgoingView { host: self.host@, port: self.port, bytes: self.bytes@ }
    }
}

/// The view of the result of preparing a request.
pub open spec fn outgoing_result(r: Result<Outgoing, Error>) -> Result<OutgoingView, ErrorView> {
    match r {
        Ok(o) => Ok(o@),
        Err(e) => Err(e@),
    }
}

/// `s` begins with `t`.
pub open spec fn starts_with(s: Seq<char>, t: Seq<char>) -> bool {
    text_at(s, t, 0)
}

/// The authority of an `http://` URL without its scheme.
pub open spec fn authority_of(rest: Seq<char>) -> Seq<char> {
    rest.take(next_char(rest, '/', 0))
}

/// The path of an `http://` URL without its scheme.
pub open spec fn path_of(rest: Seq<char>) -> Seq<char> {
    let i = next_char(rest, '/', 0);
    if i < rest.len() {
        rest.skip(i)
    } else {
        "/"@
    }
}

/// Host and port of an authority; the port is 80 where none is given.
pub open spec fn host_and_port(authority: Seq<char>) -> Result<(Seq<char>, nat), Seq<char>> {
    let i = after_last(authority, ':', authority.len() as int);
    if i == 0 {
        Ok((authority, 80))
    } else {
        match unsigned(authority.skip(i), 10, u16::MAX as nat) {
            Err(t) => Err(t),
            Ok(port) => Ok((authority.take(i - 1), port)),
        }
    }
}

/// The head of a request.
pub open spec fn request_head(method: Seq<char>, path: Seq<char>, host: Seq<char>) -> Seq<u8> {
    utf8(method) + lit(" ") + utf8(path) + lit(" HTTP/1.1\r\nHost: ") + utf8(host) + lit(
        "\r\nConnection: close\r\nUser-Agent: pdf_signer\r\n",
    )
}

/// The head fields of a request with a body.
pub open spec fn body_head(content_type: Option<Seq<char>>, len: nat) -> Seq<u8> {
    match content_type {
        Some(ct) => lit("Content-Type: ") + utf8(ct) + lit("\r\nContent-Length: ") + dec(len) + lit("\r\n"),
        None => Seq::empty(),
    }
}

/// The request for a URL.
pub open spec fn request_for(
    method: Seq<char>,
    url: Seq<char>,
    content_type: Option<Seq<char>>,
    body: Seq<u8>,
) -> Result<OutgoingView, ErrorView> {
    if !starts_with(url, "http://"@) {
        Err(ErrorView::Crypto("URL must start with http:// (https is not supported)"@))
    } else {
        let rest = url.skip("http://"@.len() as int);
        match host_and_port(authority_of(rest)) {
            Err(t) => Err(ErrorView::Crypto(t)),
            Ok((host, port)) => Ok(
                OutgoingView {
                    host,
                    port: port as u16,
                    bytes: request_head(method, path_of(rest), host) + body_head(content_type, body.len()) + lit(
                        "\r\n",
                    ) + body,
                },
            ),
        }
    }
}

/// The view of an optional text.
pub open spec fn opt_text(o: Option<&str>) -> Option<Seq<char>> {
    match o {
        Some(s) => Some(s@),
        None => None,
    }
}

fn read_host_and_port(authority: &[char]) -> (r: Result<(Vec<char>, u16), &'static str>)
    ensures
        match host_and_port(authority@) {
            Ok((host, port)) => r matches Ok((h, p)) && h@ == host && p == port,
            Err(t) => r is Err && r->Err_0@ == t,
        },
{
    let mut n: usize = authority.len();
    while n > 0 && authority[n - 1] != ':'
        invariant
            n <= authority.len(),
            after_last(authority@, ':', authority@.len() as int) == after_last(authority@, ':', n as int),
        decreases n,
    {
        n -= 1;
    }
    if n == 0 {
        let host: Vec<char> = part(authority, 0, authority.len());
        assert(host@ =~= authority@);
        return Ok((host, 80));
    }
    let digits: Vec<char> = part(authority, n, authority.len());
    assert(digits@ =~= authority@.skip(n as int));
    match parse_unsigned(&digits, 10, u16::MAX as u64) {
        Err(t) => Err(t),
        Ok(p) => {
            let host: Vec<char> = part(authority, 0, n - 1);
            assert(host@ =~= authority@.take(n - 1));
            Ok((host, p as u16))
        },
    }
}

/// Prepares a request for `url`.
pub fn fetch(method: &str, url: &str, content_type: Option<&str>, body: &[u8]) -> (r: Result<Outgoing, Error>)
    ensures
        outgoing_result(r) == request_for(method@, url@, opt_text(content_type), body@),
{
    let scheme: Vec<char> = chars_of("http://");
    let chars: Vec<char> = chars_of(url);
    if !is_text_at(&chars, &scheme, 0) {
        return Err(crypto("URL must start with http:// (https is not supported)"));
    }
    let rest: Vec<char> = part(&chars, scheme.len(), chars.len());
    assert(rest@ =~= url@.skip(scheme@.len() as int));
    let i: usize = find_char(&rest, '/', 0);
    let authority: Vec<char> = part(&rest, 0, i);
    assert(authority@ =~= authority_of(rest@));
    let path: String = if i < rest.len() {
        let p: Vec<char> = part(&rest, i, rest.len());
        assert(p@ =~= rest@.skip(i as int));
        string_of(&p)
    } else {
        "/".to_owned()
    };
    let (host_chars, port) = match read_host_and_port(&authority) {
        Err(t) => {
            return Err(crypto(t));
        },
        Ok(p) => p,
    };
    let host: String = string_of(&host_chars);
    let mut bytes: Vec<u8> = Vec::new();
    push_str(&mut bytes, method);
    push_str(&mut bytes, " ");
    push_str(&mut bytes, path.as_str());
    push_str(&mut bytes, " HTTP/1.1\r\nHost: ");
    push_str(&mut bytes, host.as_str());
    push_str(&mut bytes, "\r\nConnection: close\r\nUser-Agent: pdf_signer\r\n");
    assert(bytes@ =~= request_head(method@, path@, host@));
    let ghost head = bytes@;
    if let Some(ct) = content_type {
        push_str(&mut bytes, "Content-Type: ");
        push_str(&mut bytes, ct);
        push_str(&mut bytes, "\r\nContent-Length: ");
        push_dec(&mut bytes, body.len() as u64);
        push_str(&mut bytes, "\r\n");
    }
    assert(bytes@ =~= head + body_head(opt_text(content_type), body@.len()));
    push_str(&mut bytes, "\r\n");
    bytes.extend_from_slice(body);
    proof {
        assert(path@ == path_of(rest@));
        assert(host_and_port(authority@) == Ok::<(Seq<char>, nat), Seq<char>>((host@, port as nat)));
        assert(rest@ == url@.skip("http://"@.len() as int));
        assert(bytes@ == request_head(method@, path_of(rest@), host@) + body_head(opt_text(content_type), body@.len())
            + lit("\r\n") + body@);
    }
    Ok(Outgoing { host, port, bytes })
}

/// POST `body` to `url`: the request to send.
pub fn http_post(url: &str, content_type: &str, body: &[u8]) -> (r: Result<Outgoing, Error>)
    ensures
        outgoing_result(r) == request_for("POST"@, url@, Some(content_type@), body@),
{
    fetch("POST", url, Some(content_type), body)
}

/// GET `url` (used to fetch CRLs for the DSS): the request to send.
pub fn http_get(url: &str) -> (r: Result<Outgoing, Error>)
    ensures
        outgoing_result(r) == request_for("GET"@, url@, None, Seq::empty()),
{
    let none: [u8; 0] = [];
    assert(none@ =~= Seq::empty());
    fetch("GET", url, None, &none)
}

// ---------------------------------------------------------------------------
// Chunked transfer encoding

/// The size field of a chunk: what stands before a semicolon, without white space.
pub open spec fn size_field(line: Seq<u8>) -> Seq<char> {
    let text = lossy_text(line);
    trim(text.take(next_char(text, ';', 0)))
}

/// What is left of the data behind a chunk.
pub open spec fn behind_chunk(data: Seq<u8>, end: int) -> Seq<u8> {
    if end + 2 < data.len() {
        data.skip(end + 2)
    } else {
        Seq::empty()
    }
}

/// The data of HTTP/1.1 chunked transfer-encoding.
pub open spec fn dechunked(data: Seq<u8>) -> Result<Seq<u8>, ErrorView>
    decreases data.len(),
    via dechunked_ends
{
    if data.len() == 0 {
        Ok(Seq::empty())
    } else {
        match first_from(data, lit("\r\n"), 0) {
            None => Err(ErrorView::Crypto("bad chunk header"@)),
            Some(e) => match unsigned(size_field(data.take(e)), 16, usize::MAX as nat) {
                Err(t) => Err(ErrorView::Crypto(t)),
                Ok(size) => if size == 0 {
                    Ok(Seq::empty())
                } else if e + 2 + size > data.len() {
                    Err(ErrorView::Crypto("truncated chunk"@))
                } else {
                    match dechunked(behind_chunk(data, e + 2 + size)) {
                        Err(x) => Err(x),
                        Ok(rest) => Ok(data.subrange(e + 2, e + 2 + size) + rest),
                    }
                },
            },
        }
    }
}

#[via_fn]
proof fn dechunked_ends(data: Seq<u8>) {
    if data.len() > 0 {
        lemma_first_from(data, lit("\r\n"), 0);
    }
}

/// Decode HTTP/1.1 chunked transfer-encoding.
pub fn dechunk(data: &[u8]) -> (r: Result<Vec<u8>, Error>)
    ensures
        bytes_result(r) == dechunked(data@),
{
    let total: usize = data.len();
    let mut out: Vec<u8> = Vec::new();
    let mut i: usize = 0;
    proof {
        assert(data@.skip(0) =~= data@);
        reveal_strlit("\r\n");
        lemma_lit("\r\n");
    }
    loop
        invariant
            total == data.len(),
            i <= total,
            lit("\r\n").len() == 2,
            dechunked(data@) == (match dechunked(data@.skip(i as int)) {
                Err(x) => Err::<Seq<u8>, ErrorView>(x),
                Ok(rest) => Ok::<Seq<u8>, ErrorView>(out@ + rest),
            }),
        decreases total - i,
    {
        if i == total {
            assert(data@.skip(i as int) =~= Seq::empty());
            assert(out@ + Seq::<u8>::empty() =~= out@);
            return Ok(out);
        }
        let tail: &[u8] = &data[i..total];
        let ghost d = data@.skip(i as int);
        assert(tail@ =~= d);
        let e: usize = match find_sub(tail, raw("\r\n")) {
            None => {
                return Err(crypto("bad chunk header"));
            },
            Some(e) => e,
        };
        let line: &[u8] = &tail[0..e];
        assert(line@ =~= d.take(e as int));
        let text: Vec<char> = chars_of(from_utf8_lossy(line).as_str());
        let k: usize = find_char(&text, ';', 0);
        let field: Vec<char> = part(&text, 0, k);
        assert(field@ =~= text@.take(k as int));
        let size: usize = match parse_unsigned(&trim_chars(&field), 16, usize::MAX as u64) {
            Err(t) => {
                return Err(crypto(t));
            },
            Ok(n) => n as usize,
        };
        if size == 0 {
            assert(out@ + Seq::<u8>::empty() =~= out@);
            return Ok(out);
        }
        let start: usize = e + 2;
        if size > tail.len() - start {
            return Err(crypto("truncated chunk"));
        }
        let end: usize = start + size;
        let ghost before = out@;
        out.extend_from_slice(&tail[start..end]);
        let ghost rest = behind_chunk(d, end as int);
        if tail.len() - end > 2 {
            i = i + end + 2;
        } else {
            i = total;
        }
        proof {
            assert(data@.skip(i as int) =~= rest);
            match dechunked(rest) {
                Err(x) => {},
                Ok(v) => {
                    assert(before + (d.subrange(e + 2, e + 2 + size) + v) =~= out@ + v);
                },
            }
        }
    }
}

// ---------------------------------------------------------------------------
// Replies

/// The first index of a line feed, or the end.
pub open spec fn line_end(s: Seq<u8>, i: int) -> int
    decreases s.len() - i,
{
    if 0 <= i < s.len() && s[i] != 0x0a {
        line_end(s, i + 1)
    } else {
        i
    }
}

/// The body of a reply: its status line must hold ` 200`, and a chunked body is put
/// together.
pub open spec fn reply_body(raw: Seq<u8>) -> Result<Seq<u8>, ErrorView> {
    match first_from(raw, lit("\r\n\r\n"), 0) {
        None => Err(ErrorView::Crypto("malformed HTTP response"@)),
        Some(idx) => {
            let head = raw.take(idx);
            let body = raw.skip(idx + 4);
            let status = lossy_text(head.take(line_end(head, 0)));
            if !contains_text(status, " 200"@) {
                Err(ErrorView::Crypto("HTTP error: "@ + trim(status)))
            } else if contains_text(lowercase(lossy_text(head)), "transfer-encoding: chunked"@) {
                dechunked(body)
            } else {
                Ok(body)
            }
        },
    }
}

/// Takes the body out of a reply.
pub fn http_response(reply: &[u8]) -> (r: Result<Vec<u8>, Error>)
    ensures
        bytes_result(r) == reply_body(reply@),
{
    let total: usize = reply.len();
    let idx: usize = match find_sub(reply, raw("\r\n\r\n")) {
        None => {
            return Err(crypto("malformed HTTP response"));
        },
        Some(i) => i,
    };
    proof {
        reveal_strlit("\r\n\r\n");
        lemma_lit("\r\n\r\n");
    }
    let head: &[u8] = &reply[0..idx];
    assert(head@ =~= reply@.take(idx as int));
    let body: &[u8] = &reply[idx + 4..total];
    assert(body@ =~= reply@.skip(idx + 4));
    let mut e: usize = 0;
    while e < head.len() && head[e] != 0x0a
        invariant
            e <= head.len(),
            line_end(head@, 0) == line_end(head@, e as int),
        decreases head.len() - e,
    {
        e += 1;
    }
    let first: &[u8] = &head[0..e];
    assert(first@ =~= head@.take(e as int));
    let status: Vec<char> = chars_of(from_utf8_lossy(first).as_str());
    if !has_text(&status, &chars_of(" 200")) {
        let mut t: String = "HTTP error: ".to_owned();
        t.append(string_of(&trim_chars(&status)).as_str());
        return Err(Error::Crypto(t));
    }
    let lower: String = to_lowercase(from_utf8_lossy(head).as_str());
    if has_text(&chars_of(lower.as_str()), &chars_of("transfer-encoding: chunked")) {
        return dechunk(body);
    }
    Ok(to_vec(body))
}

// ---------------------------------------------------------------------------
// Laws

/// A number in lower-case hexadecimal digits.
pub open spec fn hex_number(n: nat) -> Seq<u8>
    decreases n,
{
    if n < 16 {
        seq![hex_digit(n)]
    } else {
        hex_number(n / 16).push(hex_digit(n % 16))
    }
}

/// Chunks in HTTP/1.1 chunked transfer-encoding, with the last, empty chunk and what
/// follows its line.
pub open spec fn chunked_form(chunks: Seq<Seq<u8>>, trailer: Seq<u8>) -> Seq<u8>
    decreases chunks.len(),
{
    if chunks.len() == 0 {
        lit("0\r\n") + trailer
    } else {
        hex_number(chunks[0].len()) + lit("\r\n") + chunks[0] + lit("\r\n") + chunked_form(chunks.drop_first(), trailer)
    }
}

/// The chunks put together.
pub open spec fn put_together(chunks: Seq<Seq<u8>>) -> Seq<u8>
    decreases chunks.len(),
{
    if chunks.len() == 0 {
        Seq::empty()
    } else {
        chunks[0] + put_together(chunks.drop_first())
    }
}

/// The characters of ASCII bytes.
spec fn ascii(b: Seq<u8>) -> Seq<char> {
    Seq::new(b.len(), |i: int| b[i] as char)
}

proof fn lemma_hex_number(n: nat, max: nat)
    requires
        n <= max,
    ensures
        hex_number(n).len() >= 1,
        forall|i: int| 0 <= i < hex_number(n).len() ==> is_hex(#[trigger] hex_number(n)[i]),
        digits_from(ascii(hex_number(n)), 0, 0, 16, max) == Ok::<nat, Seq<char>>(n),
    decreases n,
{
    if n < 16 {
        reveal_with_fuel(digits_from, 2);
        let s = ascii(hex_number(n));
        assert(s[0] == hex_digit(n) as char);
    } else {
        lemma_hex_number(n / 16, max);
        let t = hex_number(n / 16);
        let c = hex_digit(n % 16);
        assert(ascii(t.push(c)) =~= ascii(t).push(c as char));
        lemma_digits_push(ascii(t), c as char, 0, 0, max);
        assert((n / 16) * 16 + n % 16 == n);
    }
}

proof fn lemma_digits_push(s: Seq<char>, c: char, i: int, acc: nat, max: nat)
    requires
        0 <= i <= s.len(),
        digits_from(s, i, acc, 16, max) is Ok,
    ensures
        digits_from(s.push(c), i, acc, 16, max) == digits_from(
            s.push(c),
            s.len() as int,
            digits_from(s, i, acc, 16, max)->Ok_0,
            16,
            max,
        ),
        digits_from(s.push(c), s.len() as int, digits_from(s, i, acc, 16, max)->Ok_0, 16, max) == (match digit_in(
            c,
            16,
        ) {
            None => Err::<nat, Seq<char>>(invalid_digit()),
            Some(d) => if digits_from(s, i, acc, 16, max)->Ok_0 * 16 + d > max {
                Err::<nat, Seq<char>>(too_large())
            } else {
                Ok::<nat, Seq<char>>((digits_from(s, i, acc, 16, max)->Ok_0 * 16 + d) as nat)
            },
        }),
    decreases s.len() - i,
{
    let u = s.push(c);
    if i < s.len() {
        assert(u[i] == s[i]);
        let d = digit_in(s[i], 16)->0;
        lemma_digits_push(s, c, i + 1, (acc * 16 + d) as nat, max);
    } else {
        assert(u[i] == c);
        reveal_with_fuel(digits_from, 2);
    }
}

/// A lower-case hexadecimal digit or a decimal one.
spec fn is_hex(b: u8) -> bool {
    0x30 <= b <= 0x39 || 0x61 <= b <= 0x66
}

proof fn lemma_no_char(s: Seq<char>, c: char, i: int)
    requires
        0 <= i <= s.len(),
        forall|k: int| 0 <= k < s.len() ==> #[trigger] s[k] != c,
    ensures
        next_char(s, c, i) == s.len(),
    decreases s.len() - i,
{
    if i < s.len() {
        lemma_no_char(s, c, i + 1);
    }
}

proof fn lemma_size_field(b: Seq<u8>)
    requires
        b.len() >= 1,
        forall|i: int| 0 <= i < b.len() ==> is_hex(#[trigger] b[i]),
    ensures
        size_field(b) == ascii(b),
{
    let s = ascii(b);
    assert(is_ascii_chars(s)) by {
        assert forall|i: int| 0 <= i < s.len() implies '\0' <= #[trigger] s[i] <= '\u{7f}' by {
            assert(is_hex(b[i]));
        }
    }
    is_ascii_chars_encode_utf8(s);
    assert(encode_utf8(s) =~= b) by {
        assert forall|i: int| 0 <= i < b.len() implies encode_utf8(s)[i] == #[trigger] b[i] by {
            assert(is_hex(b[i]));
            assert(s[i] as u8 == b[i]);
        }
    }
    encode_utf8_valid_utf8(s);
    encode_utf8_decode_utf8(s);
    assert(lossy_text(b) == s);
    assert forall|k: int| 0 <= k < s.len() implies #[trigger] s[k] != ';' by {
        assert(is_hex(b[k]));
    }
    lemma_no_char(s, ';', 0);
    assert(s.take(s.len() as int) =~= s);
    assert(is_hex(b[0]) && is_hex(b[b.len() - 1]));
    assert(!is_white(s[0]) && !is_white(s.last()));
    assert(skip_white(s, 0) == 0);
    assert(s.skip(0) =~= s);
}

proof fn lemma_line_found(field: Seq<u8>, rest: Seq<u8>)
    requires
        forall|i: int| 0 <= i < field.len() ==> is_hex(#[trigger] field[i]),
    ensures
        first_from(field + lit("\r\n") + rest, lit("\r\n"), 0) == Some(field.len() as int),
        (field + lit("\r\n") + rest).take(field.len() as int) == field,
        lit("\r\n").len() == 2,
{
    reveal_strlit("\r\n");
    lemma_lit("\r\n");
    let crlf = lit("\r\n");
    let data = field + crlf + rest;
    let n = field.len() as int;
    assert(data.subrange(n, n + 2) =~= crlf);
    assert(data.take(n) =~= field);
    assert forall|j: int| 0 <= j < n implies !occurs_at(data, crlf, j) by {
        assert(data[j] == field[j]);
        assert(is_hex(field[j]));
        if occurs_at(data, crlf, j) {
            assert(data.subrange(j, j + 2)[0] == crlf[0]);
        }
    }
    lemma_first_from_is(data, crlf, 0, n);
}

/// Decoding gives back what was sent in chunks, whatever follows the last, empty one.
pub proof fn law_dechunk_takes_back(chunks: Seq<Seq<u8>>, trailer: Seq<u8>)
    requires
        forall|i: int| 0 <= i < chunks.len() ==> 0 < (#[trigger] chunks[i]).len() <= usize::MAX,
    ensures
        dechunked(chunked_form(chunks, trailer)) == Ok::<Seq<u8>, ErrorView>(put_together(chunks)),
    decreases chunks.len(),
{
    if chunks.len() == 0 {
        let zero = hex_number(0);
        reveal_strlit("0\r\n");
        lemma_lit("0\r\n");
        reveal_strlit("\r\n");
        lemma_lit("\r\n");
        assert(chunked_form(chunks, trailer) =~= zero + lit("\r\n") + trailer);
        lemma_hex_number(0, usize::MAX as nat);
        lemma_line_found(zero, trailer);
        lemma_size_field(zero);
        lemma_unsigned_digits(zero);
    } else {
        let c = chunks[0];
        let n = c.len();
        let field = hex_number(n);
        let tail = chunked_form(chunks.drop_first(), trailer);
        assert forall|i: int| 0 <= i < chunks.drop_first().len() implies 0 < (#[trigger] chunks.drop_first()[i]).len()
            <= usize::MAX by {
            assert(chunks[i + 1].len() > 0);
        }
        law_dechunk_takes_back(chunks.drop_first(), trailer);
        let crlf = lit("\r\n");
        let rest = c + crlf + tail;
        let data = chunked_form(chunks, trailer);
        assert(data =~= field + crlf + rest);
        lemma_hex_number(n, usize::MAX as nat);
        lemma_line_found(field, rest);
        lemma_size_field(field);
        lemma_unsigned_digits(field);
        let e = field.len() as int;
        assert(data.subrange(e + 2, e + 2 + n) =~= c);
        assert(data.len() == e + 2 + n + 2 + tail.len());
        if tail.len() > 0 {
            assert(data.skip(e + 2 + n + 2) =~= tail);
        } else {
            assert(tail =~= Seq::empty());
        }
    }
}

proof fn lemma_unsigned_digits(b: Seq<u8>)
    requires
        b.len() >= 1,
        forall|i: int| 0 <= i < b.len() ==> is_hex(#[trigger] b[i]),
    ensures
        unsigned(ascii(b), 16, usize::MAX as nat) == digits_from(ascii(b), 0, 0, 16, usize::MAX as nat),
{
    assert(is_hex(b[0]));
    assert(ascii(b)[0] == b[0] as char);
}

} // verus!
