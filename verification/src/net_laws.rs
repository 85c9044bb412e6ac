//! Where requests go, and what is taken out of replies.
use vstd::prelude::*;

use crate::der_laws::{der_value, law_value_reads_back, lemma_longer};
use crate::error::ErrorView;
use crate::http::{authority_of, dechunked, host_and_port, line_end, path_of, reply_body, request_for, starts_with};
use crate::name_laws::{lacks, lemma_after_last, lemma_next_char};
use crate::signed_data::content_info;
use crate::text::{contains_text, digits_from, lossy_text, lowercase, unsigned};
use crate::time_laws::lemma_part;
use crate::tsa::{response_of, small_integer, status_at, status_tail, token_in_reply};
use crate::util::{lemma_first_from_is, lemma_lit, lit, occurs_at, utf8};

verus! {

// ---------------------------------------------------------------------------
// Numbers

/// A text of decimal digits.
pub open spec fn decimal(s: Seq<char>) -> bool {
    s.len() > 0 && forall|i: int| 0 <= i < s.len() ==> '0' <= #[trigger] s[i] <= '9'
}

/// The number that decimal digits stand for.
pub open spec fn decimal_value(s: Seq<char>) -> nat
    decreases s.len(),
{
    if s.len() == 0 {
        0
    } else {
        (decimal_value(s.drop_last()) * 10 + (s.last() as int - 0x30)) as nat
    }
}

proof fn lemma_grows(s: Seq<char>, i: int)
    requires
        decimal(s),
        0 <= i <= s.len(),
    ensures
        decimal_value(s.take(i)) <= decimal_value(s),
    decreases s.len() - i,
{
    if i < s.len() {
        lemma_grows(s, i + 1);
        assert(s.take(i + 1).drop_last() =~= s.take(i));
        assert('0' <= s[i] <= '9');
    } else {
        assert(s.take(i) =~= s);
    }
}

proof fn lemma_digits(s: Seq<char>, i: int, max: nat)
    requires
        decimal(s),
        0 <= i <= s.len(),
        decimal_value(s) <= max,
    ensures
        digits_from(s, i, decimal_value(s.take(i)), 10, max) == Ok::<nat, Seq<char>>(decimal_value(s)),
    decreases s.len() - i,
{
    if i < s.len() {
        assert('0' <= s[i] <= '9');
        assert(s.take(i + 1).drop_last() =~= s.take(i));
        assert(s.take(i + 1).last() == s[i]);
        lemma_grows(s, i + 1);
        lemma_digits(s, i + 1, max);
    } else {
        assert(s.take(i) =~= s);
    }
}

/// Decimal digits are read as the number that they stand for.
pub proof fn law_decimal_numbers(s: Seq<char>, max: nat)
    requires
        decimal(s),
        decimal_value(s) <= max,
    ensures
        unsigned(s, 10, max) == Ok::<nat, Seq<char>>(decimal_value(s)),
{
    assert('0' <= s[0] <= '9');
    assert(s.take(0) =~= Seq::empty());
    lemma_digits(s, 0, max);
}

// ---------------------------------------------------------------------------
// Requests

/// A request goes to the host in the URL, at its port or else at 80, and asks for its path,
/// or else for the root.
pub proof fn law_where_requests_go(
    method: Seq<char>,
    host: Seq<char>,
    port: Option<Seq<char>>,
    path: Seq<char>,
    content_type: Option<Seq<char>>,
    body: Seq<u8>,
)
    requires
        lacks(host, '/') && lacks(host, ':'),
        port matches Some(p) ==> decimal(p) && decimal_value(p) <= u16::MAX,
        path.len() == 0 || path[0] == '/',
    ensures
        ({
            let colon = colon_of(port);
            let wanted = if path.len() == 0 {
                "/"@
            } else {
                path
            };
            request_for(method, "http://"@ + (host + colon + path), content_type, body) matches Ok(o) && {
                &&& o.host == host
                &&& o.port == (match port {
                    Some(p) => decimal_value(p) as u16,
                    None => 80u16,
                })
                &&& starts(o.bytes, utf8(method) + lit(" ") + utf8(wanted) + lit(" HTTP/1.1\r\nHost: ") + utf8(host))
                &&& ends(o.bytes, lit("\r\n") + body)
            }
        }),
{
    let colon = colon_of(port);
    let rest = host + colon + path;
    let url = "http://"@ + rest;
    lemma_url(rest);
    lemma_authority(host, port, path);
    let wanted = if path.len() == 0 {
        "/"@
    } else {
        path
    };
    lemma_bytes(method, wanted, host, crate::http::body_head(content_type, body.len()), body);
}

/// A port behind a colon.
pub open spec fn colon_of(port: Option<Seq<char>>) -> Seq<char> {
    match port {
        Some(p) => seq![':'] + p,
        None => Seq::empty(),
    }
}

proof fn lemma_url(rest: Seq<char>)
    ensures
        starts_with("http://"@ + rest, "http://"@),
        ("http://"@ + rest).skip("http://"@.len() as int) == rest,
{
    reveal_strlit("http://");
    let url = "http://"@ + rest;
    assert(url.subrange(0, 7) =~= "http://"@);
    assert(url.skip(7) =~= rest);
}

proof fn lemma_bytes(method: Seq<char>, path: Seq<char>, host: Seq<char>, fields: Seq<u8>, body: Seq<u8>)
    ensures
        ({
            let bytes = crate::http::request_head(method, path, host) + fields + lit("\r\n") + body;
            &&& starts(bytes, utf8(method) + lit(" ") + utf8(path) + lit(" HTTP/1.1\r\nHost: ") + utf8(host))
            &&& ends(bytes, lit("\r\n") + body)
        }),
{
    let bytes = crate::http::request_head(method, path, host) + fields + lit("\r\n") + body;
    let front = utf8(method) + lit(" ") + utf8(path) + lit(" HTTP/1.1\r\nHost: ") + utf8(host);
    let back = lit("\r\n") + body;
    assert(crate::http::request_head(method, path, host).take(front.len() as int) =~= front);
    assert(bytes.take(front.len() as int) =~= crate::http::request_head(method, path, host).take(front.len() as int));
    assert(bytes =~= (crate::http::request_head(method, path, host) + fields) + back);
    assert(bytes.skip(bytes.len() - back.len()) =~= back);
}

proof fn lemma_authority(host: Seq<char>, port: Option<Seq<char>>, path: Seq<char>)
    requires
        lacks(host, '/') && lacks(host, ':'),
        port matches Some(p) ==> decimal(p) && decimal_value(p) <= u16::MAX,
        path.len() == 0 || path[0] == '/',
    ensures
        host_and_port(authority_of(host + colon_of(port) + path)) == Ok::<(Seq<char>, nat), Seq<char>>(
            (
                host,
                match port {
                    Some(p) => decimal_value(p),
                    None => 80,
                },
            ),
        ),
        path_of(host + colon_of(port) + path) == (if path.len() == 0 {
            "/"@
        } else {
            path
        }),
{
    let colon = colon_of(port);
    let rest = host + colon + path;
    let authority = host + colon;
    assert(lacks(authority, '/')) by {
        assert forall|i: int| 0 <= i < authority.len() implies (#[trigger] authority[i]) != '/' by {
            if i < host.len() {
                assert(authority[i] == host[i]);
            } else if let Some(p) = port {
                if i > host.len() {
                    assert(authority[i] == p[i - host.len() - 1]);
                    assert('0' <= p[i - host.len() - 1] <= '9');
                }
            }
        }
    }
    assert(rest =~= authority + path);
    lemma_next_char(authority, '/', path, 0);
    assert(authority_of(rest) =~= authority);
    assert(rest.skip(authority.len() as int) =~= path);
    if let Some(p) = port {
        assert forall|i: int| 0 <= i < p.len() implies (#[trigger] p[i]) != ':' by {
            assert('0' <= p[i] <= '9');
        }
        let front = host + seq![':'];
        assert(authority =~= front + p);
        lemma_after_last(front, ':', p, authority.len() as int);
        assert(authority.skip(front.len() as int) =~= p);
        assert(authority.take(front.len() as int - 1) =~= host);
        law_decimal_numbers(p, u16::MAX as nat);
    } else {
        assert(authority =~= Seq::<char>::empty() + host);
        assert(authority =~= host);
        lemma_after_last(Seq::empty(), ':', host, authority.len() as int);
    }
}

/// The bytes begin with others.
pub open spec fn starts(s: Seq<u8>, t: Seq<u8>) -> bool {
    t.len() <= s.len() && s.take(t.len() as int) == t
}

/// The bytes end in others.
pub open spec fn ends(s: Seq<u8>, t: Seq<u8>) -> bool {
    t.len() <= s.len() && s.skip(s.len() - t.len()) == t
}

/// Only plain HTTP is spoken.
pub proof fn law_other_urls_are_refused(method: Seq<char>, url: Seq<char>, content_type: Option<Seq<char>>, body: Seq<u8>)
    requires
        url.len() < 7 || url.take(7) != "http://"@,
    ensures
        request_for(method, url, content_type, body) is Err,
{
    reveal_strlit("http://");
    if url.len() >= 7 {
        assert(url.subrange(0, 7) =~= url.take(7));
    }
}

// ---------------------------------------------------------------------------
// Replies

/// The body of a reply is what stands behind the first empty line, put together where the
/// head says that it comes in chunks; it counts only if the status line says 200.
pub proof fn law_body_of_a_reply(status: Seq<u8>, fields: Seq<u8>, body: Seq<u8>)
    requires
        forall|i: int| 0 <= i < status.len() ==> (#[trigger] status[i]) != 0x0a,
        fields.len() > 0 ==> fields[0] == 0x0a,
        first_empty_line(status + fields, body),
    ensures
        ({
            let r = reply_body(status + fields + lit("\r\n\r\n") + body);
            &&& !contains_text(lossy_text(status), " 200"@) ==> r is Err
            &&& contains_text(lossy_text(status), " 200"@) ==> if contains_text(
                lowercase(lossy_text(status + fields)),
                "transfer-encoding: chunked"@,
            ) {
                r == dechunked(body)
            } else {
                r == Ok::<Seq<u8>, ErrorView>(body)
            }
        }),
{
    let head = status + fields;
    let raw = head + lit("\r\n\r\n") + body;
    let n = head.len() as int;
    reveal_strlit("\r\n\r\n");
    lemma_lit("\r\n\r\n");
    assert(raw.subrange(n, n + 4) =~= lit("\r\n\r\n"));
    lemma_first_from_is(raw, lit("\r\n\r\n"), 0, n);
    assert(raw.take(n) =~= head);
    assert(raw.skip(n + 4) =~= body);
    lemma_line(status, fields, 0);
    assert(head.take(status.len() as int) =~= status);
}

/// No empty line begins before the end of the head.
pub open spec fn first_empty_line(head: Seq<u8>, body: Seq<u8>) -> bool {
    forall|j: int| 0 <= j < head.len() ==> !occurs_at(head + lit("\r\n\r\n") + body, lit("\r\n\r\n"), j)
}

proof fn lemma_line(status: Seq<u8>, fields: Seq<u8>, i: int)
    requires
        0 <= i <= status.len(),
        forall|i: int| 0 <= i < status.len() ==> (#[trigger] status[i]) != 0x0a,
        fields.len() > 0 ==> fields[0] == 0x0a,
    ensures
        line_end(status + fields, i) == status.len(),
    decreases status.len() - i,
{
    let s = status + fields;
    if i < status.len() {
        assert(s[i] == status[i]);
        lemma_line(status, fields, i + 1);
    } else if fields.len() > 0 {
        assert(s[i] == fields[0]);
    }
}

// ---------------------------------------------------------------------------
// Replies of time-stamping authorities

/// The reply of an authority as DER writes it: its status, and the token where there is one.
pub open spec fn reply_bytes(status: u8, token: Seq<u8>) -> Seq<u8> {
    der_value(0x30, der_value(0x30, der_value(0x02, seq![status])) + token)
}

proof fn lemma_reply(status: u8, token: Seq<u8>)
    requires
        status < 0x80,
        reply_bytes(status, token).len() < 0x1_0000_0000,
        token.len() == 0 || exists|c: Seq<u8>| token == #[trigger] der_value(0x30, c),
    ensures
        response_of(reply_bytes(status, token)) == Some(
            (
                status as int,
                if token.len() == 0 {
                    None
                } else {
                    Some(token)
                },
            ),
        ),
{
    let s = reply_bytes(status, token);
    let end = s.len() as int;
    let number = der_value(0x02, seq![status]);
    let info = der_value(0x30, number);
    let all = info + token;
    lemma_longer(0x30, all);
    lemma_longer(0x30, number);
    lemma_longer(0x02, seq![status]);
    assert(s.subrange(0, end) =~= s);
    law_value_reads_back(s, 0, end, 0x30, all);
    let a = end - all.len();
    assert(all =~= Seq::<u8>::empty() + info + token);
    assert(all =~= info + token + Seq::<u8>::empty());
    lemma_part(s, a, end, Seq::empty(), info, token);
    lemma_part(s, a, end, info, token, Seq::empty());
    let i = a + info.len();
    law_value_reads_back(s, a, i, 0x30, number);
    let b = i - number.len();
    law_value_reads_back(s, b, i, 0x02, seq![status]);
    assert(status_tail(s, i, i));
    assert(s.subrange(i - 1, i) == seq![status]);
    assert(small_integer(seq![status]) == Some(status as int));
    assert(status_at(s, a, end) == Some((status as int, i)));
    if token.len() > 0 {
        let c = choose|c: Seq<u8>| token == #[trigger] der_value(0x30, c);
        lemma_longer(0x30, c);
        assert(s.subrange(i, end).len() == token.len());
        law_value_reads_back(s, i, end, 0x30, c);
        assert(s.subrange(i, end) == token);
    }
}

/// A granted reply gives its token, also one that was granted with changes; any other
/// status, and a reply without a token, is an error.
pub proof fn law_tokens_are_granted(status: u8, token: Seq<u8>)
    requires
        status < 0x80,
        reply_bytes(status, token).len() < 0x1_0000_0000,
        token.len() == 0 || exists|c: Seq<u8>| token == #[trigger] der_value(0x30, c),
        token.len() > 0 ==> content_info(token) is Ok,
    ensures
        token_in_reply(reply_bytes(status, token)) is Ok <==> status <= 1 && token.len() > 0,
        token_in_reply(reply_bytes(status, token)) matches Ok(t) ==> t == token,
{
    lemma_reply(status, token);
}

} // verus!
