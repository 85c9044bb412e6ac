//! RFC 3161 timestamp client (for PAdES-B-T).
//!
//! Builds a `TimeStampReq` over a message imprint, and takes the `TimeStampToken`
//! (a CMS `ContentInfo`) out of a Time-Stamping Authority's reply.
use vstd::prelude::*;

use crate::der_reader::{der_tag, is_der_tag, read_value, short_value, value_at, write_short};
use crate::digest::{sha256, sha256_digest};
use crate::error::{bytes_result, Error, ErrorView};
use crate::oids::sha256_oid;
use crate::signed_data::{check_content_info, content_info};
use crate::util::{append_dec, dec_text, to_vec};

verus! {

// ---------------------------------------------------------------------------
// Requests

/// The `MessageImprint` of a SHA-256 digest.
pub open spec fn message_imprint(hash: Seq<u8>) -> Seq<u8> {
    short_value(0x30, short_value(0x30, short_value(0x06, sha256_oid())) + short_value(0x04, hash))
}

/// The `TimeStampReq` for a SHA-256 digest: version one, the imprint, and the wish
/// for the authority's certificate.
pub open spec fn timestamp_request(hash: Seq<u8>) -> Seq<u8> {
    short_value(0x30, seq![0x02u8, 0x01u8, 0x01u8] + message_imprint(hash) + seq![0x01u8, 0x01u8, 0xffu8])
}

fn concat(a: &[u8], b: &[u8]) -> (r: Vec<u8>)
    ensures
        r@ == a@ + b@,
{
    let mut r: Vec<u8> = to_vec(a);
    r.extend_from_slice(b);
    r
}

/// The RFC 3161 request for a timestamp over `data`.
pub fn build_timestamp_request(data: &[u8]) -> (r: Vec<u8>)
    ensures
        r@ == timestamp_request(sha256(data@)),
{
    let hash: Vec<u8> = sha256_digest(data);
    let oid: [u8; 9] = [0x60, 0x86, 0x48, 0x01, 0x65, 0x03, 0x04, 0x02, 0x01];
    assert(oid@ =~= sha256_oid());
    let algorithm: Vec<u8> = write_short(0x30, &write_short(0x06, &oid));
    let imprint: Vec<u8> = write_short(0x30, &concat(&algorithm, &write_short(0x04, &hash)));
    let version: [u8; 3] = [0x02, 0x01, 0x01];
    assert(version@ =~= seq![0x02u8, 0x01u8, 0x01u8]);
    let cert_req: [u8; 3] = [0x01, 0x01, 0xff];
    assert(cert_req@ =~= seq![0x01u8, 0x01u8, 0xffu8]);
    write_short(0x30, &concat(&concat(&version, &imprint), &cert_req))
}

// ---------------------------------------------------------------------------
// Replies

/// The value of a DER integer of at most four bytes, in two's complement and
/// without redundant bytes.
pub open spec fn small_integer(c: Seq<u8>) -> Option<int> {
    if c.len() < 1 || c.len() > 4 {
        None
    } else if c.len() > 1 && ((c[0] == 0 && c[1] < 0x80) || (c[0] == 0xff && c[1] >= 0x80)) {
        None
    } else {
        let n = c.len();
        let top = if c[0] >= 0x80 { c[0] - 256 } else { c[0] as int };
        Some(
            if n == 1 {
                top
            } else if n == 2 {
                top * 256 + c[1]
            } else if n == 3 {
                top * 0x1_0000 + c[1] * 256 + c[2]
            } else {
                top * 0x100_0000 + c[1] * 0x1_0000 + c[2] * 256 + c[3]
            },
        )
    }
}

fn read_small_integer(c: &[u8]) -> (r: Option<i32>)
    ensures
        match small_integer(c@) {
            Some(v) => r is Some && r->0 == v,
            None => r is None,
        },
{
    let n: usize = c.len();
    if n < 1 || n > 4 {
        return None;
    }
    if n > 1 && ((c[0] == 0 && c[1] < 0x80) || (c[0] == 0xff && c[1] >= 0x80)) {
        return None;
    }
    let top: i64 = if c[0] >= 0x80 { c[0] as i64 - 256 } else { c[0] as i64 };
    let v: i64 = if n == 1 {
        top
    } else if n == 2 {
        top * 256 + c[1] as i64
    } else if n == 3 {
        top * 0x1_0000 + c[1] as i64 * 256 + c[2] as i64
    } else {
        top * 0x100_0000 + c[1] as i64 * 0x1_0000 + c[2] as i64 * 256 + c[3] as i64
    };
    Some(v as i32)
}

/// The content of a bit string: the number of unused bits, and the bits.
pub open spec fn is_bit_string(c: Seq<u8>) -> bool {
    c.len() >= 1 && c[0] <= 7 && (c.len() == 1 ==> c[0] == 0)
}

/// What may follow the status in a `PKIStatusInfo`: a value of any kind, and a bit
/// string, each of them once at most.
pub open spec fn status_tail(s: Seq<u8>, i: int, end: int) -> bool {
    if i == end {
        true
    } else {
        match value_at(s, i) {
            None => false,
            Some((t, _, b)) => if b > end || !is_der_tag(t) {
                false
            } else if b == end {
                true
            } else {
                match value_at(s, b) {
                    None => false,
                    Some((tag, c, d)) => tag == 0x03 && d == end && is_bit_string(s.subrange(c, d)),
                }
            },
        }
    }
}

/// The `PKIStatusInfo` at index `i`: the status and where it ends.
pub open spec fn status_at(s: Seq<u8>, i: int, end: int) -> Option<(int, int)> {
    match value_at(s, i) {
        None => None,
        Some((tag, a, b)) => if tag != 0x30 || b > end {
            None
        } else {
            match value_at(s, a) {
                None => None,
                Some((t, c, d)) => if t != 0x02 || d > b || !status_tail(s, d, b) {
                    None
                } else {
                    match small_integer(s.subrange(c, d)) {
                        None => None,
                        Some(v) => Some((v, b)),
                    }
                },
            }
        },
    }
}

/// The `TimeStampResp` in the bytes: its status, and the token where it has one.
pub open spec fn response_of(s: Seq<u8>) -> Option<(int, Option<Seq<u8>>)> {
    match value_at(s, 0) {
        None => None,
        Some((tag, a, end)) => if tag != 0x30 || end != s.len() {
            None
        } else {
            match status_at(s, a, end) {
                None => None,
                Some((status, i)) => if i == end {
                    Some((status, None))
                } else {
                    match value_at(s, i) {
                        None => None,
                        Some((t, _, b)) => if t != 0x30 || b != end {
                            None
                        } else {
                            Some((status, Some(s.subrange(i, end))))
                        },
                    }
                },
            }
        },
    }
}

fn check_status_tail(s: &[u8], i: usize, end: usize) -> (r: bool)
    requires
        i <= end <= s.len(),
    ensures
        r == status_tail(s@, i as int, end as int),
{
    if i == end {
        return true;
    }
    match read_value(s, i) {
        None => false,
        Some(v) => {
            if v.end > end || !der_tag(v.tag) {
                return false;
            }
            if v.end == end {
                return true;
            }
            match read_value(s, v.end) {
                None => false,
                Some(w) => {
                    if w.tag != 0x03 || w.end != end {
                        return false;
                    }
                    let c: &[u8] = &s[w.start..w.end];
                    c.len() >= 1 && c[0] <= 7 && (c.len() != 1 || c[0] == 0)
                },
            }
        },
    }
}

fn read_status(s: &[u8], i: usize, end: usize) -> (r: Option<(i32, usize)>)
    requires
        end <= s.len(),
    ensures
        match status_at(s@, i as int, end as int) {
            Some((v, b)) => r matches Some((x, e)) && x == v && e == b && i < e <= end,
            None => r is None,
        },
{
    match read_value(s, i) {
        None => None,
        Some(v) => {
            if v.tag != 0x30 || v.end > end {
                return None;
            }
            match read_value(s, v.start) {
                None => None,
                Some(w) => {
                    if w.tag != 0x02 || w.end > v.end || !check_status_tail(s, w.end, v.end) {
                        return None;
                    }
                    match read_small_integer(&s[w.start..w.end]) {
                        None => None,
                        Some(n) => Some((n, v.end)),
                    }
                },
            }
        },
    }
}

fn read_response(s: &[u8]) -> (r: Option<(i32, Option<Vec<u8>>)>)
    ensures
        match response_of(s@) {
            Some((v, t)) => r matches Some((x, y)) && x == v && crate::certificate::opt_bytes(y) == t,
            None => r is None,
        },
{
    let total: usize = s.len();
    match read_value(s, 0) {
        None => None,
        Some(v) => {
            if v.tag != 0x30 || v.end != total {
                return None;
            }
            match read_status(s, v.start, v.end) {
                None => None,
                Some((status, i)) => {
                    if i == v.end {
                        return Some((status, None));
                    }
                    match read_value(s, i) {
                        None => None,
                        Some(w) => {
                            if w.tag != 0x30 || w.end != v.end {
                                return None;
                            }
                            Some((status, Some(to_vec(&s[i..total]))))
                        },
                    }
                },
            }
        },
    }
}

/// A whole number as text.
pub open spec fn int_text(n: int) -> Seq<char> {
    if n < 0 {
        "-"@ + dec_text((-n) as nat)
    } else {
        dec_text(n as nat)
    }
}

/// The token in an authority's reply: the reply must be well-formed, the status
/// `granted` or `grantedWithMods`, and the token there.
pub open spec fn token_in_reply(reply: Seq<u8>) -> Result<Seq<u8>, ErrorView> {
    match response_of(reply) {
        None => Err(ErrorView::Crypto("malformed TSA response: not a TimeStampResp"@)),
        Some((status, token)) => {
            let checked = match token {
                Some(t) => content_info(t),
                None => Ok(()),
            };
            match checked {
                Err(t) => Err(ErrorView::Crypto("malformed TSA response: "@ + t)),
                Ok(_) => if status != 0 && status != 1 {
                    Err(ErrorView::Crypto("TSA rejected the request (PKIStatus "@ + int_text(status) + ")"@))
                } else {
                    match token {
                        None => Err(ErrorView::Crypto("TSA response carried no timestamp token"@)),
                        Some(t) => Ok(t),
                    }
                },
            }
        },
    }
}

/// Takes the timestamp token out of an authority's reply.
pub fn read_timestamp_reply(reply: &[u8]) -> (r: Result<Vec<u8>, Error>)
    ensures
        bytes_result(r) == token_in_reply(reply@),
{
    match read_response(reply) {
        None => Err(Error::Crypto("malformed TSA response: not a TimeStampResp".to_owned())),
        Some((status, token)) => {
            if let Some(t) = &token {
                match check_content_info(t) {
                    Err(e) => {
                        return Err(Error::Crypto("malformed TSA response: ".to_owned().concat(e.as_str())));
                    },
                    Ok(()) => {},
                }
            }
            if status != 0 && status != 1 {
                let mut t: String = "TSA rejected the request (PKIStatus ".to_owned();
                if status < 0 {
                    t.append("-");
                    append_dec(&mut t, (-(status as i64)) as u64);
                } else {
                    append_dec(&mut t, status as u64);
                }
                t.append(")");
                assert(t@ =~= "TSA rejected the request (PKIStatus "@ + int_text(status as int) + ")"@);
                return Err(Error::Crypto(t));
            }
            match token {
                None => Err(Error::Crypto("TSA response carried no timestamp token".to_owned())),
                Some(t) => Ok(t),
            }
        },
    }
}

} // verus!
