//! RFC 3161 timestamps embedded in a signature.
use cms::content_info::ContentInfo;
use cms::signed_data::SignedData;
use der::Decode;
use vstd::prelude::*;

use crate::certificate::opt_bytes;
use crate::der_reader::{read_value, value_at};
use crate::digest::{sha256, sha256_digest};
use crate::error::{bytes_result, plain_result, unverified, Error, ErrorView};
use crate::oids::{is_sha256, is_tst_info, sha256_oid, tst_info_oid};
use crate::signed_data::{
    cms_of, cms_verdict, digest_data, digest_of, extract_timestamp_token, timestamp_token, verify_signed_data, Cms,
    CmsView,
};
use crate::util::{bytes_eq, to_vec};

verus! {

/// The view of encapsulated content: its type, and the content where there is any.
pub open spec fn content_view(c: (Vec<u8>, Option<Vec<u8>>)) -> (Seq<u8>, Option<Seq<u8>>) {
    (c.0@, opt_bytes(c.1))
}

/// The encapsulated content of the signed data in the bytes, that is its type, and the
/// content where there is any; or why the bytes hold no signed data.
pub uninterp spec fn cms_content(der: Seq<u8>) -> Result<(Seq<u8>, Option<Seq<u8>>), Seq<char>>;

/// Reads the encapsulated content of signed data: `ContentInfo::from_der` and
/// `decode_as` for `SignedData`, both of the `cms` crate.
#[verifier::external_body]
fn read_content(der: &[u8]) -> (r: Result<(Vec<u8>, Option<Vec<u8>>), String>)
    ensures
        match r {
            Ok(c) => cms_content(der@) == Ok::<(Seq<u8>, Option<Seq<u8>>), Seq<char>>(content_view(c)),
            Err(t) => cms_content(der@) == Err::<(Seq<u8>, Option<Seq<u8>>), Seq<char>>(t@),
        },
{
    let sd = ContentInfo::from_der(der).and_then(|c| c.content.decode_as::<SignedData>()).map_err(|e| e.to_string())?;
    let content = sd.encap_content_info;
    Ok((content.econtent_type.as_bytes().to_vec(), content.econtent.map(|c| c.value().to_vec())))
}

/// The content of a timestamp token: signed data whose content is of the type
/// `id-ct-TSTInfo`.
pub open spec fn token_content(token: Seq<u8>) -> Result<Seq<u8>, ErrorView> {
    match cms_content(token) {
        Err(t) => Err(ErrorView::Crypto(t)),
        Ok((oid, content)) => if oid != tst_info_oid() {
            Err(ErrorView::Verification("not a timestamp token"@))
        } else {
            match content {
                None => Err(ErrorView::Verification("timestamp has no content"@)),
                Some(c) => Ok(c),
            }
        },
    }
}

fn read_token_content(token: &[u8]) -> (r: Result<Vec<u8>, Error>)
    ensures
        bytes_result(r) == token_content(token@),
{
    match read_content(token) {
        Err(t) => Err(Error::Crypto(t)),
        Ok((oid, content)) => {
            if !is_tst_info(&oid) {
                return Err(unverified("not a timestamp token"));
            }
            match content {
                None => Err(unverified("timestamp has no content")),
                Some(c) => Ok(c),
            }
        },
    }
}

/// The time of the `GeneralizedTime` in the bytes, in seconds since the Unix epoch.
pub uninterp spec fn generalized_time(der: Seq<u8>) -> Option<u64>;

/// Reads a time: `der::asn1::GeneralizedTime::from_der`.
#[verifier::external_body]
fn read_generalized_time(der: &[u8]) -> (r: Option<u64>)
    ensures
        r == generalized_time(der@),
{
    der::asn1::GeneralizedTime::from_der(der).ok().map(|t| t.to_unix_duration().as_secs())
}

/// What a `TSTInfo` says: the digest algorithm and the digest of what was stamped,
/// and the time, as a DER value.
pub struct TstView {
    pub algorithm: Seq<u8>,
    pub imprint: Seq<u8>,
    pub time: Seq<u8>,
}

/// A DER value of the given tag at index `i`, ending at or before `end`.
pub open spec fn tagged_at(s: Seq<u8>, i: int, tag: u8, end: int) -> Option<(int, int)> {
    match value_at(s, i) {
        Some((t, a, b)) => if t == tag && b <= end {
            Some((a, b))
        } else {
            None
        },
        None => None,
    }
}

/// The `MessageImprint` at index `i`: algorithm, digest, and where it ends.
pub open spec fn imprint_at(s: Seq<u8>, i: int, end: int) -> Option<(Seq<u8>, Seq<u8>, int)> {
    match tagged_at(s, i, 0x30, end) {
        None => None,
        Some((a, b)) => match tagged_at(s, a, 0x30, b) {
            None => None,
            Some((alg, alg_end)) => match tagged_at(s, alg, 0x06, alg_end) {
                None => None,
                Some((oid, oid_end)) => match tagged_at(s, alg_end, 0x04, b) {
                    None => None,
                    Some((h, h_end)) => if h_end == b {
                        Some((s.subrange(oid, oid_end), s.subrange(h, h_end), b))
                    } else {
                        None
                    },
                },
            },
        },
    }
}

/// The fields of the `TSTInfo` in the bytes: version, policy, imprint, serial
/// number and time stand one behind the other in a sequence.
pub open spec fn tst_of(s: Seq<u8>) -> Option<TstView> {
    match tagged_at(s, 0, 0x30, s.len() as int) {
        None => None,
        Some((a, end)) => if end != s.len() {
            None
        } else {
            match tagged_at(s, a, 0x02, end) {
                None => None,
                Some((_, version_end)) => match tagged_at(s, version_end, 0x06, end) {
                    None => None,
                    Some((_, policy_end)) => match imprint_at(s, policy_end, end) {
                        None => None,
                        Some((algorithm, imprint, imprint_end)) => match tagged_at(s, imprint_end, 0x02, end) {
                            None => None,
                            Some((_, serial_end)) => match tagged_at(s, serial_end, 0x18, end) {
                                None => None,
                                Some((_, time_end)) => Some(
                                    TstView { algorithm, imprint, time: s.subrange(serial_end, time_end) },
                                ),
                            },
                        },
                    },
                },
            }
        },
    }
}

/// The fields of a `TSTInfo`.
#[derive(Debug)]
pub struct TstInfo {
    pub algorithm: Vec<u8>,
    pub imprint: Vec<u8>,
    pub time: Vec<u8>,
}

impl TstInfo {
    pub open spec fn view(&self) -> TstView {
        TstView { algorithm: self.algorithm@, imprint: self.imprint@, time: self.time@ }
    }
}

fn read_tagged(s: &[u8], i: usize, tag: u8, end: usize) -> (r: Option<(usize, usize)>)
    ensures
        match tagged_at(s@, i as int, tag, end as int) {
            Some((a, b)) => r matches Some((x, y)) && x == a && y == b && i < a <= b <= s@.len() && b <= end,
            None => r is None,
        },
{
    match read_value(s, i) {
        Some(v) => if v.tag == tag && v.end <= end {
            Some((v.start, v.end))
        } else {
            None
        },
        None => None,
    }
}

fn read_imprint(s: &[u8], i: usize, end: usize) -> (r: Option<(Vec<u8>, Vec<u8>, usize)>)
    ensures
        match imprint_at(s@, i as int, end as int) {
            Some((alg, hash, b)) => r matches Some((x, y, e)) && x@ == alg && y@ == hash && e == b,
            None => r is None,
        },
{
    let total: usize = s.len();
    let (a, b) = match read_tagged(s, i, 0x30, end) {
        None => {
            return None;
        },
        Some(p) => p,
    };
    let (alg, alg_end) = match read_tagged(s, a, 0x30, b) {
        None => {
            return None;
        },
        Some(p) => p,
    };
    let (oid, oid_end) = match read_tagged(s, alg, 0x06, alg_end) {
        None => {
            return None;
        },
        Some(p) => p,
    };
    let (h, h_end) = match read_tagged(s, alg_end, 0x04, b) {
        None => {
            return None;
        },
        Some(p) => p,
    };
    if h_end != b {
        return None;
    }
    Some((to_vec(&s[oid..oid_end]), to_vec(&s[h..h_end]), b))
}

/// Reads a `TSTInfo`.
pub fn read_tst(s: &[u8]) -> (r: Option<TstInfo>)
    ensures
        match tst_of(s@) {
            Some(t) => r is Some && r->0@ == t,
            None => r is None,
        },
{
    let total: usize = s.len();
    let (a, end) = match read_tagged(s, 0, 0x30, total) {
        None => {
            return None;
        },
        Some(p) => p,
    };
    if end != total {
        return None;
    }
    let (_, version_end) = match read_tagged(s, a, 0x02, end) {
        None => {
            return None;
        },
        Some(p) => p,
    };
    let (_, policy_end) = match read_tagged(s, version_end, 0x06, end) {
        None => {
            return None;
        },
        Some(p) => p,
    };
    let (algorithm, imprint, imprint_end) = match read_imprint(s, policy_end, end) {
        None => {
            return None;
        },
        Some(p) => p,
    };
    let (_, serial_end) = match read_tagged(s, imprint_end, 0x02, end) {
        None => {
            return None;
        },
        Some(p) => p,
    };
    let (_, time_end) = match read_tagged(s, serial_end, 0x18, end) {
        None => {
            return None;
        },
        Some(p) => p,
    };
    Some(TstInfo { algorithm, imprint, time: to_vec(&s[serial_end..time_end]) })
}

/// A timestamp that binds a signature to a time.
#[derive(Debug)]
pub struct EmbeddedTimestamp {
    /// The time in seconds since the Unix epoch.
    pub gen_time: u64,
    /// The token, with the authority's certificates.
    pub token: Cms,
}

/// A timestamp token, given by its signed data and its content, holds for a
/// signature: the token's own signature over the content holds, and the content
/// gives the digest of the signature. The result is the time that it asserts.
pub open spec fn token_verdict(token: CmsView, content: Seq<u8>, signature: Seq<u8>) -> Result<u64, ErrorView> {
    match cms_verdict(token, content) {
        Err(e) => Err(e),
        Ok(_) => match tst_of(content) {
            None => Err(ErrorView::Verification("malformed TSTInfo"@)),
            Some(tst) => match digest_of(tst.algorithm, signature) {
                Err(e) => Err(e),
                Ok(want) => if want != tst.imprint {
                    Err(ErrorView::Verification("timestamp imprint does not match the signature"@))
                } else {
                    match generalized_time(tst.time) {
                        None => Err(ErrorView::Verification("malformed timestamp time"@)),
                        Some(t) => Ok(t),
                    }
                },
            },
        },
    }
}

/// Verifies a timestamp token, given by its signed data and its content, for a
/// signature, and returns the time that it asserts.
pub fn verify_token(token: &Cms, content: &[u8], signature: &[u8]) -> (r: Result<u64, Error>)
    ensures
        plain_result(r) == token_verdict(token@, content@, signature@),
{
    match verify_signed_data(token, content) {
        Err(e) => {
            return Err(e);
        },
        Ok(_) => {},
    }
    let tst: TstInfo = match read_tst(content) {
        None => {
            return Err(unverified("malformed TSTInfo"));
        },
        Some(t) => t,
    };
    let want: Vec<u8> = match digest_data(&tst.algorithm, signature) {
        Err(e) => {
            return Err(e);
        },
        Ok(d) => d,
    };
    if !bytes_eq(&want, &tst.imprint) {
        return Err(unverified("timestamp imprint does not match the signature"));
    }
    match read_generalized_time(&tst.time) {
        None => Err(unverified("malformed timestamp time")),
        Some(t) => Ok(t),
    }
}

/// The embedded timestamp of a signature, given in DER: its time and its signed
/// data, as far as it verifies.
pub open spec fn embedded_timestamp(cms: Seq<u8>) -> Result<(u64, CmsView), ErrorView> {
    match cms_of(cms) {
        Err(t) => Err(ErrorView::Crypto(t)),
        Ok(c) => match c.signer {
            None => Err(ErrorView::Verification("no SignerInfo present"@)),
            Some(head) => match timestamp_token(cms) {
                Err(e) => Err(e),
                Ok(None) => Err(ErrorView::Verification("no signature timestamp"@)),
                Ok(Some(token)) => match (cms_of(token), token_content(token)) {
                    (Err(t), _) => Err(ErrorView::Crypto(t)),
                    (_, Err(e)) => Err(e),
                    (Ok(sd), Ok(content)) => match token_verdict(sd, content, head.signature) {
                        Err(e) => Err(e),
                        Ok(t) => Ok((t, sd)),
                    },
                },
            },
        },
    }
}

/// Verify the RFC 3161 timestamp embedded in a signature: the token's signature
/// over its content, and the binding of the content to the signature.
pub fn verify_embedded_timestamp(cms_der: &[u8]) -> (r: Result<EmbeddedTimestamp, Error>)
    ensures
        match embedded_timestamp(cms_der@) {
            Ok((t, sd)) => r matches Ok(ts) && ts.gen_time == t && ts.token@ == sd,
            Err(e) => r is Err && r->Err_0@ == e,
        },
{
    let c: Cms = match Cms::from_der(cms_der) {
        Err(t) => {
            return Err(Error::Crypto(t));
        },
        Ok(c) => c,
    };
    match &c.signer {
        None => Err(unverified("no SignerInfo present")),
        Some(head) => match extract_timestamp_token(cms_der) {
            Err(e) => Err(e),
            Ok(None) => Err(unverified("no signature timestamp")),
            Ok(Some(token_der)) => match Cms::from_der(&token_der) {
                Err(t) => Err(Error::Crypto(t)),
                Ok(token) => match read_token_content(&token_der) {
                    Err(e) => Err(e),
                    Ok(content) => match verify_token(&token, &content, &head.signature) {
                        Err(e) => Err(e),
                        Ok(gen_time) => Ok(EmbeddedTimestamp { gen_time, token }),
                    },
                },
            },
        },
    }
}

// ---------------------------------------------------------------------------
// Document timestamps

/// A token is a well-formed RFC 3161 timestamp token, and the digest of its message
/// imprint is the SHA-256 digest of the data.
pub open spec fn doc_timestamp_verdict(token: Seq<u8>, data: Seq<u8>) -> Result<(), ErrorView> {
    match token_content(token) {
        Err(e) => Err(e),
        Ok(content) => match tst_of(content) {
            None => Err(ErrorView::Verification("malformed TSTInfo"@)),
            Some(tst) => if generalized_time(tst.time) is None {
                Err(ErrorView::Verification("malformed timestamp time"@))
            } else if tst.algorithm != sha256_oid() || tst.imprint != sha256(data) {
                Err(ErrorView::Verification("timestamp imprint does not match the document"@))
            } else {
                Ok(())
            },
        },
    }
}

/// Lightweight check that a `/DocTimeStamp` `/Contents` is a well-formed RFC
/// 3161 token whose message imprint is bound to `data` (the document byte
/// range). Full TSA-signature/chain validation is not done; this confirms
/// structure + binding.
pub fn verify_doc_timestamp(token_der: &[u8], data: &[u8]) -> (r: Result<(), Error>)
    ensures
        plain_result(r) == doc_timestamp_verdict(token_der@, data@),
{
    let content: Vec<u8> = match read_token_content(token_der) {
        Err(e) => {
            return Err(e);
        },
        Ok(c) => c,
    };
    let tst: TstInfo = match read_tst(&content) {
        None => {
            return Err(unverified("malformed TSTInfo"));
        },
        Some(t) => t,
    };
    if read_generalized_time(&tst.time).is_none() {
        return Err(unverified("malformed timestamp time"));
    }
    if !is_sha256(&tst.algorithm) || !bytes_eq(&sha256_digest(data), &tst.imprint) {
        return Err(unverified("timestamp imprint does not match the document"));
    }
    Ok(())
}

} // verus!
