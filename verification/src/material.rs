//! Which validation material a signature needs, and where to ask for it.
use der::{Decode, Encode};
use vstd::prelude::*;

use crate::certificate::{cert_views, opt_bytes, CertView, Certificate};
use crate::error::{Error, ErrorView};
use crate::http::starts_with;
use crate::names::{GeneralName, NameView};
use crate::oids::{is_ocsp_access, ocsp_access_oid};
use crate::signed_data::{cms_certificates, extract_timestamp_token, read_certificates, timestamp_token};
use crate::sorting::{sort_blobs, sorted};
use crate::text::{chars_of, is_text_at};
use crate::util::{blobs, bytes_eq, distinct};

verus! {

// ---------------------------------------------------------------------------
// Certificates

/// The certificates of signed data in DER.
pub open spec fn certs_in(cms: Seq<u8>) -> Result<Seq<Seq<u8>>, ErrorView> {
    match cms_certificates(cms) {
        Err(t) => Err(ErrorView::Crypto(t)),
        Ok(None) => Ok(Seq::empty()),
        Ok(Some(v)) => Ok(v),
    }
}

/// The certificates that a signature implies: those embedded in it, and those of
/// its timestamp token; sorted, each once.
pub open spec fn material_certs(cms: Seq<u8>) -> Result<Seq<Seq<u8>>, ErrorView> {
    match certs_in(cms) {
        Err(e) => Err(e),
        Ok(own) => match timestamp_token(cms) {
            Err(e) => Err(e),
            Ok(None) => Ok(sorted(own)),
            Ok(Some(token)) => match certs_in(token) {
                Err(e) => Err(e),
                Ok(more) => Ok(sorted(own + more)),
            },
        },
    }
}

/// The view of a result that carries byte strings.
pub open spec fn blobs_result(r: Result<Vec<Vec<u8>>, Error>) -> Result<Seq<Seq<u8>>, ErrorView> {
    match r {
        Ok(v) => Ok(blobs(v@)),
        Err(e) => Err(e@),
    }
}

fn collect_certs(cms_der: &[u8]) -> (r: Result<Vec<Vec<u8>>, Error>)
    ensures
        blobs_result(r) == certs_in(cms_der@),
{
    match read_certificates(cms_der) {
        Err(t) => Err(Error::Crypto(t)),
        Ok(None) => {
            let none: Vec<Vec<u8>> = Vec::new();
            assert(blobs(none@) =~= Seq::empty());
            Ok(none)
        },
        Ok(Some(v)) => Ok(v),
    }
}

/// The certificates that a signature implies: those embedded in it, and those of
/// its timestamp token; sorted, each once.
pub fn collect_material_certs(cms_der: &[u8]) -> (r: Result<Vec<Vec<u8>>, Error>)
    ensures
        blobs_result(r) == material_certs(cms_der@),
{
    let mut certs: Vec<Vec<u8>> = match collect_certs(cms_der) {
        Err(e) => {
            return Err(e);
        },
        Ok(v) => v,
    };
    match extract_timestamp_token(cms_der) {
        Err(e) => {
            return Err(e);
        },
        Ok(None) => {},
        Ok(Some(token)) => match collect_certs(&token) {
            Err(e) => {
                return Err(e);
            },
            Ok(more) => {
                let mut more: Vec<Vec<u8>> = more;
                let ghost (a, b) = (certs@, more@);
                certs.append(&mut more);
                assert(blobs(certs@) =~= blobs(a) + blobs(b));
            },
        },
    }
    Ok(sort_blobs(&certs))
}

// ---------------------------------------------------------------------------
// CRLs

/// The `http://` URIs among names.
pub open spec fn http_uris(names: Seq<NameView>) -> Seq<Seq<char>>
    decreases names.len(),
{
    if names.len() == 0 {
        Seq::empty()
    } else {
        let r = http_uris(names.drop_last());
        match names.last() {
            NameView::Uri(u) => if starts_with(u, "http://"@) {
                r.push(u)
            } else {
                r
            },
            _ => r,
        }
    }
}

/// The `http://` URIs in lists of names.
pub open spec fn http_uris_in(lists: Seq<Seq<NameView>>) -> Seq<Seq<char>>
    decreases lists.len(),
{
    if lists.len() == 0 {
        Seq::empty()
    } else {
        http_uris_in(lists.drop_last()) + http_uris(lists.last())
    }
}

/// The HTTP distribution points of a certificate's CRLs.
pub open spec fn crl_urls_of(cert: CertView) -> Seq<Seq<char>> {
    match cert.crl_points {
        None => Seq::empty(),
        Some(lists) => http_uris_in(lists),
    }
}

/// The HTTP distribution points of certificates, one behind the other.
pub open spec fn all_crl_urls(certs: Seq<CertView>) -> Seq<Seq<char>>
    decreases certs.len(),
{
    if certs.len() == 0 {
        Seq::empty()
    } else {
        all_crl_urls(certs.drop_last()) + crl_urls_of(certs.last())
    }
}

/// The views of texts.
pub open spec fn string_views(v: Seq<String>) -> Seq<Seq<char>> {
    Seq::new(v.len(), |i: int| v[i]@)
}

fn is_http(uri: &String) -> (r: bool)
    ensures
        r == starts_with(uri@, "http://"@),
{
    is_text_at(&chars_of(uri.as_str()), &chars_of("http://"), 0)
}

fn push_http_uris(out: &mut Vec<String>, names: &Vec<GeneralName>)
    ensures
        string_views(final(out)@) == string_views(old(out)@) + http_uris(crate::names::name_views(names@)),
{
    let ghost start = string_views(out@);
    let ghost v = crate::names::name_views(names@);
    let mut i: usize = 0;
    assert(v.take(0) =~= Seq::empty());
    while i < names.len()
        invariant
            i <= names.len(),
            v == crate::names::name_views(names@),
            string_views(out@) =~= start + http_uris(v.take(i as int)),
        decreases names.len() - i,
    {
        proof {
            let t = v.take(i + 1);
            assert(t.drop_last() =~= v.take(i as int));
            assert(t.last() == names@[i as int]@);
        }
        if let GeneralName::Uri(u) = &names[i] {
            if is_http(u) {
                let ghost before = string_views(out@);
                out.push(u.clone());
                assert(string_views(out@) =~= before.push(u@));
            }
        }
        i += 1;
    }
    assert(v.take(i as int) =~= v);
}

/// The HTTP distribution points of a certificate's CRLs.
pub fn crl_http_urls(cert: &Certificate) -> (r: Vec<String>)
    ensures
        string_views(r@) == crl_urls_of(cert@),
{
    let mut out: Vec<String> = Vec::new();
    assert(string_views(out@) =~= Seq::empty());
    if let Some(lists) = &cert.crl_points {
        let ghost v = crate::certificate::name_lists(lists@);
        let mut i: usize = 0;
        assert(v.take(0) =~= Seq::empty());
        while i < lists.len()
            invariant
                i <= lists.len(),
                v == crate::certificate::name_lists(lists@),
                cert@.crl_points == Some(v),
                string_views(out@) == http_uris_in(v.take(i as int)),
            decreases lists.len() - i,
        {
            proof {
                let t = v.take(i + 1);
                assert(t.drop_last() =~= v.take(i as int));
                assert(t.last() == crate::names::name_views(lists@[i as int]@));
            }
            push_http_uris(&mut out, &lists[i]);
            i += 1;
        }
        assert(v.take(i as int) =~= v);
    }
    out
}

fn contains_string(v: &Vec<String>, x: &String) -> (r: bool)
    ensures
        r == string_views(v@).contains(x@),
{
    let mut i: usize = 0;
    while i < v.len()
        invariant
            i <= v.len(),
            forall|k: int| 0 <= k < i ==> #[trigger] string_views(v@)[k] != x@,
        decreases v.len() - i,
    {
        if v[i] == *x {
            assert(string_views(v@)[i as int] == x@);
            return true;
        }
        i += 1;
    }
    false
}

/// Where the CRLs of certificates can be fetched, each place once.
pub fn crl_urls(certs: &Vec<Certificate>) -> (r: Vec<String>)
    ensures
        string_views(r@) == distinct(all_crl_urls(cert_views(certs@))),
{
    let mut out: Vec<String> = Vec::new();
    let ghost v = cert_views(certs@);
    let mut i: usize = 0;
    proof {
        assert(v.take(0) =~= Seq::empty());
        assert(string_views(out@) =~= Seq::empty());
    }
    while i < certs.len()
        invariant
            i <= certs.len(),
            v == cert_views(certs@),
            string_views(out@) == distinct(all_crl_urls(v.take(i as int))),
        decreases certs.len() - i,
    {
        proof {
            let t = v.take(i + 1);
            assert(t.drop_last() =~= v.take(i as int));
            assert(t.last() == certs@[i as int]@);
        }
        let urls: Vec<String> = crl_http_urls(&certs[i]);
        let ghost base = all_crl_urls(v.take(i as int));
        let ghost u = string_views(urls@);
        let mut j: usize = 0;
        assert(base + u.take(0) =~= base);
        while j < urls.len()
            invariant
                j <= urls.len(),
                u == string_views(urls@),
                string_views(out@) == distinct(base + u.take(j as int)),
            decreases urls.len() - j,
        {
            proof {
                let t = base + u.take(j + 1);
                assert(t.drop_last() =~= base + u.take(j as int));
                assert(t.last() == urls@[j as int]@);
            }
            if !contains_string(&out, &urls[j]) {
                let ghost before = string_views(out@);
                out.push(urls[j].clone());
                assert(string_views(out@) =~= before.push(urls@[j as int]@));
            }
            j += 1;
        }
        assert(u.take(j as int) =~= u);
        i += 1;
    }
    assert(v.take(i as int) =~= v);
    out
}

// ---------------------------------------------------------------------------
// OCSP

/// The first HTTP location for OCSP among access descriptions, from index `i` on.
pub open spec fn ocsp_location(a: Seq<(Seq<u8>, NameView)>, i: int) -> Option<Seq<char>>
    decreases a.len() - i,
{
    if i < 0 || i >= a.len() {
        None
    } else if a[i].0 == ocsp_access_oid() && (a[i].1 matches NameView::Uri(u) && starts_with(u, "http://"@)) {
        Some(a[i].1->Uri_0)
    } else {
        ocsp_location(a, i + 1)
    }
}

/// The HTTP OCSP responder of a certificate.
pub open spec fn ocsp_url_of(cert: CertView) -> Option<Seq<char>> {
    match cert.access {
        None => None,
        Some(a) => ocsp_location(a, 0),
    }
}

/// The HTTP OCSP responder URL from a certificate's Authority Information Access.
pub fn ocsp_url(cert: &Certificate) -> (r: Option<String>)
    ensures
        match ocsp_url_of(cert@) {
            Some(u) => r is Some && r->0@ == u,
            None => r is None,
        },
{
    match &cert.access {
        None => None,
        Some(a) => {
            let ghost v = crate::certificate::access_views(a@);
            let mut i: usize = 0;
            while i < a.len()
                invariant
                    i <= a.len(),
                    v == crate::certificate::access_views(a@),
                    cert@.access == Some(v),
                    ocsp_location(v, 0) == ocsp_location(v, i as int),
                decreases a.len() - i,
            {
                assert(v[i as int] == (a@[i as int].0@, a@[i as int].1@));
                if is_ocsp_access(&a[i].0) {
                    if let GeneralName::Uri(u) = &a[i].1 {
                        if is_http(u) {
                            return Some(u.clone());
                        }
                    }
                }
                i += 1;
            }
            None
        },
    }
}

/// The first certificate of the pool, from index `i` on, that bears the name of the
/// issuer of `cert` and is another certificate.
pub open spec fn issuer_index(cert: CertView, pool: Seq<CertView>, i: int) -> Option<int>
    decreases pool.len() - i,
{
    if i < 0 || i >= pool.len() {
        None
    } else if pool[i].core.subject == cert.core.issuer && pool[i].core.der != cert.core.der {
        Some(i)
    } else {
        issuer_index(cert, pool, i + 1)
    }
}

fn find_issuer(cert: &Certificate, pool: &Vec<Certificate>) -> (r: Option<usize>)
    ensures
        match issuer_index(cert@, cert_views(pool@), 0) {
            Some(i) => r is Some && r->0 == i && 0 <= i < pool@.len(),
            None => r is None,
        },
{
    let mut i: usize = 0;
    while i < pool.len()
        invariant
            i <= pool.len(),
            issuer_index(cert@, cert_views(pool@), 0) == issuer_index(cert@, cert_views(pool@), i as int),
        decreases pool.len() - i,
    {
        assert(cert_views(pool@)[i as int] == pool@[i as int]@);
        if bytes_eq(&pool[i].core.subject, &cert.core.issuer) && !bytes_eq(&pool[i].core.der, &cert.core.der) {
            return Some(i);
        }
        i += 1;
    }
    None
}

/// The OCSP request for the certificate with the given serial number, in DER, under
/// the issuer whose certificate is given.
pub uninterp spec fn ocsp_request(issuer: Seq<u8>, serial: Seq<u8>) -> Option<Seq<u8>>;

/// Builds an OCSP request: `x509_ocsp::Request::from_issuer` with SHA-1, and
/// `OcspRequestBuilder`.
#[verifier::external_body]
fn build_ocsp_request(issuer: &[u8], serial: &[u8]) -> (r: Option<Vec<u8>>)
    ensures
        opt_bytes(r) == ocsp_request(issuer@, serial@),
{
    let issuer = x509_cert::Certificate::from_der(issuer).ok()?;
    let serial = x509_cert::serial_number::SerialNumber::from_der(serial).ok()?;
    let request = x509_ocsp::Request::from_issuer::<sha1::Sha1>(&issuer, serial).ok()?;
    x509_ocsp::builder::OcspRequestBuilder::default().with_request(request).build().to_der().ok()
}

/// Whether an OCSP response says that it is a successful one, where the bytes hold a
/// response.
pub uninterp spec fn ocsp_successful(der: Seq<u8>) -> Option<bool>;

/// Reads the status of an OCSP response: `x509_ocsp::OcspResponse::from_der`.
#[verifier::external_body]
fn read_ocsp_status(der: &[u8]) -> (r: Option<bool>)
    ensures
        r == ocsp_successful(der@),
{
    let response = x509_ocsp::OcspResponse::from_der(der).ok()?;
    Some(response.response_status == x509_ocsp::OcspResponseStatus::Successful)
}

/// What to ask for a certificate's status: the place, and the request in DER.
pub open spec fn ocsp_query(cert: CertView, pool: Seq<CertView>) -> Option<(Seq<char>, Seq<u8>)> {
    match issuer_index(cert, pool, 0) {
        None => None,
        Some(i) => match ocsp_url_of(cert) {
            None => None,
            Some(url) => match ocsp_request(pool[i].core.der, cert.core.serial) {
                None => None,
                Some(body) => Some((url, body)),
            },
        },
    }
}

/// What to ask for the status of certificates, as far as their issuers are among
/// them.
pub open spec fn ocsp_queries(certs: Seq<CertView>, pool: Seq<CertView>) -> Seq<(Seq<char>, Seq<u8>)>
    decreases certs.len(),
{
    if certs.len() == 0 {
        Seq::empty()
    } else {
        let r = ocsp_queries(certs.drop_last(), pool);
        match ocsp_query(certs.last(), pool) {
            Some(q) => r.push(q),
            None => r,
        }
    }
}

/// The views of queries.
pub open spec fn query_views(v: Seq<(String, Vec<u8>)>) -> Seq<(Seq<char>, Seq<u8>)> {
    Seq::new(v.len(), |i: int| (v[i].0@, v[i].1@))
}

fn make_query(cert: &Certificate, pool: &Vec<Certificate>) -> (r: Option<(String, Vec<u8>)>)
    ensures
        match ocsp_query(cert@, cert_views(pool@)) {
            Some(q) => r matches Some((u, b)) && u@ == q.0 && b@ == q.1,
            None => r is None,
        },
{
    match find_issuer(cert, pool) {
        None => None,
        Some(i) => {
            assert(cert_views(pool@)[i as int] == pool@[i as int]@);
            match ocsp_url(cert) {
                None => None,
                Some(url) => match build_ocsp_request(&pool[i].core.der, &cert.core.serial) {
                    None => None,
                    Some(body) => Some((url, body)),
                },
            }
        },
    }
}

/// What to ask for the status of certificates, as far as their issuers are among
/// them.
pub fn make_queries(certs: &Vec<Certificate>) -> (r: Vec<(String, Vec<u8>)>)
    ensures
        query_views(r@) == ocsp_queries(cert_views(certs@), cert_views(certs@)),
{
    let mut out: Vec<(String, Vec<u8>)> = Vec::new();
    let ghost v = cert_views(certs@);
    let mut i: usize = 0;
    proof {
        assert(v.take(0) =~= Seq::empty());
        assert(query_views(out@) =~= Seq::empty());
    }
    while i < certs.len()
        invariant
            i <= certs.len(),
            v == cert_views(certs@),
            query_views(out@) == ocsp_queries(v.take(i as int), v),
        decreases certs.len() - i,
    {
        proof {
            let t = v.take(i + 1);
            assert(t.drop_last() =~= v.take(i as int));
            assert(t.last() == certs@[i as int]@);
        }
        if let Some((url, body)) = make_query(&certs[i], certs) {
            let ghost before = query_views(out@);
            let ghost x = (url@, body@);
            out.push((url, body));
            assert(query_views(out@) =~= before.push(x));
        }
        i += 1;
    }
    assert(v.take(i as int) =~= v);
    out
}

/// A reply is taken as a CRL if it is DER (a SEQUENCE); some endpoints serve PEM or
/// HTML.
pub open spec fn is_crl_reply(body: Seq<u8>) -> bool {
    body.len() > 0 && body[0] == 0x30
}

/// A reply is taken as a CRL if it is DER (a SEQUENCE).
pub fn accepts_crl(body: &[u8]) -> (r: bool)
    ensures
        r == is_crl_reply(body@),
{
    body.len() > 0 && body[0] == 0x30
}

/// A reply is taken as an OCSP response if it is a successful one.
pub fn accepts_ocsp(body: &[u8]) -> (r: bool)
    ensures
        r == (ocsp_successful(body@) == Some(true)),
{
    match read_ocsp_status(body) {
        Some(b) => b,
        None => false,
    }
}

} // verus!
