//! Revocation by CRL and OCSP.
//!
//! Revocation is **soft-fail**: a CRL or OCSP response is only acted on once it is
//! authenticated (signed by the issuing CA / an authorized responder), in scope,
//! and current; when no such evidence is available a certificate is not treated
//! as revoked.
use der::{Decode, Encode};
use vstd::prelude::*;

use crate::certificate::{
    cert_views, certificates_of, opt_blobs, opt_bytes, parse_certificates, CertView, Certificate,
};
use crate::digest::{sha1, sha1_digest};
use crate::oids::{is_ocsp_signing, ocsp_signing_oid};
use crate::keys::{signature_holds, verify_signature};
use crate::util::{blobs, bytes_eq, contains_blob};

verus! {

// ---------------------------------------------------------------------------
// Links

/// `child` is issued by `issuer`: issuer/subject names match and the issuer's
/// public key verifies the child's signature.
pub open spec fn issued(child: CertView, issuer: CertView) -> bool {
    child.core.issuer == issuer.core.subject && (child.core.signature matches Some(sig) && signature_holds(
        child.core.tbs,
        child.core.signature_oid,
        sig,
        issuer.core.spki,
    ))
}

/// `child` is issued by `issuer`: issuer/subject names match and the issuer's
/// public key verifies the child's signature.
pub fn issued_by(child: &Certificate, issuer: &Certificate) -> (r: bool)
    ensures
        r == issued(child@, issuer@),
{
    if !bytes_eq(&child.core.issuer, &issuer.core.subject) {
        return false;
    }
    match &child.core.signature {
        Some(sig) => verify_signature(&child.core.tbs, &child.core.signature_oid, sig, &issuer.core.spki),
        None => false,
    }
}

/// `at` lies between the two updates; without a second one there is no end.
pub open spec fn is_current(at: i64, this_update: u64, next_update: Option<u64>) -> bool {
    at >= this_update && (next_update matches Some(n) ==> at <= n)
}

fn current(at: i64, this_update: u64, next_update: Option<u64>) -> (r: bool)
    ensures
        r == is_current(at, this_update, next_update),
{
    if at < 0 || (at as u64) < this_update {
        return false;
    }
    match next_update {
        Some(n) => at as u64 <= n,
        None => true,
    }
}

// ---------------------------------------------------------------------------
// CRLs

/// A certificate revocation list.
#[derive(Debug)]
pub struct Crl {
    /// The issuer's name in DER.
    pub issuer: Vec<u8>,
    /// The part that is signed, in DER.
    pub tbs: Vec<u8>,
    /// The signature, where it has a whole number of bytes.
    pub signature: Option<Vec<u8>>,
    pub signature_oid: Vec<u8>,
    /// Seconds since the Unix epoch.
    pub this_update: u64,
    pub next_update: Option<u64>,
    /// The serial numbers of the revoked certificates in DER.
    pub revoked: Option<Vec<Vec<u8>>>,
}

/// A certificate revocation list as a mathematical value.
pub struct CrlView {
    pub issuer: Seq<u8>,
    pub tbs: Seq<u8>,
    pub signature: Option<Seq<u8>>,
    pub signature_oid: Seq<u8>,
    pub this_update: u64,
    pub next_update: Option<u64>,
    pub revoked: Option<Seq<Seq<u8>>>,
}

impl Crl {
    pub open spec fn view(&self) -> CrlView {
        CrlView {
            issuer: self.issuer@,
            tbs: self.tbs@,
            signature: opt_bytes(self.signature),
            signature_oid: self.signature_oid@,
            this_update: self.this_update,
            next_update: self.next_update,
            revoked: opt_blobs(self.revoked),
        }
    }
}

/// The views of a list of CRLs.
pub open spec fn crl_views(v: Seq<Crl>) -> Seq<CrlView> {
    Seq::new(v.len(), |i: int| v[i]@)
}

/// The signed envelope of a CRL.
#[derive(Debug)]
pub struct CrlEnvelope {
    pub issuer: Vec<u8>,
    pub tbs: Vec<u8>,
    pub signature: Option<Vec<u8>>,
    pub signature_oid: Vec<u8>,
    pub this_update: u64,
    pub next_update: Option<u64>,
}

/// The envelope of a CRL as a mathematical value.
pub struct CrlEnvelopeView {
    pub issuer: Seq<u8>,
    pub tbs: Seq<u8>,
    pub signature: Option<Seq<u8>>,
    pub signature_oid: Seq<u8>,
    pub this_update: u64,
    pub next_update: Option<u64>,
}

impl CrlEnvelope {
    pub open spec fn view(&self) -> CrlEnvelopeView {
        CrlEnvelopeView {
            issuer: self.issuer@,
            tbs: self.tbs@,
            signature: opt_bytes(self.signature),
            signature_oid: self.signature_oid@,
            this_update: self.this_update,
            next_update: self.next_update,
        }
    }
}

/// The view of an optional envelope of a CRL.
pub open spec fn opt_crl_envelope(o: Option<CrlEnvelope>) -> Option<CrlEnvelopeView> {
    match o {
        Some(c) => Some(c@),
        None => None,
    }
}

/// The envelope of the CRL in the bytes, where they hold one.
pub uninterp spec fn crl_envelope(der: Seq<u8>) -> Option<CrlEnvelopeView>;

/// Reads the envelope of a CRL: `x509_cert::crl::CertificateList::from_der`, and the
/// DER that `to_der` gives of its parts.
#[verifier::external_body]
fn read_crl_envelope(der: &[u8]) -> (r: Option<CrlEnvelope>)
    ensures
        opt_crl_envelope(r) == crl_envelope(der@),
{
    let c = x509_cert::crl::CertificateList::from_der(der).ok()?;
    let t = &c.tbs_cert_list;
    Some(CrlEnvelope {
        issuer: t.issuer.to_der().ok()?,
        tbs: t.to_der().ok()?,
        signature: c.signature.as_bytes().map(<[u8]>::to_vec),
        signature_oid: c.signature_algorithm.oid.as_bytes().to_vec(),
        this_update: t.this_update.to_unix_duration().as_secs(),
        next_update: t.next_update.map(|n| n.to_unix_duration().as_secs()),
    })
}

/// The serial numbers that the CRL in the bytes lists, in DER, where they hold a CRL
/// and it has a list.
pub uninterp spec fn crl_serials(der: Seq<u8>) -> Option<Seq<Seq<u8>>>;

/// Reads the list of a CRL: `x509_cert::crl::CertificateList::from_der`, and the DER
/// of the serial numbers.
#[verifier::external_body]
fn read_crl_serials(der: &[u8]) -> (r: Option<Vec<Vec<u8>>>)
    ensures
        opt_blobs(r) == crl_serials(der@),
{
    let c = x509_cert::crl::CertificateList::from_der(der).ok()?;
    c.tbs_cert_list.revoked_certificates?.iter().map(|e| e.serial_number.to_der().ok()).collect()
}

/// The CRL in the bytes, where they hold one.
pub open spec fn crl_of(der: Seq<u8>) -> Option<CrlView> {
    match crl_envelope(der) {
        None => None,
        Some(e) => Some(
            CrlView {
                issuer: e.issuer,
                tbs: e.tbs,
                signature: e.signature,
                signature_oid: e.signature_oid,
                this_update: e.this_update,
                next_update: e.next_update,
                revoked: crl_serials(der),
            },
        ),
    }
}

/// Reads a CRL.
pub fn read_crl(der: &[u8]) -> (r: Option<Crl>)
    ensures
        match crl_of(der@) {
            Some(c) => r is Some && r->0@ == c,
            None => r is None,
        },
{
    match read_crl_envelope(der) {
        None => None,
        Some(e) => Some(
            Crl {
                issuer: e.issuer,
                tbs: e.tbs,
                signature: e.signature,
                signature_oid: e.signature_oid,
                this_update: e.this_update,
                next_update: e.next_update,
                revoked: read_crl_serials(der),
            },
        ),
    }
}

/// The CRLs in a list of byte strings; what holds none is dropped.
pub open spec fn crls_of(ders: Seq<Seq<u8>>) -> Seq<CrlView>
    decreases ders.len(),
{
    if ders.len() == 0 {
        Seq::empty()
    } else {
        match crl_of(ders.last()) {
            Some(c) => crls_of(ders.drop_last()).push(c),
            None => crls_of(ders.drop_last()),
        }
    }
}

/// Parse CRL DER blobs, silently dropping any that fail to decode.
pub fn parse_crls(ders: &Vec<Vec<u8>>) -> (r: Vec<Crl>)
    ensures
        crl_views(r@) == crls_of(blobs(ders@)),
{
    let mut out: Vec<Crl> = Vec::new();
    let mut i: usize = 0;
    proof {
        assert(blobs(ders@).take(0) =~= Seq::empty());
        assert(crl_views(out@) =~= Seq::empty());
    }
    while i < ders.len()
        invariant
            i <= ders.len(),
            crl_views(out@) == crls_of(blobs(ders@).take(i as int)),
        decreases ders.len() - i,
    {
        proof {
            let t = blobs(ders@).take(i + 1);
            assert(t.drop_last() =~= blobs(ders@).take(i as int));
            assert(t.last() == ders@[i as int]@);
        }
        if let Some(c) = read_crl(&ders[i]) {
            let ghost before = crl_views(out@);
            let ghost v = c@;
            out.push(c);
            assert(crl_views(out@) =~= before.push(v));
        }
        i += 1;
    }
    assert(blobs(ders@).take(i as int) =~= blobs(ders@));
    out
}

/// An **authenticated** CRL from `issuer` lists `cert` as revoked: it is in scope
/// (issued by this CA), its signature verifies under the CA's key, and it is
/// current.
pub open spec fn crl_lists(cert: CertView, issuer: CertView, crl: CrlView, at: i64) -> bool {
    crl.issuer == issuer.core.subject && (crl.signature matches Some(sig) && signature_holds(
        crl.tbs,
        crl.signature_oid,
        sig,
        issuer.core.spki,
    )) && is_current(at, crl.this_update, crl.next_update) && (crl.revoked matches Some(serials) && serials.contains(
        cert.core.serial,
    ))
}

/// Verify a CRL's signature under the issuing CA's public key.
pub fn verify_crl_signature(crl: &Crl, issuer: &Certificate) -> (r: bool)
    ensures
        r == (crl@.signature matches Some(sig) && signature_holds(
            crl@.tbs,
            crl@.signature_oid,
            sig,
            issuer@.core.spki,
        )),
{
    match &crl.signature {
        Some(sig) => verify_signature(&crl.tbs, &crl.signature_oid, sig, &issuer.core.spki),
        None => false,
    }
}

/// True if an **authenticated** CRL from `issuer` lists `cert` as revoked.
///
/// A CRL is only consulted when it is in scope (issued by this CA), its
/// signature verifies under the CA's key, and it is currently within its
/// `thisUpdate..nextUpdate` window. Unauthenticated, out-of-scope or stale CRLs
/// are ignored rather than trusted.
pub fn crl_revoked(cert: &Certificate, issuer: &Certificate, crls: &Vec<Crl>, at: i64) -> (r: bool)
    ensures
        r == (exists|i: int| 0 <= i < crls@.len() && #[trigger] crl_lists(cert@, issuer@, crl_views(crls@)[i], at)),
{
    let mut i: usize = 0;
    while i < crls.len()
        invariant
            i <= crls.len(),
            forall|k: int| 0 <= k < i ==> !#[trigger] crl_lists(cert@, issuer@, crl_views(crls@)[k], at),
        decreases crls.len() - i,
    {
        let crl: &Crl = &crls[i];
        assert(crl_views(crls@)[i as int] == crl@);
        if bytes_eq(&crl.issuer, &issuer.core.subject) && verify_crl_signature(crl, issuer) && current(
            at,
            crl.this_update,
            crl.next_update,
        ) {
            if let Some(revoked) = &crl.revoked {
                if contains_blob(revoked, &cert.core.serial) {
                    assert(crl_lists(cert@, issuer@, crl_views(crls@)[i as int], at));
                    return true;
                }
            }
        }
        i += 1;
    }
    false
}

// ---------------------------------------------------------------------------
// OCSP

/// Who signed an OCSP response.
#[derive(Debug)]
pub enum Responder {
    /// The responder's name in DER.
    ByName(Vec<u8>),
    /// The SHA-1 hash of the responder's public key.
    ByKey(Vec<u8>),
}

/// A responder as a mathematical value.
pub enum ResponderView {
    ByName(Seq<u8>),
    ByKey(Seq<u8>),
}

impl Responder {
    pub open spec fn view(&self) -> ResponderView {
        match *self {
            Responder::ByName(n) => ResponderView::ByName(n@),
            Responder::ByKey(h) => ResponderView::ByKey(h@),
        }
    }
}

/// What an OCSP response says of one certificate.
#[derive(Debug)]
pub struct SingleResponse {
    /// The hash of the issuer's name.
    pub name_hash: Vec<u8>,
    /// The hash of the issuer's key.
    pub key_hash: Vec<u8>,
    /// The certificate's serial number in DER.
    pub serial: Vec<u8>,
    pub revoked: bool,
    /// Seconds since the Unix epoch.
    pub this_update: u64,
    pub next_update: Option<u64>,
}

/// A single response as a mathematical value.
pub struct SingleView {
    pub name_hash: Seq<u8>,
    pub key_hash: Seq<u8>,
    pub serial: Seq<u8>,
    pub revoked: bool,
    pub this_update: u64,
    pub next_update: Option<u64>,
}

impl SingleResponse {
    pub open spec fn view(&self) -> SingleView {
        SingleView {
            name_hash: self.name_hash@,
            key_hash: self.key_hash@,
            serial: self.serial@,
            revoked: self.revoked,
            this_update: self.this_update,
            next_update: self.next_update,
        }
    }
}

/// The views of a list of single responses.
pub open spec fn single_views(v: Seq<SingleResponse>) -> Seq<SingleView> {
    Seq::new(v.len(), |i: int| v[i]@)
}

/// The signed envelope of an OCSP response.
#[derive(Debug)]
pub struct OcspEnvelope {
    /// The part that is signed, in DER.
    pub tbs: Vec<u8>,
    /// The signature, where it has a whole number of bytes.
    pub signature: Option<Vec<u8>>,
    pub signature_oid: Vec<u8>,
    pub responder: Responder,
    /// The certificates that came with the response, in DER.
    pub certs: Option<Vec<Vec<u8>>>,
}

/// An envelope as a mathematical value.
pub struct EnvelopeView {
    pub tbs: Seq<u8>,
    pub signature: Option<Seq<u8>>,
    pub signature_oid: Seq<u8>,
    pub responder: ResponderView,
    pub certs: Option<Seq<Seq<u8>>>,
}

impl OcspEnvelope {
    pub open spec fn view(&self) -> EnvelopeView {
        EnvelopeView {
            tbs: self.tbs@,
            signature: opt_bytes(self.signature),
            signature_oid: self.signature_oid@,
            responder: self.responder@,
            certs: opt_blobs(self.certs),
        }
    }
}

/// A basic OCSP response.
#[derive(Debug)]
pub struct Ocsp {
    pub envelope: OcspEnvelope,
    /// The certificates that came with the response, as far as they can be read.
    pub certs: Vec<Certificate>,
    pub responses: Vec<SingleResponse>,
}

/// A basic OCSP response as a mathematical value.
pub struct OcspView {
    pub envelope: EnvelopeView,
    pub certs: Seq<CertView>,
    pub responses: Seq<SingleView>,
}

impl Ocsp {
    pub open spec fn view(&self) -> OcspView {
        OcspView {
            envelope: self.envelope@,
            certs: cert_views(self.certs@),
            responses: single_views(self.responses@),
        }
    }
}

/// The views of a list of OCSP responses.
pub open spec fn ocsp_views(v: Seq<Ocsp>) -> Seq<OcspView> {
    Seq::new(v.len(), |i: int| v[i]@)
}

/// The view of an optional envelope.
pub open spec fn opt_envelope(o: Option<OcspEnvelope>) -> Option<EnvelopeView> {
    match o {
        Some(e) => Some(e@),
        None => None,
    }
}

/// The view of an optional list of single responses.
pub open spec fn opt_singles(o: Option<Vec<SingleResponse>>) -> Option<Seq<SingleView>> {
    match o {
        Some(v) => Some(single_views(v@)),
        None => None,
    }
}

/// The envelope of the basic response inside an OCSP response, where the bytes
/// hold one.
pub uninterp spec fn ocsp_envelope(der: Seq<u8>) -> Option<EnvelopeView>;

/// Reads the envelope of an OCSP response: `x509_ocsp::OcspResponse::from_der`,
/// and `BasicOcspResponse::from_der` of the bytes in it.
#[verifier::external_body]
fn read_ocsp_envelope(der: &[u8]) -> (r: Option<OcspEnvelope>)
    ensures
        opt_envelope(r) == ocsp_envelope(der@),
{
    let bytes = x509_ocsp::OcspResponse::from_der(der).ok()?.response_bytes?;
    let b = x509_ocsp::BasicOcspResponse::from_der(bytes.response.as_bytes()).ok()?;
    Some(OcspEnvelope {
        tbs: b.tbs_response_data.to_der().ok()?,
        signature: b.signature.as_bytes().map(<[u8]>::to_vec),
        signature_oid: b.signature_algorithm.oid.as_bytes().to_vec(),
        responder: match &b.tbs_response_data.responder_id {
            x509_ocsp::ResponderId::ByName(n) => Responder::ByName(n.to_der().ok()?),
            x509_ocsp::ResponderId::ByKey(h) => Responder::ByKey(h.as_bytes().to_vec()),
        },
        certs: b.certs.map(|v| v.iter().map(Encode::to_der).collect()).transpose().ok()?,
    })
}

/// What the basic response inside an OCSP response says of single certificates,
/// where the bytes hold one.
pub uninterp spec fn ocsp_singles(der: Seq<u8>) -> Option<Seq<SingleView>>;

/// Reads the single responses of an OCSP response: `x509_ocsp::OcspResponse::from_der`,
/// and `BasicOcspResponse::from_der` of the bytes in it.
#[verifier::external_body]
fn read_ocsp_singles(der: &[u8]) -> (r: Option<Vec<SingleResponse>>)
    ensures
        opt_singles(r) == ocsp_singles(der@),
{
    let bytes = x509_ocsp::OcspResponse::from_der(der).ok()?.response_bytes?;
    let b = x509_ocsp::BasicOcspResponse::from_der(bytes.response.as_bytes()).ok()?;
    let single = |s: &x509_ocsp::SingleResponse| -> Option<SingleResponse> {
        Some(SingleResponse {
            name_hash: s.cert_id.issuer_name_hash.as_bytes().to_vec(),
            key_hash: s.cert_id.issuer_key_hash.as_bytes().to_vec(),
            serial: s.cert_id.serial_number.to_der().ok()?,
            revoked: matches!(s.cert_status, x509_ocsp::CertStatus::Revoked(_)),
            this_update: s.this_update.0.to_unix_duration().as_secs(),
            next_update: s.next_update.map(|n| n.0.to_unix_duration().as_secs()),
        })
    };
    b.tbs_response_data.responses.iter().map(single).collect()
}

/// The basic OCSP response in the bytes, where they hold one.
pub open spec fn ocsp_of(der: Seq<u8>) -> Option<OcspView> {
    match (ocsp_envelope(der), ocsp_singles(der)) {
        (Some(envelope), Some(responses)) => Some(
            OcspView {
                envelope,
                certs: match envelope.certs {
                    Some(c) => certificates_of(c),
                    None => Seq::empty(),
                },
                responses,
            },
        ),
        _ => None,
    }
}

/// Reads a basic OCSP response.
pub fn read_ocsp(der: &[u8]) -> (r: Option<Ocsp>)
    ensures
        match ocsp_of(der@) {
            Some(o) => r is Some && r->0@ == o,
            None => r is None,
        },
{
    match (read_ocsp_envelope(der), read_ocsp_singles(der)) {
        (Some(envelope), Some(responses)) => {
            let certs: Vec<Certificate> = match &envelope.certs {
                Some(c) => parse_certificates(c),
                None => {
                    let none: Vec<Certificate> = Vec::new();
                    assert(cert_views(none@) =~= Seq::empty());
                    none
                },
            };
            Some(Ocsp { envelope, certs, responses })
        },
        _ => None,
    }
}

/// The OCSP responses in a list of byte strings; what holds none is dropped.
pub open spec fn ocsps_of(ders: Seq<Seq<u8>>) -> Seq<OcspView>
    decreases ders.len(),
{
    if ders.len() == 0 {
        Seq::empty()
    } else {
        match ocsp_of(ders.last()) {
            Some(o) => ocsps_of(ders.drop_last()).push(o),
            None => ocsps_of(ders.drop_last()),
        }
    }
}

/// Parse OCSP response DER blobs into their inner `BasicOCSPResponse`.
pub fn parse_ocsps(ders: &Vec<Vec<u8>>) -> (r: Vec<Ocsp>)
    ensures
        ocsp_views(r@) == ocsps_of(blobs(ders@)),
{
    let mut out: Vec<Ocsp> = Vec::new();
    let mut i: usize = 0;
    proof {
        assert(blobs(ders@).take(0) =~= Seq::empty());
        assert(ocsp_views(out@) =~= Seq::empty());
    }
    while i < ders.len()
        invariant
            i <= ders.len(),
            ocsp_views(out@) == ocsps_of(blobs(ders@).take(i as int)),
        decreases ders.len() - i,
    {
        proof {
            let t = blobs(ders@).take(i + 1);
            assert(t.drop_last() =~= blobs(ders@).take(i as int));
            assert(t.last() == ders@[i as int]@);
        }
        if let Some(o) = read_ocsp(&ders[i]) {
            let ghost before = ocsp_views(out@);
            let ghost v = o@;
            out.push(o);
            assert(ocsp_views(out@) =~= before.push(v));
        }
        i += 1;
    }
    assert(blobs(ders@).take(i as int) =~= blobs(ders@));
    out
}

/// The responder is the owner of `cert`, by subject name or by SHA-1 key hash.
pub open spec fn is_responder(rid: ResponderView, cert: CertView) -> bool {
    match rid {
        ResponderView::ByName(name) => name == cert.core.subject,
        ResponderView::ByKey(hash) => cert.core.key_whole && sha1(cert.core.key_raw) == hash,
    }
}

/// True if `rid` identifies `cert` (by subject name or by SHA-1 key hash).
pub fn responder_is(rid: &Responder, cert: &Certificate) -> (r: bool)
    ensures
        r == is_responder(rid@, cert@),
{
    match rid {
        Responder::ByName(name) => bytes_eq(name, &cert.core.subject),
        Responder::ByKey(hash) => cert.core.key_whole && bytes_eq(&sha1_digest(&cert.core.key_raw), hash),
    }
}

/// The certificate may sign OCSP responses for its issuer.
pub open spec fn signs_ocsp(cert: CertView) -> bool {
    cert.extended_key_usage matches Some(usages) && usages.contains(ocsp_signing_oid())
}

/// True if `cert` asserts the `id-kp-OCSPSigning` extended key usage.
pub fn has_ocsp_signing_eku(cert: &Certificate) -> (r: bool)
    ensures
        r == signs_ocsp(cert@),
{
    match &cert.extended_key_usage {
        None => false,
        Some(usages) => {
            let mut i: usize = 0;
            while i < usages.len()
                invariant
                    i <= usages.len(),
                    cert@.extended_key_usage == Some(blobs(usages@)),
                    forall|k: int| 0 <= k < i ==> #[trigger] blobs(usages@)[k] != ocsp_signing_oid(),
                decreases usages.len() - i,
            {
                if is_ocsp_signing(&usages[i]) {
                    assert(blobs(usages@)[i as int] == ocsp_signing_oid());
                    return true;
                }
                i += 1;
            }
            false
        },
    }
}

/// The response's signature holds under the key of `cert`.
pub open spec fn signed_with(e: EnvelopeView, cert: CertView) -> bool {
    e.signature matches Some(sig) && signature_holds(e.tbs, e.signature_oid, sig, cert.core.spki)
}

fn verify_with_cert(e: &OcspEnvelope, cert: &Certificate) -> (r: bool)
    ensures
        r == signed_with(e@, cert@),
{
    match &e.signature {
        Some(sig) => verify_signature(&e.tbs, &e.signature_oid, sig, &cert.core.spki),
        None => false,
    }
}

/// A delegated responder: identified by the response, certified by the issuer for
/// OCSP signing, and the signer of the response.
pub open spec fn delegated(o: OcspView, cert: CertView, issuer: CertView) -> bool {
    is_responder(o.envelope.responder, cert) && issued(cert, issuer) && signs_ocsp(cert) && signed_with(
        o.envelope,
        cert,
    )
}

/// The response is signed by `issuer` itself, or by a delegated responder whose
/// certificate came with it.
pub open spec fn is_authentic(o: OcspView, issuer: CertView) -> bool {
    (is_responder(o.envelope.responder, issuer) && signed_with(o.envelope, issuer)) || (exists|i: int|
        0 <= i < o.certs.len() && #[trigger] delegated(o, o.certs[i], issuer))
}

/// Verify that an OCSP response is signed by an authorized responder for
/// `issuer`: either `issuer` directly, or a delegated responder certificate
/// embedded in the response, issued by `issuer` and bearing the OCSP-signing EKU.
pub fn ocsp_authentic(basic: &Ocsp, issuer: &Certificate) -> (r: bool)
    ensures
        r == is_authentic(basic@, issuer@),
{
    if responder_is(&basic.envelope.responder, issuer) && verify_with_cert(&basic.envelope, issuer) {
        return true;
    }
    let mut i: usize = 0;
    while i < basic.certs.len()
        invariant
            i <= basic.certs.len(),
            forall|k: int| 0 <= k < i ==> !#[trigger] delegated(basic@, basic@.certs[k], issuer@),
        decreases basic.certs.len() - i,
    {
        let c: &Certificate = &basic.certs[i];
        assert(basic@.certs[i as int] == c@);
        if responder_is(&basic.envelope.responder, c) && issued_by(c, issuer) && has_ocsp_signing_eku(c)
            && verify_with_cert(&basic.envelope, c) {
            assert(delegated(basic@, basic@.certs[i as int], issuer@));
            return true;
        }
        i += 1;
    }
    false
}

/// A single response is about `cert` under `issuer`: hashes of the issuer's name
/// and key, and the serial number.
pub open spec fn is_about(s: SingleView, cert: CertView, issuer: CertView) -> bool {
    s.name_hash == sha1(issuer.core.subject) && s.key_hash == sha1(issuer.core.key_raw) && s.serial
        == cert.core.serial
}

/// A response revokes `cert` in one of its single responses that is current.
pub open spec fn ocsp_lists(cert: CertView, issuer: CertView, o: OcspView, at: i64) -> bool {
    is_authentic(o, issuer) && exists|i: int|
        0 <= i < o.responses.len() && #[trigger] single_revokes(o.responses[i], cert, issuer, at)
}

/// A single response revokes `cert` and is current.
pub open spec fn single_revokes(s: SingleView, cert: CertView, issuer: CertView, at: i64) -> bool {
    is_about(s, cert, issuer) && s.revoked && is_current(at, s.this_update, s.next_update)
}

/// True if an **authenticated** OCSP response marks `cert` (under `issuer`) as
/// revoked. The response must be signed either by the issuer itself or by a
/// delegated responder it certified (with the `id-kp-OCSPSigning` EKU), and the
/// matching single response must be current. Unauthenticated or stale responses
/// are ignored (soft-fail, see [`revoked`]).
pub fn ocsp_revoked(cert: &Certificate, issuer: &Certificate, ocsps: &Vec<Ocsp>, at: i64) -> (r: bool)
    ensures
        r == (exists|i: int|
            0 <= i < ocsps@.len() && #[trigger] ocsp_lists(cert@, issuer@, ocsp_views(ocsps@)[i], at)),
{
    let name_hash: Vec<u8> = sha1_digest(&issuer.core.subject);
    let key_hash: Vec<u8> = sha1_digest(&issuer.core.key_raw);
    let mut i: usize = 0;
    while i < ocsps.len()
        invariant
            i <= ocsps.len(),
            name_hash@ == sha1(issuer@.core.subject),
            key_hash@ == sha1(issuer@.core.key_raw),
            forall|k: int| 0 <= k < i ==> !#[trigger] ocsp_lists(cert@, issuer@, ocsp_views(ocsps@)[k], at),
        decreases ocsps.len() - i,
    {
        let basic: &Ocsp = &ocsps[i];
        assert(ocsp_views(ocsps@)[i as int] == basic@);
        if ocsp_authentic(basic, issuer) {
            let mut j: usize = 0;
            while j < basic.responses.len()
                invariant
                    j <= basic.responses.len(),
                    name_hash@ == sha1(issuer@.core.subject),
                    key_hash@ == sha1(issuer@.core.key_raw),
                    i < ocsps.len(),
                    ocsp_views(ocsps@)[i as int] == basic@,
                    is_authentic(basic@, issuer@),
                    forall|k: int|
                        0 <= k < j ==> !#[trigger] single_revokes(basic@.responses[k], cert@, issuer@, at),
                decreases basic.responses.len() - j,
            {
                let s: &SingleResponse = &basic.responses[j];
                assert(basic@.responses[j as int] == s@);
                if bytes_eq(&s.name_hash, &name_hash) && bytes_eq(&s.key_hash, &key_hash) && bytes_eq(
                    &s.serial,
                    &cert.core.serial,
                ) && s.revoked && current(at, s.this_update, s.next_update) {
                    assert(single_revokes(basic@.responses[j as int], cert@, issuer@, at));
                    assert(ocsp_lists(cert@, issuer@, ocsp_views(ocsps@)[i as int], at));
                    return true;
                }
                j += 1;
            }
        }
        i += 1;
    }
    false
}

// ---------------------------------------------------------------------------
// Either

/// `cert` is revoked by `issuer` according to an authenticated, current CRL or
/// OCSP response.
pub open spec fn is_revoked(
    cert: CertView,
    issuer: CertView,
    crls: Seq<CrlView>,
    ocsps: Seq<OcspView>,
    at: i64,
) -> bool {
    (exists|i: int| 0 <= i < crls.len() && #[trigger] crl_lists(cert, issuer, crls[i], at)) || (exists|i: int|
        0 <= i < ocsps.len() && #[trigger] ocsp_lists(cert, issuer, ocsps[i], at))
}

/// True if `cert` is revoked by `issuer` according to any authenticated CRL or
/// OCSP response. Revocation is soft-fail: when no usable (authenticated, fresh,
/// in-scope) evidence is available the certificate is *not* treated as revoked.
pub fn revoked(cert: &Certificate, issuer: &Certificate, crls: &Vec<Crl>, ocsps: &Vec<Ocsp>, at: i64) -> (r: bool)
    ensures
        r == is_revoked(cert@, issuer@, crl_views(crls@), ocsp_views(ocsps@), at),
{
    crl_revoked(cert, issuer, crls, at) || ocsp_revoked(cert, issuer, ocsps, at)
}

/// Without evidence that is authentic for the issuer and current, no certificate
/// is treated as revoked: forged and stale lists never flip the verdict.
pub proof fn law_revocation_is_soft_fail(
    cert: CertView,
    issuer: CertView,
    crls: Seq<CrlView>,
    ocsps: Seq<OcspView>,
    at: i64,
)
    requires
        forall|i: int|
            0 <= i < crls.len() ==> !((#[trigger] crls[i]).signature matches Some(sig) && signature_holds(
                crls[i].tbs,
                crls[i].signature_oid,
                sig,
                issuer.core.spki,
            )) || !is_current(at, crls[i].this_update, crls[i].next_update),
        forall|i: int|
            0 <= i < ocsps.len() ==> !is_authentic(#[trigger] ocsps[i], issuer) || forall|j: int|
                0 <= j < ocsps[i].responses.len() ==> !is_current(
                    at,
                    (#[trigger] ocsps[i].responses[j]).this_update,
                    ocsps[i].responses[j].next_update,
                ),
    ensures
        !is_revoked(cert, issuer, crls, ocsps, at),
{
    assert forall|i: int| 0 <= i < crls.len() implies !#[trigger] crl_lists(cert, issuer, crls[i], at) by {
        let c = crls[i];
    }
    assert forall|i: int| 0 <= i < ocsps.len() implies !#[trigger] ocsp_lists(cert, issuer, ocsps[i], at) by {
        let o = ocsps[i];
        if is_authentic(o, issuer) {
            assert forall|j: int| 0 <= j < o.responses.len() implies !#[trigger] single_revokes(
                o.responses[j],
                cert,
                issuer,
                at,
            ) by {
                let s = o.responses[j];
            }
        }
    }
}

} // verus!
