//! What evidence revokes a certificate, and that nothing else does.
use vstd::prelude::*;

use crate::certificate::CertView;
use crate::digest::sha1;
use crate::key_laws::{checks_out, law_signature_is_checked};
use crate::revocation::{
    crl_lists, crl_envelope, crl_of, crl_serials, delegated, is_revoked, ocsp_envelope, ocsp_lists, ocsp_of,
    ocsp_singles, single_revokes, CrlView, EnvelopeView, OcspView, ResponderView, SingleView,
};

verus! {

/// The owner of a certificate signed the bytes.
pub open spec fn signed_by(msg: Seq<u8>, oid: Seq<u8>, sig: Option<Seq<u8>>, signer: CertView) -> bool {
    sig is Some && checks_out(msg, oid, sig->0, signer.core.spki)
}

/// A CRL of the issuer that is current at `at`: it names the issuer, the issuer signed it,
/// it is not from the future, and its successor is not due.
pub open spec fn current_crl(crl: CrlView, issuer: CertView, at: i64) -> bool {
    &&& crl.issuer == issuer.core.subject
    &&& signed_by(crl.tbs, crl.signature_oid, crl.signature, issuer)
    &&& crl.this_update <= at
    &&& crl.next_update is None || at <= crl.next_update->0
}

/// A current CRL that the issuer signed and that lists the serial number of a certificate
/// revokes it.
pub proof fn law_crl_revokes(
    cert: CertView,
    issuer: CertView,
    crls: Seq<CrlView>,
    ocsps: Seq<OcspView>,
    at: i64,
    k: int,
    n: int,
)
    requires
        0 <= k < crls.len(),
        current_crl(crls[k], issuer, at),
        crls[k].revoked is Some,
        0 <= n < crls[k].revoked->0.len(),
        crls[k].revoked->0[n] == cert.core.serial,
    ensures
        is_revoked(cert, issuer, crls, ocsps, at),
{
    let crl = crls[k];
    law_signature_is_checked(crl.tbs, crl.signature_oid, crl.signature->0, issuer.core.spki);
    assert(crl.revoked->0.contains(cert.core.serial));
    assert(crl_lists(cert, issuer, crls[k], at));
}

/// A response names the owner of a certificate as its responder: by the subject, or by the
/// SHA-1 hash of the key.
pub open spec fn names_responder(e: EnvelopeView, cert: CertView) -> bool {
    ||| e.responder == ResponderView::ByName(cert.core.subject)
    ||| cert.core.key_whole && e.responder == ResponderView::ByKey(sha1(cert.core.key_raw))
}

/// A single response is about the certificate, by the SHA-1 hashes of its issuer's name and
/// key and by its serial number, says that it is revoked, and is current at `at`.
pub open spec fn current_revocation(s: SingleView, cert: CertView, issuer: CertView, at: i64) -> bool {
    &&& s.revoked
    &&& s.serial == cert.core.serial
    &&& s.name_hash == sha1(issuer.core.subject)
    &&& s.key_hash == sha1(issuer.core.key_raw)
    &&& s.this_update <= at
    &&& s.next_update is None || at <= s.next_update->0
}

/// A certificate for a delegated responder of the issuer: the issuer is named in it and
/// signed it, and it asserts `id-kp-OCSPSigning` (1.3.6.1.5.5.7.3.9).
pub open spec fn delegate_of(c: CertView, issuer: CertView) -> bool {
    &&& c.core.issuer == issuer.core.subject
    &&& signed_by(c.core.tbs, c.core.signature_oid, c.core.signature, issuer)
    &&& c.extended_key_usage is Some
    &&& exists|u: int|
        0 <= u < c.extended_key_usage->0.len() && #[trigger] c.extended_key_usage->0[u] == seq![
            0x2bu8,
            0x06,
            0x01,
            0x05,
            0x05,
            0x07,
            0x03,
            0x09,
        ]
}

/// A response that the issuer signed in its own name revokes the certificate that one of
/// its current entries calls revoked.
pub proof fn law_issuers_response_revokes(
    cert: CertView,
    issuer: CertView,
    crls: Seq<CrlView>,
    ocsps: Seq<OcspView>,
    at: i64,
    k: int,
    n: int,
)
    requires
        0 <= k < ocsps.len(),
        names_responder(ocsps[k].envelope, issuer),
        signed_by(ocsps[k].envelope.tbs, ocsps[k].envelope.signature_oid, ocsps[k].envelope.signature, issuer),
        0 <= n < ocsps[k].responses.len(),
        current_revocation(ocsps[k].responses[n], cert, issuer, at),
    ensures
        is_revoked(cert, issuer, crls, ocsps, at),
{
    let e = ocsps[k].envelope;
    law_signature_is_checked(e.tbs, e.signature_oid, e.signature->0, issuer.core.spki);
    assert(single_revokes(ocsps[k].responses[n], cert, issuer, at));
    assert(ocsp_lists(cert, issuer, ocsps[k], at));
}

/// A response that is signed by a delegated responder, whose certificate came with it,
/// under that certificate's own key, revokes the certificate that one of its current
/// entries calls revoked.
pub proof fn law_delegates_response_revokes(
    cert: CertView,
    issuer: CertView,
    crls: Seq<CrlView>,
    ocsps: Seq<OcspView>,
    at: i64,
    k: int,
    d: int,
    n: int,
)
    requires
        0 <= k < ocsps.len(),
        0 <= d < ocsps[k].certs.len(),
        names_responder(ocsps[k].envelope, ocsps[k].certs[d]),
        delegate_of(ocsps[k].certs[d], issuer),
        signed_by(
            ocsps[k].envelope.tbs,
            ocsps[k].envelope.signature_oid,
            ocsps[k].envelope.signature,
            ocsps[k].certs[d],
        ),
        0 <= n < ocsps[k].responses.len(),
        current_revocation(ocsps[k].responses[n], cert, issuer, at),
    ensures
        is_revoked(cert, issuer, crls, ocsps, at),
{
    let o = ocsps[k];
    let (e, c) = (o.envelope, o.certs[d]);
    law_signature_is_checked(e.tbs, e.signature_oid, e.signature->0, c.core.spki);
    law_signature_is_checked(c.core.tbs, c.core.signature_oid, c.core.signature->0, issuer.core.spki);
    lemma_usage(c);
    assert(delegated(o, o.certs[d], issuer));
    assert(single_revokes(o.responses[n], cert, issuer, at));
    assert(ocsp_lists(cert, issuer, ocsps[k], at));
}

proof fn lemma_usage(c: CertView)
    ensures
        (c.extended_key_usage is Some && c.extended_key_usage->0.contains(crate::oids::ocsp_signing_oid())) <==> (
        c.extended_key_usage is Some && exists|u: int|
            0 <= u < c.extended_key_usage->0.len() && #[trigger] c.extended_key_usage->0[u] == seq![
                0x2bu8,
                0x06,
                0x01,
                0x05,
                0x05,
                0x07,
                0x03,
                0x09,
            ]),
{
    assert(crate::oids::ocsp_signing_oid() =~= seq![0x2bu8, 0x06, 0x01, 0x05, 0x05, 0x07, 0x03, 0x09]);
}

/// A response that an authorized responder of the issuer signed: the issuer itself, or a
/// delegate whose certificate came with the response.
pub open spec fn authorized(o: OcspView, issuer: CertView) -> bool {
    ||| names_responder(o.envelope, issuer) && signed_by(
        o.envelope.tbs,
        o.envelope.signature_oid,
        o.envelope.signature,
        issuer,
    )
    ||| exists|d: int|
        0 <= d < o.certs.len() && names_responder(o.envelope, #[trigger] o.certs[d]) && delegate_of(o.certs[d], issuer)
            && signed_by(o.envelope.tbs, o.envelope.signature_oid, o.envelope.signature, o.certs[d])
}

/// A certificate counts as revoked only on evidence: a current CRL that the issuer signed
/// lists its serial number, or an authorized response holds a current entry that calls it
/// revoked.
pub proof fn law_revocation_needs_evidence(
    cert: CertView,
    issuer: CertView,
    crls: Seq<CrlView>,
    ocsps: Seq<OcspView>,
    at: i64,
)
    requires
        is_revoked(cert, issuer, crls, ocsps, at),
    ensures
        (exists|k: int|
            0 <= k < crls.len() && current_crl(#[trigger] crls[k], issuer, at) && crls[k].revoked is Some
                && crls[k].revoked->0.contains(cert.core.serial)) || (exists|k: int, n: int|
            #![trigger ocsps[k].responses[n]]
            0 <= k < ocsps.len() && 0 <= n < ocsps[k].responses.len() && authorized(ocsps[k], issuer)
                && current_revocation(ocsps[k].responses[n], cert, issuer, at)),
{
    if exists|i: int| 0 <= i < crls.len() && #[trigger] crl_lists(cert, issuer, crls[i], at) {
        let k = choose|i: int| 0 <= i < crls.len() && #[trigger] crl_lists(cert, issuer, crls[i], at);
        let crl = crls[k];
        law_signature_is_checked(crl.tbs, crl.signature_oid, crl.signature->0, issuer.core.spki);
        assert(current_crl(crls[k], issuer, at));
    } else {
        let k = choose|i: int| 0 <= i < ocsps.len() && #[trigger] ocsp_lists(cert, issuer, ocsps[i], at);
        let o = ocsps[k];
        let e = o.envelope;
        let n = choose|i: int| 0 <= i < o.responses.len() && #[trigger] single_revokes(o.responses[i], cert, issuer, at);
        assert(current_revocation(ocsps[k].responses[n], cert, issuer, at));
        if e.signature is Some {
            law_signature_is_checked(e.tbs, e.signature_oid, e.signature->0, issuer.core.spki);
        }
        if exists|i: int| 0 <= i < o.certs.len() && #[trigger] delegated(o, o.certs[i], issuer) {
            let d = choose|i: int| 0 <= i < o.certs.len() && #[trigger] delegated(o, o.certs[i], issuer);
            let c = o.certs[d];
            law_signature_is_checked(e.tbs, e.signature_oid, e.signature->0, c.core.spki);
            law_signature_is_checked(c.core.tbs, c.core.signature_oid, c.core.signature->0, issuer.core.spki);
            lemma_usage(c);
            assert(names_responder(o.envelope, o.certs[d]));
            assert(delegate_of(o.certs[d], issuer));
        }
        assert(authorized(ocsps[k], issuer));
    }
}

/// What is read of a CRL is what stands in it, each part in its place.
pub proof fn law_crl_is_read(der: Seq<u8>)
    ensures
        crl_of(der) is Some <==> crl_envelope(der) is Some,
        crl_of(der) matches Some(c) ==> {
            let e = crl_envelope(der)->0;
            &&& c.issuer == e.issuer && c.tbs == e.tbs && c.signature == e.signature
            &&& c.signature_oid == e.signature_oid && c.this_update == e.this_update && c.next_update == e.next_update
            &&& c.revoked == crl_serials(der)
        },
{
}

/// What is read of an OCSP response is what stands in it, with the certificates that came
/// with it as far as they can be read.
pub proof fn law_ocsp_is_read(der: Seq<u8>, k: int)
    ensures
        ocsp_of(der) is Some <==> ocsp_envelope(der) is Some && ocsp_singles(der) is Some,
        ocsp_of(der) matches Some(o) ==> {
            &&& o.envelope == ocsp_envelope(der)->0
            &&& o.responses == ocsp_singles(der)->0
            &&& o.envelope.certs is None ==> o.certs.len() == 0
            &&& o.envelope.certs matches Some(ders) ==> (0 <= k < ders.len() ==> (crate::certificate::certificate_of(
                ders[k],
            ) matches Ok(c) ==> o.certs.contains(c)))
        },
{
    if let Some(o) = ocsp_of(der) {
        if let Some(ders) = o.envelope.certs {
            if 0 <= k < ders.len() {
                if let Ok(c) = crate::certificate::certificate_of(ders[k]) {
                    crate::trust_laws::lemma_certificates_of(ders, c);
                    assert(crate::certificate::certificate_of(ders[k]) == Ok::<CertView, Seq<char>>(c));
                }
            }
        }
    }
}

} // verus!
