//! What a valid signature is: which outside checks it passed, and over what.
use vstd::prelude::*;

use crate::certificate::{all_certificates, cert_head, cert_key, cert_subject, certificate_of, CertView};
use crate::digest::{sha256, sha384, sha512};
use crate::error::ErrorView;
use crate::key_laws::{curve_check, pkcs1_arc};
use crate::keys::{ed25519_holds, rsa_sha256_holds};
use crate::locate::SigView;
use crate::signed_data::{
    attributes_signed, cert_index, cms_choices, detached_verdict, digest_of, digests_among, first_values, found_digest,
    octet_value, octets_of, plain_certificates, signed_der_at, signed_values_at, signer_at, signer_index, HeadView,
    ValueView,
};
use crate::trust::StoreView;
use crate::verify::{cms_in_contents, verified};

verus! {

/// One of the arcs of the SHA-2 family (2.16.840.1.101.3.4.2).
pub open spec fn hash_arc(last: u8) -> Seq<u8> {
    seq![0x60u8, 0x86, 0x48, 0x01, 0x65, 0x03, 0x04, 0x02, last]
}

/// The bytes are the hash of the data under SHA-256, SHA-384 or SHA-512, as named.
pub open spec fn is_hash_of(hash: Seq<u8>, oid: Seq<u8>, data: Seq<u8>) -> bool {
    ||| oid == hash_arc(1) && hash == sha256(data)
    ||| oid == hash_arc(2) && hash == sha384(data)
    ||| oid == hash_arc(3) && hash == sha512(data)
}

/// The hashes that can be computed are those of the SHA-2 family.
pub proof fn lemma_hashes(oid: Seq<u8>, data: Seq<u8>)
    ensures
        forall|h: Seq<u8>| digest_of(oid, data) == Ok::<Seq<u8>, ErrorView>(h) <==> #[trigger] is_hash_of(h, oid, data),
{
    assert(hash_arc(1) =~= crate::oids::sha256_oid());
    assert(hash_arc(2) =~= crate::oids::sha384_oid());
    assert(hash_arc(3) =~= crate::oids::sha512_oid());
    assert(hash_arc(1)[8] == 1 && hash_arc(2)[8] == 2 && hash_arc(3)[8] == 3);
}

/// The outside check for the kind of a key says that a signature holds over the message:
/// RSA with SHA-256, ECDSA on the key's curve, or Ed25519.
pub open spec fn key_check(key_oid: Seq<u8>, spki: Seq<u8>, msg: Seq<u8>, sig: Seq<u8>) -> bool {
    ||| key_oid == pkcs1_arc(1) && rsa_sha256_holds(spki, msg, sig) == Ok::<bool, Seq<char>>(true)
    ||| key_oid == seq![0x2au8, 0x86, 0x48, 0xce, 0x3d, 0x02, 0x01] && curve_check(spki, msg, sig)
    ||| key_oid == seq![0x2bu8, 0x65, 0x70] && ed25519_holds(spki, msg, sig) == Some(true)
}

proof fn lemma_key_check(cert: CertView, msg: Seq<u8>, sig: Seq<u8>)
    ensures
        attributes_signed(cert, msg, sig) == Ok::<bool, ErrorView>(true) <==> key_check(
            cert.core.key_oid,
            cert.core.spki,
            msg,
            sig,
        ),
{
    let (a, b, c) = (pkcs1_arc(1), seq![0x2au8, 0x86, 0x48, 0xce, 0x3d, 0x02, 0x01], seq![0x2bu8, 0x65, 0x70]);
    assert(a =~= crate::oids::rsa_encryption_oid());
    assert(b =~= crate::oids::ec_public_key_oid());
    assert(c =~= crate::oids::ed25519_oid());
    assert(a.len() == 9 && b.len() == 7 && c.len() == 3);
}

/// The certificate in the bytes is the one that a signer identifier names, and its key
/// verifies the signature of the signer over the attributes.
pub open spec fn signed_under(cert: Seq<u8>, head: HeadView, attributes: Seq<u8>) -> bool {
    match (cert_head(cert), cert_key(cert)) {
        (Ok(h), Ok(k)) => head.issuer_and_serial == Some((h.issuer, h.serial)) && key_check(
            k.oid,
            k.spki,
            attributes,
            head.signature,
        ),
        _ => false,
    }
}

/// An attribute is a `messageDigest` (1.2.840.113549.1.9.4) whose first value holds the
/// hash of the data.
pub open spec fn holds_hash_of(attribute: (Seq<u8>, Seq<Seq<u8>>), oid: Seq<u8>, data: Seq<u8>) -> bool {
    &&& attribute.0 == seq![0x2au8, 0x86, 0x48, 0x86, 0xf7, 0x0d, 0x01, 0x09, 0x04]
    &&& attribute.1.len() > 0
    &&& octets_of(attribute.1[0]) matches Ok(h) && is_hash_of(h, oid, data)
}

/// The digest that is found is the first value of a `messageDigest` of the list.
pub proof fn lemma_digest_found(list: Seq<(Seq<u8>, Option<Seq<u8>>)>) -> (k: int)
    requires
        found_digest(digests_among(list)) matches Ok(Some(_)),
    ensures
        0 <= k < list.len(),
        list[k].0 == seq![0x2au8, 0x86, 0x48, 0x86, 0xf7, 0x0d, 0x01, 0x09, 0x04],
        list[k].1 is Some,
        octets_of(list[k].1->0) == Ok::<Seq<u8>, Seq<char>>(found_digest(digests_among(list))->Ok_0->0),
        forall|i: int| k < i < list.len() ==> (#[trigger] list[i]).0 != list[k].0,
    decreases list.len(),
{
    assert(crate::oids::message_digest_oid() =~= seq![0x2au8, 0x86, 0x48, 0x86, 0xf7, 0x0d, 0x01, 0x09, 0x04]);
    if list.len() == 0 {
        0
    } else {
        let t = list.drop_last();
        let (all, rest) = (digests_among(list), digests_among(t));
        if list.last().0 == crate::oids::message_digest_oid() {
            assert(all.drop_last() =~= rest);
            assert(all.last() == octet_value(list.last().1));
            list.len() - 1
        } else {
            let k = lemma_digest_found(t);
            assert forall|i: int| k < i < list.len() implies (#[trigger] list[i]).0 != list[k].0 by {
                if i < t.len() {
                    assert(t[i] == list[i]);
                }
            }
            k
        }
    }
}

/// The attributes before index `n` that are a `messageDigest` have a value that can be read.
pub open spec fn digests_read(list: Seq<(Seq<u8>, Option<Seq<u8>>)>, n: int) -> bool {
    forall|i: int|
        0 <= i < n && (#[trigger] list[i]).0 == seq![0x2au8, 0x86, 0x48, 0x86, 0xf7, 0x0d, 0x01, 0x09, 0x04] ==> list[i].1 is Some
            && octets_of(list[i].1->0) is Ok
}

proof fn lemma_digests_read(list: Seq<(Seq<u8>, Option<Seq<u8>>)>)
    requires
        digests_read(list, list.len() as int),
    ensures
        found_digest(digests_among(list)) is Ok,
    decreases list.len(),
{
    assert(crate::oids::message_digest_oid() =~= seq![0x2au8, 0x86, 0x48, 0x86, 0xf7, 0x0d, 0x01, 0x09, 0x04]);
    if list.len() > 0 {
        let t = list.drop_last();
        assert forall|i: int|
            0 <= i < t.len() && (#[trigger] t[i]).0 == seq![
                0x2au8,
                0x86,
                0x48,
                0x86,
                0xf7,
                0x0d,
                0x01,
                0x09,
                0x04,
            ] implies t[i].1 is Some && octets_of(t[i].1->0) is Ok by {
            assert(t[i] == list[i]);
        }
        lemma_digests_read(t);
        if list.last().0 == crate::oids::message_digest_oid() {
            let last = list[list.len() - 1];
            assert(last.1 is Some && octets_of(last.1->0) is Ok);
            assert(digests_among(list).drop_last() =~= digests_among(t));
        }
    }
}

/// Of several `messageDigest` attributes the last one counts, as long as all of them can be
/// read.
pub proof fn law_last_digest_counts(list: Seq<(Seq<u8>, Option<Seq<u8>>)>, k: int, h: Seq<u8>)
    requires
        0 <= k < list.len(),
        list[k].0 == seq![0x2au8, 0x86, 0x48, 0x86, 0xf7, 0x0d, 0x01, 0x09, 0x04],
        list[k].1 is Some && octets_of(list[k].1->0) == Ok::<Seq<u8>, Seq<char>>(h),
        forall|i: int| k < i < list.len() ==> (#[trigger] list[i]).0 != list[k].0,
        digests_read(list, k),
    ensures
        found_digest(digests_among(list)) == Ok::<Option<Seq<u8>>, ErrorView>(Some(h)),
    decreases list.len(),
{
    assert(crate::oids::message_digest_oid() =~= seq![0x2au8, 0x86, 0x48, 0x86, 0xf7, 0x0d, 0x01, 0x09, 0x04]);
    let t = list.drop_last();
    assert forall|i: int| 0 <= i < t.len() implies #[trigger] t[i] == list[i] by {}
    if k == list.len() - 1 {
        assert(digests_read(t, t.len() as int));
        lemma_digests_read(t);
        assert(digests_among(list).drop_last() =~= digests_among(t));
    } else {
        assert(list[list.len() - 1].0 != list[k].0);
        assert(digests_read(t, k));
        law_last_digest_counts(t, k, h);
    }
}

/// Each certificate that is taken is one of the choices.
pub proof fn lemma_plain(choices: Seq<Option<Seq<u8>>>, i: int) -> (j: int)
    requires
        0 <= i < plain_certificates(choices).len(),
    ensures
        0 <= j < choices.len(),
        choices[j] == Some(plain_certificates(choices)[i]),
    decreases choices.len(),
{
    let t = choices.drop_last();
    let (all, rest) = (plain_certificates(choices), plain_certificates(t));
    if i < rest.len() {
        let j = lemma_plain(t, i);
        assert(choices[j] == t[j]);
        j
    } else {
        choices.len() - 1
    }
}

/// The certificates of a list are read one by one.
pub proof fn lemma_all_read(ders: Seq<Seq<u8>>)
    requires
        all_certificates(ders) is Ok,
    ensures
        all_certificates(ders)->Ok_0.len() == ders.len(),
        forall|i: int|
            0 <= i < ders.len() ==> certificate_of(#[trigger] ders[i]) == Ok::<CertView, Seq<char>>(
                all_certificates(ders)->Ok_0[i],
            ),
    decreases ders.len(),
{
    if ders.len() > 0 {
        let t = ders.drop_last();
        lemma_all_read(t);
        assert forall|i: int| 0 <= i < ders.len() implies certificate_of(#[trigger] ders[i]) == Ok::<
            CertView,
            Seq<char>,
        >(all_certificates(ders)->Ok_0[i]) by {
            if i < t.len() {
                assert(t[i] == ders[i]);
            }
        }
    }
}

/// The certificate that is found has the issuer and the serial number.
pub proof fn lemma_index(certs: Seq<CertView>, issuer: Seq<u8>, serial: Seq<u8>, i: int)
    requires
        0 <= i,
    ensures
        cert_index(certs, issuer, serial, i) matches Some(j) ==> i <= j < certs.len() && certs[j].core.issuer == issuer
            && certs[j].core.serial == serial,
    decreases certs.len() - i,
{
    if i < certs.len() {
        lemma_index(certs, issuer, serial, i + 1);
    }
}

/// Signed data is accepted over data only if one of its signed attributes is a
/// `messageDigest` with the hash of the data, the last of that type, and the certificate in it that the signer
/// identifier names verifies, under its own key, the signature value over the DER of the
/// signed attributes: the outside check for RSA, ECDSA or Ed25519 said so.
pub proof fn law_accepted_signature_was_checked(der: Seq<u8>, data: Seq<u8>) -> (r: (int, int))
    requires
        detached_verdict(der, data) is Ok,
    ensures
        match (signer_at(der, 0), signed_der_at(der, 0), signed_values_at(der, 0), cms_choices(der)) {
            (Ok(Some(head)), Ok(Some(attributes)), Ok(Some(list)), Ok(Some(choices))) => {
                &&& 0 <= r.0 < list.len() && holds_hash_of(list[r.0], head.digest_oid, data)
                &&& forall|i: int| r.0 < i < list.len() ==> (#[trigger] list[i]).0 != list[r.0].0
                &&& 0 <= r.1 < choices.len() && choices[r.1] is Some && signed_under(choices[r.1]->0, head, attributes)
                &&& cert_subject(choices[r.1]->0) is Ok
                &&& detached_verdict(der, data) == Ok::<Seq<char>, ErrorView>(cert_subject(choices[r.1]->0)->Ok_0.text)
            },
            _ => false,
        },
{
    let head = signer_at(der, 0)->Ok_0->0;
    let attributes = signed_der_at(der, 0)->Ok_0->0;
    let list = signed_values_at(der, 0)->Ok_0->0;
    let choices = cms_choices(der)->Ok_0->0;
    let firsts = first_values(list);
    lemma_hashes(head.digest_oid, data);
    let k = lemma_digest_found(firsts);
    assert(firsts[k].0 == list[k].0);
    assert forall|i: int| k < i < list.len() implies (#[trigger] list[i]).0 != list[k].0 by {
        assert(firsts[i].0 == list[i].0);
    }
    let h = octets_of(list[k].1[0])->Ok_0;
    assert(is_hash_of(h, head.digest_oid, data));
    let ders = plain_certificates(choices);
    let certs = all_certificates(ders)->Ok_0;
    lemma_all_read(ders);
    let (issuer, serial) = head.issuer_and_serial->0;
    lemma_index(certs, issuer, serial, 0);
    let i = cert_index(certs, issuer, serial, 0)->0;
    assert(certificate_of(ders[i]) == Ok::<CertView, Seq<char>>(certs[i]));
    lemma_key_check(certs[i], attributes, head.signature);
    let j = lemma_plain(choices, i);
    (k, j)
}

/// The outcome for a signature that is no timestamp: it is valid only if the CMS in its
/// contents was checked over exactly the bytes of its byte range, and the signer that is
/// reported is the subject of the certificate whose key verified it.
pub proof fn law_valid_entry_was_checked(pdf: Seq<u8>, sig: SigView, store: StoreView, now: i64) -> (r: (int, int))
    requires
        verified(pdf, sig, store, now) matches Ok(v) && v.valid,
        !sig.is_timestamp,
    ensures
        ({
            let b = sig.byte_range;
            let der = cms_in_contents(sig.contents)->Ok_0;
            let data = pdf.subrange(b[0] as int, b[0] + b[1]) + pdf.subrange(b[2] as int, b[2] + b[3]);
            &&& 0 <= b[0] && 0 <= b[1] && b[0] + b[1] <= pdf.len() && 0 <= b[2] && 0 <= b[3] && b[2] + b[3] <= pdf.len()
            &&& der.len() <= sig.contents.len() && der == sig.contents.take(der.len() as int)
            &&& match (signer_at(der, 0), signed_der_at(der, 0), signed_values_at(der, 0), cms_choices(der)) {
                (Ok(Some(head)), Ok(Some(attributes)), Ok(Some(list)), Ok(Some(choices))) => {
                    &&& 0 <= r.0 < list.len() && holds_hash_of(list[r.0], head.digest_oid, data)
                    &&& 0 <= r.1 < choices.len() && choices[r.1] is Some && signed_under(
                        choices[r.1]->0,
                        head,
                        attributes,
                    )
                    &&& cert_subject(choices[r.1]->0) is Ok
                    &&& verified(pdf, sig, store, now)->Ok_0.signer == Some(cert_subject(choices[r.1]->0)->Ok_0.text)
                },
                _ => false,
            }
        }),
{
    let b = sig.byte_range;
    let der = cms_in_contents(sig.contents)->Ok_0;
    let data = pdf.subrange(b[0] as int, b[0] + b[1]) + pdf.subrange(b[2] as int, b[2] + b[3]);
    law_accepted_signature_was_checked(der, data)
}

/// A signature by one certificate: the certificate set holds one certificate that can be
/// read, and one attribute is a `messageDigest`.
pub open spec fn checked_signature(
    der: Seq<u8>,
    data: Seq<u8>,
    cert: Seq<u8>,
    head: HeadView,
    attributes: Seq<u8>,
    list: Seq<(Seq<u8>, Seq<Seq<u8>>)>,
    k: int,
) -> bool {
    &&& signer_at(der, 0) == Ok::<Option<HeadView>, Seq<char>>(Some(head))
    &&& signed_der_at(der, 0) == Ok::<Option<Seq<u8>>, Seq<char>>(Some(attributes))
    &&& signed_values_at(der, 0) == Ok::<Option<Seq<(Seq<u8>, Seq<Seq<u8>>)>>, Seq<char>>(Some(list))
    &&& cms_choices(der) == Ok::<Option<Seq<Option<Seq<u8>>>>, Seq<char>>(Some(seq![Some(cert)]))
    &&& cert_subject(cert) is Ok
    &&& signed_under(cert, head, attributes)
    &&& 0 <= k < list.len() && holds_hash_of(list[k], head.digest_oid, data)
    &&& forall|i: int|
        0 <= i < list.len() && i != k ==> (#[trigger] list[i]).0 != seq![
            0x2au8,
            0x86,
            0x48,
            0x86,
            0xf7,
            0x0d,
            0x01,
            0x09,
            0x04,
        ]
}

/// A signature that passes the checks is accepted: whoever signs data so that the digest,
/// the signer identifier and the signature value are right is named as its signer.
pub proof fn law_checked_signature_is_accepted(
    der: Seq<u8>,
    data: Seq<u8>,
    cert: Seq<u8>,
    head: HeadView,
    attributes: Seq<u8>,
    list: Seq<(Seq<u8>, Seq<Seq<u8>>)>,
    k: int,
)
    requires
        checked_signature(der, data, cert, head, attributes, list, k),
    ensures
        detached_verdict(der, data) == Ok::<Seq<char>, ErrorView>(cert_subject(cert)->Ok_0.text),
{
    let firsts = first_values(list);
    let choices = seq![Some(cert)];
    lemma_hashes(head.digest_oid, data);
    assert(choices.drop_last() =~= Seq::empty());
    assert(plain_certificates(choices.drop_last()) =~= Seq::empty());
    let ders = plain_certificates(choices);
    assert(ders =~= seq![cert]);
    assert(ders.drop_last() =~= Seq::empty());
    assert(all_certificates(ders.drop_last()) == Ok::<Seq<CertView>, Seq<char>>(Seq::empty()));
    let c = certificate_of(cert)->Ok_0;
    let certs = all_certificates(ders)->Ok_0;
    assert(certs =~= seq![c]);
    lemma_one_digest(firsts, k);
    let h = octets_of(list[k].1[0])->Ok_0;
    assert(digests_among(firsts) =~= seq![ValueView::Octets(h)]);
    let one = seq![ValueView::Octets(h)];
    assert(one.drop_last() =~= Seq::empty());
    assert(found_digest(one.drop_last()) == Ok::<Option<Seq<u8>>, ErrorView>(None));
    assert(found_digest(one) == Ok::<Option<Seq<u8>>, ErrorView>(Some(h)));
    assert(is_hash_of(h, head.digest_oid, data));
    lemma_key_check(c, attributes, head.signature);
    let (issuer, serial) = head.issuer_and_serial->0;
    assert(cert_index(certs, issuer, serial, 0) == Some(0int));
    assert(signer_index(head, Some(certs)) == Ok::<int, ErrorView>(0));
}

proof fn lemma_no_digest(list: Seq<(Seq<u8>, Option<Seq<u8>>)>)
    requires
        forall|i: int| 0 <= i < list.len() ==> (#[trigger] list[i]).0 != crate::oids::message_digest_oid(),
    ensures
        digests_among(list) =~= Seq::empty(),
    decreases list.len(),
{
    if list.len() > 0 {
        let t = list.drop_last();
        assert forall|i: int| 0 <= i < t.len() implies (#[trigger] t[i]).0 != crate::oids::message_digest_oid() by {
            assert(t[i] == list[i]);
        }
        lemma_no_digest(t);
        assert(list[list.len() - 1].0 != crate::oids::message_digest_oid());
    }
}

proof fn lemma_one_digest(list: Seq<(Seq<u8>, Option<Seq<u8>>)>, k: int)
    requires
        0 <= k < list.len(),
        list[k].0 == seq![0x2au8, 0x86, 0x48, 0x86, 0xf7, 0x0d, 0x01, 0x09, 0x04],
        forall|i: int|
            0 <= i < list.len() && i != k ==> (#[trigger] list[i]).0 != seq![
                0x2au8,
                0x86,
                0x48,
                0x86,
                0xf7,
                0x0d,
                0x01,
                0x09,
                0x04,
            ],
    ensures
        digests_among(list) == seq![octet_value(list[k].1)],
    decreases list.len(),
{
    assert(crate::oids::message_digest_oid() =~= seq![0x2au8, 0x86, 0x48, 0x86, 0xf7, 0x0d, 0x01, 0x09, 0x04]);
    let t = list.drop_last();
    if k == list.len() - 1 {
        assert forall|i: int| 0 <= i < t.len() implies (#[trigger] t[i]).0 != crate::oids::message_digest_oid() by {
            assert(t[i] == list[i]);
        }
        lemma_no_digest(t);
        assert(digests_among(list) =~= seq![octet_value(list[k].1)]);
    } else {
        assert forall|i: int| 0 <= i < t.len() && i != k implies (#[trigger] t[i]).0 != seq![
            0x2au8,
            0x86,
            0x48,
            0x86,
            0xf7,
            0x0d,
            0x01,
            0x09,
            0x04,
        ] by {
            assert(t[i] == list[i]);
        }
        lemma_one_digest(t, k);
        assert(list[list.len() - 1].0 != crate::oids::message_digest_oid());
    }
}

} // verus!
