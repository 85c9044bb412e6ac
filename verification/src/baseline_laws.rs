//! What a signature that was made carries: the attributes of PAdES-B-B, the digest, the
//! signer and the certificates.
use vstd::prelude::*;

use crate::certificate::{cert_head, encoded_anew};
use crate::digest::sha256;
use crate::error::ErrorView;
use crate::key_laws::pkcs1_arc;
use crate::options::SignOptions;
use crate::sign::{
    embedded_cms, first_reply_keeps, first_signature, first_signature_holds, first_step, run, to_sign, StepView,
};
use crate::signature_laws::{hash_arc, holds_hash_of, lemma_digest_found};
use crate::signed_data::{
    cms_certificates, digests_among, first_values, found_digest, signed_values_at, signer_at, ValueView,
};
use crate::signer::{
    attribute_der, detected_kind, key_algorithm, keystore_of, lists_attribute, made_by, owned,
    signing_certificate_v2, signing_time_attribute, signing_time_oid, KeyChainView,
};

verus! {

/// One of the arcs of the attributes of PKCS#9 (1.2.840.113549.1.9).
pub open spec fn pkcs9_arc(rest: Seq<u8>) -> Seq<u8> {
    seq![0x2au8, 0x86, 0x48, 0x86, 0xf7, 0x0d, 0x01, 0x09] + rest
}

/// The value of a `SigningCertificateV2` that names a certificate by its SHA-256 hash
/// alone: sequences of one element around the hash.
pub open spec fn signing_certificate_value(hash: Seq<u8>) -> Seq<u8> {
    seq![0x30u8, 0x26, 0x30, 0x24, 0x30, 0x22, 0x04, 0x20] + hash
}

/// An entry of a list of attributes has a type and one value.
pub open spec fn has_entry(list: Seq<(Seq<u8>, Seq<Seq<u8>>)>, oid: Seq<u8>, value: Seq<u8>) -> bool {
    exists|k: int| 0 <= k < list.len() && #[trigger] list[k] == (oid, seq![value])
}

/// A CMS signature is one of PAdES-B-B over data, by the owner of the certificate `certs[0]`
/// at a time: what it signs holds `signing-certificate-v2` (1.2.840.113549.1.9.16.2.47) with
/// the SHA-256 hash of that certificate, `signingTime` (1.2.840.113549.1.9.5) with the time,
/// and `messageDigest` with the hash of the data under the algorithm that the signer names;
/// the signer is named by the issuer and the serial number of that certificate; and the
/// certificates of the list come with it, and no others.
pub open spec fn is_baseline(cms: Seq<u8>, data: Seq<u8>, certs: Seq<Seq<u8>>, now: u64) -> bool {
    match (signed_values_at(cms, 0), signer_at(cms, 0)) {
        (Ok(Some(list)), Ok(Some(head))) => {
            &&& head.count == 1
            &&& has_entry(list, pkcs9_arc(seq![0x10u8, 0x02, 0x2f]), signing_certificate_value(sha256(certs[0])))
            &&& signing_time_attribute(now) matches Ok(time) && has_entry(list, pkcs9_arc(seq![0x05u8]), time.skip(15))
            &&& exists|k: int| 0 <= k < list.len() && holds_hash_of(#[trigger] list[k], head.digest_oid, data)
            &&& cert_head(certs[0]) matches Ok(h) && head.issuer_and_serial == Some((h.issuer, h.serial))
            &&& cms_certificates(cms) matches Ok(Some(set)) && set.to_multiset() == Seq::new(
                certs.len(),
                |i: int| encoded_anew(certs[i]),
            ).to_multiset()
        },
        _ => false,
    }
}

/// Attributes of one short value that are the same in DER have the same type and value.
proof fn lemma_same_attribute(oid: Seq<u8>, value: Seq<u8>, oid2: Seq<u8>, value2: Seq<u8>)
    requires
        attribute_der(oid, value) == attribute_der(oid2, value2),
        oid2.len() + value2.len() < 100,
    ensures
        oid == oid2,
        value == value2,
{
    let (a, b) = (attribute_der(oid, value), attribute_der(oid2, value2));
    assert(a.len() == 6 + oid.len() + value.len());
    assert(b.len() == 6 + oid2.len() + value2.len());
    assert(a[3] == oid.len() as u8);
    assert(b[3] == oid2.len() as u8);
    assert(oid =~= a.subrange(4, 4 + oid.len() as int));
    assert(oid2 =~= b.subrange(4, 4 + oid2.len() as int));
    assert(value =~= a.skip(6 + oid.len() as int));
    assert(value2 =~= b.skip(6 + oid2.len() as int));
}

proof fn lemma_entry(list: Seq<(Seq<u8>, Seq<Seq<u8>>)>, oid: Seq<u8>, value: Seq<u8>)
    requires
        lists_attribute(list, attribute_der(oid, value)),
        oid.len() + value.len() < 100,
    ensures
        has_entry(list, oid, value),
{
    let k = choose|k: int| 0 <= k < list.len() && (#[trigger] list[k]).1.len() == 1 && attribute_der(
        list[k].0,
        list[k].1[0],
    ) == attribute_der(oid, value);
    lemma_same_attribute(list[k].0, list[k].1[0], oid, value);
    assert(list[k].1 =~= seq![value]);
    assert(list[k] == (oid, seq![value]));
}

/// A signature that a key chain made is one of PAdES-B-B, with the chain's certificates.
pub proof fn law_made_signature_is_baseline(cms: Seq<u8>, data: Seq<u8>, chain: KeyChainView, now: u64)
    requires
        made_by(cms, data, chain, now),
    ensures
        is_baseline(cms, data, chain.certs, now),
{
    let list = signed_values_at(cms, 0)->Ok_0->0;
    let head = signer_at(cms, 0)->Ok_0->0;
    let time = signing_time_attribute(now)->Ok_0;
    let hash = sha256(chain.certs[0]);
    let both = seq![time, signing_certificate_v2(hash)];
    assert(lists_attribute(list, both[0]));
    assert(lists_attribute(list, both[1]));
    let ess = pkcs9_arc(seq![0x10u8, 0x02, 0x2f]);
    lemma_ess(hash);
    lemma_entry(list, ess, signing_certificate_value(hash));
    assert(signing_time_oid() =~= pkcs9_arc(seq![0x05u8]));
    lemma_entry(list, signing_time_oid(), time.skip(15));
    lemma_digest_is_signed(cms, data, chain);
    assert(crate::certificate::all_encoded_anew(chain.certs) =~= Seq::new(
        chain.certs.len(),
        |i: int| encoded_anew(chain.certs[i]),
    ));
}

proof fn lemma_ess(hash: Seq<u8>)
    requires
        hash.len() == 32,
    ensures
        signing_certificate_v2(hash) == attribute_der(
            pkcs9_arc(seq![0x10u8, 0x02, 0x2f]),
            signing_certificate_value(hash),
        ),
{
    let ess = pkcs9_arc(seq![0x10u8, 0x02, 0x2f]);
    assert(crate::signer::signing_certificate_v2_oid() =~= ess);
    assert(signing_certificate_v2(hash) =~= attribute_der(ess, signing_certificate_value(hash)));
}

/// The digest among what is signed is that of the data.
proof fn lemma_digest_is_signed(cms: Seq<u8>, data: Seq<u8>, chain: KeyChainView)
    requires
        crate::signer::made_from(
            cms,
            crate::signer::digest_oid_for(detected_kind(chain.key)->Ok_0),
            crate::signer::digest_for(detected_kind(chain.key)->Ok_0, data),
            chain.certs[0],
            chain.certs,
        ),
        signed_values_at(cms, 0) matches Ok(Some(_)),
    ensures
        ({
            let list = signed_values_at(cms, 0)->Ok_0->0;
            let head = signer_at(cms, 0)->Ok_0->0;
            exists|k: int| 0 <= k < list.len() && holds_hash_of(#[trigger] list[k], head.digest_oid, data)
        }),
{
    let list = signed_values_at(cms, 0)->Ok_0->0;
    let head = signer_at(cms, 0)->Ok_0->0;
    let digest = crate::signer::digest_for(detected_kind(chain.key)->Ok_0, data);
    let firsts = first_values(list);
    let one = seq![ValueView::Octets(digest)];
    assert(one.drop_last() =~= Seq::empty());
    assert(found_digest(one.drop_last()) == Ok::<Option<Seq<u8>>, ErrorView>(None));
    assert(found_digest(digests_among(firsts)) == Ok::<Option<Seq<u8>>, ErrorView>(Some(digest)));
    let k = lemma_digest_found(firsts);
    assert(hash_arc(1) =~= crate::oids::sha256_oid());
    assert(hash_arc(2) =~= crate::oids::sha384_oid());
    assert(hash_arc(3) =~= crate::oids::sha512_oid());
    assert(holds_hash_of(list[k], head.digest_oid, data));
}

/// The signature that a run writes into a document is one of PAdES-B-B, at every level:
/// what the timestamp of a reply adds leaves what is signed as it is.
pub proof fn law_every_level_is_baseline(
    pdf: Seq<u8>,
    p12: Seq<u8>,
    password: Seq<char>,
    opts: SignOptions,
    now: u64,
    replies: Seq<Result<Seq<u8>, ErrorView>>,
    file: Seq<u8>,
)
    requires
        run(first_step(pdf, p12, password, opts, now), replies) == StepView::Done(Ok(file)),
        first_signature_holds(pdf, p12, password, opts, now),
        first_reply_keeps(pdf, p12, password, opts, now, replies),
        keystore_of(p12, password) matches Ok(Some(chain)) ==> owned(chain),
    ensures
        match (
            first_signature(pdf, p12, password, opts, now),
            keystore_of(p12, password),
        ) {
            (Some((v, lt, cms)), Ok(Some(chain))) => embedded_cms(opts.pades_level, cms, replies) matches Some(w)
                && is_baseline(w, to_sign(v, lt, opts.signature_capacity as nat), chain.certs, now),
            _ => false,
        },
{
    crate::level_laws::lemma_run_starts(pdf, p12, password, opts, now, replies, file);
    crate::level_laws::lemma_embedded_keeps(pdf, p12, password, opts, now, replies, file);
    let (v, lt, cms) = first_signature(pdf, p12, password, opts, now)->0;
    let chain = keystore_of(p12, password)->Ok_0->0;
    let data = to_sign(v, lt, opts.signature_capacity as nat);
    law_made_signature_is_baseline(cms, data, chain, now);
}

/// The digest algorithm that a signature names goes with the key: SHA-256 for RSA and P-256,
/// SHA-384 for P-384, SHA-512 for Ed25519.
pub proof fn law_digest_goes_with_the_key(cms: Seq<u8>, data: Seq<u8>, chain: KeyChainView, now: u64)
    requires
        made_by(cms, data, chain, now),
    ensures
        match (key_algorithm(chain.key), signer_at(cms, 0)) {
            (Ok(a), Ok(Some(head))) => {
                ||| a.oid == pkcs1_arc(1) && head.digest_oid == hash_arc(1)
                ||| a.oid == seq![0x2bu8, 0x65, 0x70] && head.digest_oid == hash_arc(3)
                ||| a.oid == seq![0x2au8, 0x86, 0x48, 0xce, 0x3d, 0x02, 0x01] && a.curve is Ok && a.curve->Ok_0.0
                    == seq![0x2au8, 0x86, 0x48, 0xce, 0x3d, 0x03, 0x01, 0x07] && head.digest_oid == hash_arc(1)
                ||| a.oid == seq![0x2au8, 0x86, 0x48, 0xce, 0x3d, 0x02, 0x01] && a.curve is Ok && a.curve->Ok_0.0
                    == seq![0x2bu8, 0x81, 0x04, 0x00, 0x22] && head.digest_oid == hash_arc(2)
            },
            _ => false,
        },
{
    assert(pkcs1_arc(1) =~= crate::oids::rsa_encryption_oid());
    assert(seq![0x2au8, 0x86, 0x48, 0xce, 0x3d, 0x02, 0x01] =~= crate::oids::ec_public_key_oid());
    assert(seq![0x2bu8, 0x65, 0x70] =~= crate::oids::ed25519_oid());
    assert(seq![0x2au8, 0x86, 0x48, 0xce, 0x3d, 0x03, 0x01, 0x07] =~= crate::oids::secp256r1_oid());
    assert(seq![0x2bu8, 0x81, 0x04, 0x00, 0x22] =~= crate::oids::secp384r1_oid());
    assert(hash_arc(1) =~= crate::oids::sha256_oid());
    assert(hash_arc(2) =~= crate::oids::sha384_oid());
    assert(hash_arc(3) =~= crate::oids::sha512_oid());
}

} // verus!
