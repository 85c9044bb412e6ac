//! When signing with a keystore succeeds, and what it is then asked to sign.
use vstd::prelude::*;

use crate::baseline_laws::{pkcs9_arc, signing_certificate_value};
use crate::certificate::{all_certificates, all_encoded_anew, certificate_of};
use crate::der_laws::der_value;
use crate::digest::{sha256, sha384, sha512};
use crate::error::ErrorView;
use crate::keystore::{chains_end, issuer_index, issuers_end, store_fits, HeldView};
use crate::signature_laws::hash_arc;
use crate::signer::{
    chain_signature, detected_kind, ed25519_public_key, keystore_of, keystore_signature, p256_public_key, p384_public_key,
    rsa_public_key, signed_with_ed25519, signed_with_p256, signed_with_p384, signed_with_rsa, signing_time_attribute,
    signs_in_time, KeyChainView, KeyKind,
};

verus! {

/// The `signing-certificate-v2` attribute as DER writes it.
pub open spec fn names_certificate(hash: Seq<u8>) -> Seq<u8> {
    der_value(
        0x30,
        der_value(0x06, pkcs9_arc(seq![0x10u8, 0x02, 0x2f])) + der_value(0x31, signing_certificate_value(hash)),
    )
}

/// The content type of what is signed, `id-data` (1.2.840.113549.1.7.1).
pub open spec fn data_arc() -> Seq<u8> {
    seq![0x2au8, 0x86, 0x48, 0x86, 0xf7, 0x0d, 0x01, 0x07, 0x01]
}

/// What the key of a chain makes of data and further attributes: signed data over the hash
/// that goes with the kind of the key, for the first certificate and with all of them.
pub open spec fn key_signature(
    kind: KeyKind,
    chain: KeyChainView,
    data: Seq<u8>,
    attributes: Seq<Seq<u8>>,
) -> Result<Seq<u8>, Seq<char>> {
    let (key, first, all) = (chain.key, chain.certs[0], chain.certs);
    match kind {
        KeyKind::Rsa => signed_with_rsa(key, data_arc(), hash_arc(1), sha256(data), attributes, first, all),
        KeyKind::P256 => signed_with_p256(key, data_arc(), hash_arc(1), sha256(data), attributes, first, all),
        KeyKind::P384 => signed_with_p384(key, data_arc(), hash_arc(2), sha384(data), attributes, first, all),
        KeyKind::Ed25519 => signed_with_ed25519(key, data_arc(), hash_arc(3), sha512(data), attributes, first, all),
    }
}

/// The key can be read as one of its kind.
pub open spec fn key_is_read(kind: KeyKind, key: Seq<u8>) -> bool {
    match kind {
        KeyKind::Rsa => rsa_public_key(key) is Ok,
        KeyKind::P256 => p256_public_key(key) is Ok,
        KeyKind::P384 => p384_public_key(key) is Ok,
        KeyKind::Ed25519 => ed25519_public_key(key) is Ok,
    }
}

proof fn lemma_short(tag: u8, content: Seq<u8>)
    requires
        content.len() < 0x80,
    ensures
        crate::der_reader::short_value(tag, content) == der_value(tag, content),
        der_value(tag, content).len() == 2 + content.len(),
{
    reveal(der_value);
    assert(crate::der_reader::short_value(tag, content) =~= der_value(tag, content));
}

proof fn lemma_attribute(hash: Seq<u8>)
    requires
        hash.len() == 32,
    ensures
        crate::signer::signing_certificate_v2(hash) == names_certificate(hash),
{
    let oid = pkcs9_arc(seq![0x10u8, 0x02, 0x2f]);
    assert(oid =~= crate::signer::signing_certificate_v2_oid());
    let value = signing_certificate_value(hash);
    let s = crate::der_reader::short_value(
        0x30,
        crate::der_reader::short_value(
            0x30,
            crate::der_reader::short_value(0x30, crate::der_reader::short_value(0x04, hash)),
        ),
    );
    assert(s =~= value);
    lemma_short(0x06, oid);
    lemma_short(0x31, value);
    lemma_short(0x30, der_value(0x06, oid) + der_value(0x31, value));
}

/// A key chain signs whatever its key can sign: where its first certificate and the others
/// can be read and differ, the key is of a known kind and can be read, and there is a time,
/// the outcome is what the key makes of the data, the time and the hash of the first
/// certificate.
pub proof fn law_signing_succeeds(chain: KeyChainView, data: Seq<u8>, now: u64, kind: KeyKind, time: Seq<u8>)
    requires
        chain.certs.len() > 0,
        certificate_of(chain.certs[0]) is Ok,
        detected_kind(chain.key) == Ok::<KeyKind, ErrorView>(kind),
        key_is_read(kind, chain.key),
        signing_time_attribute(now) == Ok::<Seq<u8>, Seq<char>>(time),
        signs_in_time(chain.key),
        all_certificates(chain.certs) is Ok,
        all_encoded_anew(chain.certs).no_duplicates(),
        sha256(chain.certs[0]).len() == 32,
    ensures
        match key_signature(kind, chain, data, seq![time, names_certificate(sha256(chain.certs[0]))]) {
            Ok(cms) => chain_signature(chain, data, now) == Ok::<Seq<u8>, ErrorView>(cms),
            Err(t) => chain_signature(chain, data, now) == Err::<Seq<u8>, ErrorView>(ErrorView::Crypto(t)),
        },
{
    lemma_attribute(sha256(chain.certs[0]));
    assert(data_arc() =~= crate::signer::data_oid());
    assert(hash_arc(1) =~= crate::oids::sha256_oid());
    assert(hash_arc(2) =~= crate::oids::sha384_oid());
    assert(hash_arc(3) =~= crate::oids::sha512_oid());
}

/// A keystore within bounds signs with the key chain that is in it; without one it does not
/// sign.
pub proof fn law_keystore_signs(p12: Seq<u8>, password: Seq<char>, data: Seq<u8>, now: u64)
    requires
        store_fits(p12, password),
        chains_end(p12, password),
    ensures
        match keystore_of(p12, password) {
            Ok(Some(chain)) => keystore_signature(p12, password, data, now) == chain_signature(chain, data, now),
            _ => keystore_signature(p12, password, data, now) is Err,
        },
{
}

/// Certificates, each the issuer of the one before: the first has the name, and the last
/// issued itself, or nobody has the name of its issuer.
pub open spec fn issuers(certs: Seq<HeldView>, name: Seq<char>, chain: Seq<int>) -> bool
    decreases chain.len(),
{
    if chain.len() == 0 {
        issuer_index(certs, name, 0) is None
    } else {
        issuer_index(certs, name, 0) == Some(chain[0]) && ((chain.len() == 1 && certs[chain[0]].issuer
            == certs[chain[0]].subject) || issuers(certs, certs[chain[0]].issuer, chain.skip(1)))
    }
}

proof fn lemma_issuers(certs: Seq<HeldView>, name: Seq<char>, chain: Seq<int>, fuel: nat)
    requires
        issuers(certs, name, chain),
        chain.len() <= fuel,
    ensures
        issuers_end(certs, name, fuel),
    decreases chain.len(),
{
    if chain.len() > 0 {
        let j = chain[0];
        if certs[j].issuer != certs[j].subject {
            lemma_issuers(certs, certs[j].issuer, chain.skip(1), (fuel - 1) as nat);
        }
    }
}

/// Issuers that come to an end are followed to it, as many as the keystore has.
pub proof fn law_issuers_are_followed(certs: Seq<HeldView>, name: Seq<char>, chain: Seq<int>)
    requires
        issuers(certs, name, chain),
        chain.len() <= certs.len(),
    ensures
        issuers_end(certs, name, certs.len()),
{
    lemma_issuers(certs, name, chain, certs.len());
}

/// Two certificates that issue one another are never taken for a chain that ends.
pub proof fn law_circles_are_refused(certs: Seq<HeldView>, a: int, b: int, fuel: nat)
    requires
        issuer_index(certs, certs[a].subject, 0) == Some(a),
        issuer_index(certs, certs[b].subject, 0) == Some(b),
        certs[a].issuer == certs[b].subject,
        certs[b].issuer == certs[a].subject,
        certs[a].subject != certs[b].subject,
    ensures
        !issuers_end(certs, certs[a].subject, fuel),
    decreases fuel,
{
    if fuel > 0 {
        law_circles_are_refused(certs, b, a, (fuel - 1) as nat);
    }
}

} // verus!
