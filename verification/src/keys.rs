//! Verifying signatures under a public key.
use signature::Verifier;
use spki::DecodePublicKey;
use vstd::prelude::*;

use crate::oids::{
    ecdsa_with_sha256_oid, ecdsa_with_sha384_oid, ecdsa_with_sha512_oid, ed25519_oid, is_ecdsa_with_sha256,
    is_ecdsa_with_sha384, is_ecdsa_with_sha512, is_ed25519, is_sha256_with_rsa, is_sha384_with_rsa,
    is_sha512_with_rsa, sha256_with_rsa_oid, sha384_with_rsa_oid, sha512_with_rsa_oid,
};

verus! {

/// Whether a PKCS#1 v1.5 signature over SHA-256 holds under the key, or why the
/// bytes hold no RSA key.
pub uninterp spec fn rsa_sha256_holds(spki: Seq<u8>, msg: Seq<u8>, sig: Seq<u8>) -> Result<bool, Seq<char>>;

/// Verifies an RSA signature over SHA-256: `rsa::pkcs1v15::VerifyingKey::verify`
/// under the key that `rsa::RsaPublicKey::from_public_key_der` reads. A signature
/// that `rsa::pkcs1v15::Signature` does not take does not hold.
#[verifier::external_body]
pub(crate) fn verify_rsa_sha256(spki: &[u8], msg: &[u8], sig: &[u8]) -> (r: Result<bool, String>)
    ensures
        match r {
            Ok(b) => rsa_sha256_holds(spki@, msg@, sig@) == Ok::<bool, Seq<char>>(b),
            Err(t) => rsa_sha256_holds(spki@, msg@, sig@) == Err::<bool, Seq<char>>(t@),
        },
{
    let key = rsa::RsaPublicKey::from_public_key_der(spki).map_err(|e| e.to_string())?;
    let verifier = rsa::pkcs1v15::VerifyingKey::<sha2::Sha256>::new(key);
    Ok(rsa::pkcs1v15::Signature::try_from(sig).is_ok_and(|s| verifier.verify(msg, &s).is_ok()))
}

/// Whether a PKCS#1 v1.5 signature over SHA-384 holds under the key, or why the
/// bytes hold no RSA key.
pub uninterp spec fn rsa_sha384_holds(spki: Seq<u8>, msg: Seq<u8>, sig: Seq<u8>) -> Result<bool, Seq<char>>;

/// Verifies an RSA signature over SHA-384: `rsa::pkcs1v15::VerifyingKey::verify`
/// under the key that `rsa::RsaPublicKey::from_public_key_der` reads. A signature
/// that `rsa::pkcs1v15::Signature` does not take does not hold.
#[verifier::external_body]
pub(crate) fn verify_rsa_sha384(spki: &[u8], msg: &[u8], sig: &[u8]) -> (r: Result<bool, String>)
    ensures
        match r {
            Ok(b) => rsa_sha384_holds(spki@, msg@, sig@) == Ok::<bool, Seq<char>>(b),
            Err(t) => rsa_sha384_holds(spki@, msg@, sig@) == Err::<bool, Seq<char>>(t@),
        },
{
    let key = rsa::RsaPublicKey::from_public_key_der(spki).map_err(|e| e.to_string())?;
    let verifier = rsa::pkcs1v15::VerifyingKey::<sha2::Sha384>::new(key);
    Ok(rsa::pkcs1v15::Signature::try_from(sig).is_ok_and(|s| verifier.verify(msg, &s).is_ok()))
}

/// Whether a PKCS#1 v1.5 signature over SHA-512 holds under the key, or why the
/// bytes hold no RSA key.
pub uninterp spec fn rsa_sha512_holds(spki: Seq<u8>, msg: Seq<u8>, sig: Seq<u8>) -> Result<bool, Seq<char>>;

/// Verifies an RSA signature over SHA-512: `rsa::pkcs1v15::VerifyingKey::verify`
/// under the key that `rsa::RsaPublicKey::from_public_key_der` reads. A signature
/// that `rsa::pkcs1v15::Signature` does not take does not hold.
#[verifier::external_body]
pub(crate) fn verify_rsa_sha512(spki: &[u8], msg: &[u8], sig: &[u8]) -> (r: Result<bool, String>)
    ensures
        match r {
            Ok(b) => rsa_sha512_holds(spki@, msg@, sig@) == Ok::<bool, Seq<char>>(b),
            Err(t) => rsa_sha512_holds(spki@, msg@, sig@) == Err::<bool, Seq<char>>(t@),
        },
{
    let key = rsa::RsaPublicKey::from_public_key_der(spki).map_err(|e| e.to_string())?;
    let verifier = rsa::pkcs1v15::VerifyingKey::<sha2::Sha512>::new(key);
    Ok(rsa::pkcs1v15::Signature::try_from(sig).is_ok_and(|s| verifier.verify(msg, &s).is_ok()))
}

/// Whether an ECDSA signature holds under a P-256 key; nothing where the key or
/// the signature is not of that curve.
pub uninterp spec fn p256_holds(spki: Seq<u8>, msg: Seq<u8>, sig: Seq<u8>) -> Option<bool>;

/// Verifies a P-256 signature, given as DER `ECDSA-Sig-Value`, with the curve's
/// own hash: `p256::ecdsa::VerifyingKey::verify`.
#[verifier::external_body]
fn verify_p256(spki: &[u8], msg: &[u8], sig: &[u8]) -> (r: Option<bool>)
    ensures
        r == p256_holds(spki@, msg@, sig@),
{
    let key = p256::ecdsa::VerifyingKey::from_public_key_der(spki).ok()?;
    let sig = p256::ecdsa::DerSignature::try_from(sig).ok()?;
    Some(key.verify(msg, &sig).is_ok())
}

/// Whether an ECDSA signature holds under a P-384 key; nothing where the key or
/// the signature is not of that curve.
pub uninterp spec fn p384_holds(spki: Seq<u8>, msg: Seq<u8>, sig: Seq<u8>) -> Option<bool>;

/// Verifies a P-384 signature, given as DER `ECDSA-Sig-Value`, with the curve's
/// own hash: `p384::ecdsa::VerifyingKey::verify`.
#[verifier::external_body]
fn verify_p384(spki: &[u8], msg: &[u8], sig: &[u8]) -> (r: Option<bool>)
    ensures
        r == p384_holds(spki@, msg@, sig@),
{
    let key = p384::ecdsa::VerifyingKey::from_public_key_der(spki).ok()?;
    let sig = p384::ecdsa::DerSignature::try_from(sig).ok()?;
    Some(key.verify(msg, &sig).is_ok())
}

/// Whether an Ed25519 signature holds under the key; nothing where the key or the
/// signature is malformed.
pub uninterp spec fn ed25519_holds(spki: Seq<u8>, msg: Seq<u8>, sig: Seq<u8>) -> Option<bool>;

/// Verifies an Ed25519 signature: `ed25519_dalek::VerifyingKey::verify`.
#[verifier::external_body]
fn verify_ed25519_key(spki: &[u8], msg: &[u8], sig: &[u8]) -> (r: Option<bool>)
    ensures
        r == ed25519_holds(spki@, msg@, sig@),
{
    let key = ed25519_dalek::VerifyingKey::from_public_key_der(spki).ok()?;
    let sig = ed25519::Signature::from_slice(sig).ok()?;
    Some(key.verify(msg, &sig).is_ok())
}

/// An ECDSA signature holds: under the first of P-256 and P-384 that the key and
/// the signature are of.
pub open spec fn ecdsa_holds(spki: Seq<u8>, msg: Seq<u8>, sig: Seq<u8>) -> bool {
    match p256_holds(spki, msg, sig) {
        Some(b) => b,
        None => p384_holds(spki, msg, sig) == Some(true),
    }
}

/// Verify an ECDSA signature (P-256 / P-384, DER `ECDSA-Sig-Value`) over `msg`.
pub fn verify_ecdsa(spki: &[u8], msg: &[u8], sig: &[u8]) -> (r: bool)
    ensures
        r == ecdsa_holds(spki@, msg@, sig@),
{
    match verify_p256(spki, msg, sig) {
        Some(b) => b,
        None => match verify_p384(spki, msg, sig) {
            Some(b) => b,
            None => false,
        },
    }
}

/// Verify an Ed25519 signature over `msg`.
pub fn verify_ed25519(spki: &[u8], msg: &[u8], sig: &[u8]) -> (r: bool)
    ensures
        r == (ed25519_holds(spki@, msg@, sig@) == Some(true)),
{
    match verify_ed25519_key(spki, msg, sig) {
        Some(b) => b,
        None => false,
    }
}

/// A signature over `msg` under the algorithm `oid` holds. SHA-1-based and other
/// algorithms are treated as unverifiable.
pub open spec fn signature_holds(msg: Seq<u8>, oid: Seq<u8>, sig: Seq<u8>, spki: Seq<u8>) -> bool {
    if oid == sha256_with_rsa_oid() {
        rsa_sha256_holds(spki, msg, sig) == Ok::<bool, Seq<char>>(true)
    } else if oid == sha384_with_rsa_oid() {
        rsa_sha384_holds(spki, msg, sig) == Ok::<bool, Seq<char>>(true)
    } else if oid == sha512_with_rsa_oid() {
        rsa_sha512_holds(spki, msg, sig) == Ok::<bool, Seq<char>>(true)
    } else if oid == ecdsa_with_sha256_oid() || oid == ecdsa_with_sha384_oid() || oid == ecdsa_with_sha512_oid() {
        ecdsa_holds(spki, msg, sig)
    } else if oid == ed25519_oid() {
        ed25519_holds(spki, msg, sig) == Some(true)
    } else {
        false
    }
}

/// Verify `sig` over `tbs` under the algorithm `oid`, using the signer's
/// SubjectPublicKeyInfo DER. Shared by certificate, CRL and OCSP verification.
/// SHA-1-based algorithms are treated as unverifiable.
pub fn verify_signature(tbs: &[u8], oid: &[u8], sig: &[u8], signer_spki_der: &[u8]) -> (r: bool)
    ensures
        r == signature_holds(tbs@, oid@, sig@, signer_spki_der@),
{
    if is_sha256_with_rsa(oid) {
        matches!(verify_rsa_sha256(signer_spki_der, tbs, sig), Ok(true))
    } else if is_sha384_with_rsa(oid) {
        matches!(verify_rsa_sha384(signer_spki_der, tbs, sig), Ok(true))
    } else if is_sha512_with_rsa(oid) {
        matches!(verify_rsa_sha512(signer_spki_der, tbs, sig), Ok(true))
    } else if is_ecdsa_with_sha256(oid) || is_ecdsa_with_sha384(oid) || is_ecdsa_with_sha512(oid) {
        verify_ecdsa(signer_spki_der, tbs, sig)
    } else if is_ed25519(oid) {
        verify_ed25519(signer_spki_der, tbs, sig)
    } else {
        false
    }
}

} // verus!
