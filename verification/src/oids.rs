//! Object identifiers, by the content bytes of their DER encoding.
use vstd::prelude::*;

use crate::util::bytes_eq;

verus! {

/// The identifier of SHA-256 (2.16.840.1.101.3.4.2.1).
pub open spec fn sha256_oid() -> Seq<u8> {
    seq![0x60u8, 0x86u8, 0x48u8, 0x01u8, 0x65u8, 0x03u8, 0x04u8, 0x02u8, 0x01u8]
}

/// Tests for the identifier of SHA-256.
pub fn is_sha256(oid: &[u8]) -> (r: bool)
    ensures
        r == (oid@ == sha256_oid()),
{
    let o: [u8; 9] = [0x60, 0x86, 0x48, 0x01, 0x65, 0x03, 0x04, 0x02, 0x01];
    assert(o@ =~= sha256_oid());
    bytes_eq(oid, &o)
}

/// The identifier of SHA-384 (2.16.840.1.101.3.4.2.2).
pub open spec fn sha384_oid() -> Seq<u8> {
    seq![0x60u8, 0x86u8, 0x48u8, 0x01u8, 0x65u8, 0x03u8, 0x04u8, 0x02u8, 0x02u8]
}

/// Tests for the identifier of SHA-384.
pub fn is_sha384(oid: &[u8]) -> (r: bool)
    ensures
        r == (oid@ == sha384_oid()),
{
    let o: [u8; 9] = [0x60, 0x86, 0x48, 0x01, 0x65, 0x03, 0x04, 0x02, 0x02];
    assert(o@ =~= sha384_oid());
    bytes_eq(oid, &o)
}

/// The identifier of SHA-512 (2.16.840.1.101.3.4.2.3).
pub open spec fn sha512_oid() -> Seq<u8> {
    seq![0x60u8, 0x86u8, 0x48u8, 0x01u8, 0x65u8, 0x03u8, 0x04u8, 0x02u8, 0x03u8]
}

/// Tests for the identifier of SHA-512.
pub fn is_sha512(oid: &[u8]) -> (r: bool)
    ensures
        r == (oid@ == sha512_oid()),
{
    let o: [u8; 9] = [0x60, 0x86, 0x48, 0x01, 0x65, 0x03, 0x04, 0x02, 0x03];
    assert(o@ =~= sha512_oid());
    bytes_eq(oid, &o)
}

/// The identifier of RSA keys (1.2.840.113549.1.1.1).
pub open spec fn rsa_encryption_oid() -> Seq<u8> {
    seq![0x2au8, 0x86u8, 0x48u8, 0x86u8, 0xf7u8, 0x0du8, 0x01u8, 0x01u8, 0x01u8]
}

/// Tests for the identifier of RSA keys.
pub fn is_rsa_encryption(oid: &[u8]) -> (r: bool)
    ensures
        r == (oid@ == rsa_encryption_oid()),
{
    let o: [u8; 9] = [0x2a, 0x86, 0x48, 0x86, 0xf7, 0x0d, 0x01, 0x01, 0x01];
    assert(o@ =~= rsa_encryption_oid());
    bytes_eq(oid, &o)
}

/// The identifier of RSA signatures over SHA-256 (1.2.840.113549.1.1.11).
pub open spec fn sha256_with_rsa_oid() -> Seq<u8> {
    seq![0x2au8, 0x86u8, 0x48u8, 0x86u8, 0xf7u8, 0x0du8, 0x01u8, 0x01u8, 0x0bu8]
}

/// Tests for the identifier of RSA signatures over SHA-256.
pub fn is_sha256_with_rsa(oid: &[u8]) -> (r: bool)
    ensures
        r == (oid@ == sha256_with_rsa_oid()),
{
    let o: [u8; 9] = [0x2a, 0x86, 0x48, 0x86, 0xf7, 0x0d, 0x01, 0x01, 0x0b];
    assert(o@ =~= sha256_with_rsa_oid());
    bytes_eq(oid, &o)
}

/// The identifier of RSA signatures over SHA-384 (1.2.840.113549.1.1.12).
pub open spec fn sha384_with_rsa_oid() -> Seq<u8> {
    seq![0x2au8, 0x86u8, 0x48u8, 0x86u8, 0xf7u8, 0x0du8, 0x01u8, 0x01u8, 0x0cu8]
}

/// Tests for the identifier of RSA signatures over SHA-384.
pub fn is_sha384_with_rsa(oid: &[u8]) -> (r: bool)
    ensures
        r == (oid@ == sha384_with_rsa_oid()),
{
    let o: [u8; 9] = [0x2a, 0x86, 0x48, 0x86, 0xf7, 0x0d, 0x01, 0x01, 0x0c];
    assert(o@ =~= sha384_with_rsa_oid());
    bytes_eq(oid, &o)
}

/// The identifier of RSA signatures over SHA-512 (1.2.840.113549.1.1.13).
pub open spec fn sha512_with_rsa_oid() -> Seq<u8> {
    seq![0x2au8, 0x86u8, 0x48u8, 0x86u8, 0xf7u8, 0x0du8, 0x01u8, 0x01u8, 0x0du8]
}

/// Tests for the identifier of RSA signatures over SHA-512.
pub fn is_sha512_with_rsa(oid: &[u8]) -> (r: bool)
    ensures
        r == (oid@ == sha512_with_rsa_oid()),
{
    let o: [u8; 9] = [0x2a, 0x86, 0x48, 0x86, 0xf7, 0x0d, 0x01, 0x01, 0x0d];
    assert(o@ =~= sha512_with_rsa_oid());
    bytes_eq(oid, &o)
}

/// The identifier of elliptic-curve keys (1.2.840.10045.2.1).
pub open spec fn ec_public_key_oid() -> Seq<u8> {
    seq![0x2au8, 0x86u8, 0x48u8, 0xceu8, 0x3du8, 0x02u8, 0x01u8]
}

/// Tests for the identifier of elliptic-curve keys.
pub fn is_ec_public_key(oid: &[u8]) -> (r: bool)
    ensures
        r == (oid@ == ec_public_key_oid()),
{
    let o: [u8; 7] = [0x2a, 0x86, 0x48, 0xce, 0x3d, 0x02, 0x01];
    assert(o@ =~= ec_public_key_oid());
    bytes_eq(oid, &o)
}

/// The identifier of the curve P-256 (1.2.840.10045.3.1.7).
pub open spec fn secp256r1_oid() -> Seq<u8> {
    seq![0x2au8, 0x86u8, 0x48u8, 0xceu8, 0x3du8, 0x03u8, 0x01u8, 0x07u8]
}

/// Tests for the identifier of the curve P-256.
pub fn is_secp256r1(oid: &[u8]) -> (r: bool)
    ensures
        r == (oid@ == secp256r1_oid()),
{
    let o: [u8; 8] = [0x2a, 0x86, 0x48, 0xce, 0x3d, 0x03, 0x01, 0x07];
    assert(o@ =~= secp256r1_oid());
    bytes_eq(oid, &o)
}

/// The identifier of the curve P-384 (1.3.132.0.34).
pub open spec fn secp384r1_oid() -> Seq<u8> {
    seq![0x2bu8, 0x81u8, 0x04u8, 0x00u8, 0x22u8]
}

/// Tests for the identifier of the curve P-384.
pub fn is_secp384r1(oid: &[u8]) -> (r: bool)
    ensures
        r == (oid@ == secp384r1_oid()),
{
    let o: [u8; 5] = [0x2b, 0x81, 0x04, 0x00, 0x22];
    assert(o@ =~= secp384r1_oid());
    bytes_eq(oid, &o)
}

/// The identifier of ECDSA signatures over SHA-256 (1.2.840.10045.4.3.2).
pub open spec fn ecdsa_with_sha256_oid() -> Seq<u8> {
    seq![0x2au8, 0x86u8, 0x48u8, 0xceu8, 0x3du8, 0x04u8, 0x03u8, 0x02u8]
}

/// Tests for the identifier of ECDSA signatures over SHA-256.
pub fn is_ecdsa_with_sha256(oid: &[u8]) -> (r: bool)
    ensures
        r == (oid@ == ecdsa_with_sha256_oid()),
{
    let o: [u8; 8] = [0x2a, 0x86, 0x48, 0xce, 0x3d, 0x04, 0x03, 0x02];
    assert(o@ =~= ecdsa_with_sha256_oid());
    bytes_eq(oid, &o)
}

/// The identifier of ECDSA signatures over SHA-384 (1.2.840.10045.4.3.3).
pub open spec fn ecdsa_with_sha384_oid() -> Seq<u8> {
    seq![0x2au8, 0x86u8, 0x48u8, 0xceu8, 0x3du8, 0x04u8, 0x03u8, 0x03u8]
}

/// Tests for the identifier of ECDSA signatures over SHA-384.
pub fn is_ecdsa_with_sha384(oid: &[u8]) -> (r: bool)
    ensures
        r == (oid@ == ecdsa_with_sha384_oid()),
{
    let o: [u8; 8] = [0x2a, 0x86, 0x48, 0xce, 0x3d, 0x04, 0x03, 0x03];
    assert(o@ =~= ecdsa_with_sha384_oid());
    bytes_eq(oid, &o)
}

/// The identifier of ECDSA signatures over SHA-512 (1.2.840.10045.4.3.4).
pub open spec fn ecdsa_with_sha512_oid() -> Seq<u8> {
    seq![0x2au8, 0x86u8, 0x48u8, 0xceu8, 0x3du8, 0x04u8, 0x03u8, 0x04u8]
}

/// Tests for the identifier of ECDSA signatures over SHA-512.
pub fn is_ecdsa_with_sha512(oid: &[u8]) -> (r: bool)
    ensures
        r == (oid@ == ecdsa_with_sha512_oid()),
{
    let o: [u8; 8] = [0x2a, 0x86, 0x48, 0xce, 0x3d, 0x04, 0x03, 0x04];
    assert(o@ =~= ecdsa_with_sha512_oid());
    bytes_eq(oid, &o)
}

/// The identifier of Ed25519 keys and signatures (1.3.101.112).
pub open spec fn ed25519_oid() -> Seq<u8> {
    seq![0x2bu8, 0x65u8, 0x70u8]
}

/// Tests for the identifier of Ed25519 keys and signatures.
pub fn is_ed25519(oid: &[u8]) -> (r: bool)
    ensures
        r == (oid@ == ed25519_oid()),
{
    let o: [u8; 3] = [0x2b, 0x65, 0x70];
    assert(o@ =~= ed25519_oid());
    bytes_eq(oid, &o)
}

/// The identifier of the extended key usage for OCSP signing (1.3.6.1.5.5.7.3.9).
pub open spec fn ocsp_signing_oid() -> Seq<u8> {
    seq![0x2bu8, 0x06u8, 0x01u8, 0x05u8, 0x05u8, 0x07u8, 0x03u8, 0x09u8]
}

/// Tests for the identifier of the extended key usage for OCSP signing.
pub fn is_ocsp_signing(oid: &[u8]) -> (r: bool)
    ensures
        r == (oid@ == ocsp_signing_oid()),
{
    let o: [u8; 8] = [0x2b, 0x06, 0x01, 0x05, 0x05, 0x07, 0x03, 0x09];
    assert(o@ =~= ocsp_signing_oid());
    bytes_eq(oid, &o)
}

/// The identifier of the access method for OCSP (1.3.6.1.5.5.7.48.1).
pub open spec fn ocsp_access_oid() -> Seq<u8> {
    seq![0x2bu8, 0x06u8, 0x01u8, 0x05u8, 0x05u8, 0x07u8, 0x30u8, 0x01u8]
}

/// Tests for the identifier of the access method for OCSP.
pub fn is_ocsp_access(oid: &[u8]) -> (r: bool)
    ensures
        r == (oid@ == ocsp_access_oid()),
{
    let o: [u8; 8] = [0x2b, 0x06, 0x01, 0x05, 0x05, 0x07, 0x30, 0x01];
    assert(o@ =~= ocsp_access_oid());
    bytes_eq(oid, &o)
}

/// The identifier of the PKCS#9 `emailAddress` attribute (1.2.840.113549.1.9.1).
pub open spec fn email_address_oid() -> Seq<u8> {
    seq![0x2au8, 0x86u8, 0x48u8, 0x86u8, 0xf7u8, 0x0du8, 0x01u8, 0x09u8, 0x01u8]
}

/// Tests for the identifier of the PKCS#9 `emailAddress` attribute.
pub fn is_email_address(oid: &[u8]) -> (r: bool)
    ensures
        r == (oid@ == email_address_oid()),
{
    let o: [u8; 9] = [0x2a, 0x86, 0x48, 0x86, 0xf7, 0x0d, 0x01, 0x09, 0x01];
    assert(o@ =~= email_address_oid());
    bytes_eq(oid, &o)
}

/// The identifier of the `messageDigest` attribute (1.2.840.113549.1.9.4).
pub open spec fn message_digest_oid() -> Seq<u8> {
    seq![0x2au8, 0x86u8, 0x48u8, 0x86u8, 0xf7u8, 0x0du8, 0x01u8, 0x09u8, 0x04u8]
}

/// Tests for the identifier of the `messageDigest` attribute.
pub fn is_message_digest(oid: &[u8]) -> (r: bool)
    ensures
        r == (oid@ == message_digest_oid()),
{
    let o: [u8; 9] = [0x2a, 0x86, 0x48, 0x86, 0xf7, 0x0d, 0x01, 0x09, 0x04];
    assert(o@ =~= message_digest_oid());
    bytes_eq(oid, &o)
}

/// The identifier of the `id-aa-timeStampToken` attribute (RFC 3161) (1.2.840.113549.1.9.16.2.14).
pub open spec fn time_stamp_token_oid() -> Seq<u8> {
    seq![0x2au8, 0x86u8, 0x48u8, 0x86u8, 0xf7u8, 0x0du8, 0x01u8, 0x09u8, 0x10u8, 0x02u8, 0x0eu8]
}

/// Tests for the identifier of the `id-aa-timeStampToken` attribute (RFC 3161).
pub fn is_time_stamp_token(oid: &[u8]) -> (r: bool)
    ensures
        r == (oid@ == time_stamp_token_oid()),
{
    let o: [u8; 11] = [0x2a, 0x86, 0x48, 0x86, 0xf7, 0x0d, 0x01, 0x09, 0x10, 0x02, 0x0e];
    assert(o@ =~= time_stamp_token_oid());
    bytes_eq(oid, &o)
}

/// The identifier of the `id-ct-TSTInfo` content type (RFC 3161) (1.2.840.113549.1.9.16.1.4).
pub open spec fn tst_info_oid() -> Seq<u8> {
    seq![0x2au8, 0x86u8, 0x48u8, 0x86u8, 0xf7u8, 0x0du8, 0x01u8, 0x09u8, 0x10u8, 0x01u8, 0x04u8]
}

/// Tests for the identifier of the `id-ct-TSTInfo` content type (RFC 3161).
pub fn is_tst_info(oid: &[u8]) -> (r: bool)
    ensures
        r == (oid@ == tst_info_oid()),
{
    let o: [u8; 11] = [0x2a, 0x86, 0x48, 0x86, 0xf7, 0x0d, 0x01, 0x09, 0x10, 0x01, 0x04];
    assert(o@ =~= tst_info_oid());
    bytes_eq(oid, &o)
}

} // verus!
