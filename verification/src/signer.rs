//! Producing a detached CMS signature with the key of a PKCS#12 keystore.
use cms::builder::Error as BuilderError;
use cms::builder::SignedDataBuilder;
use cms::builder::SignerInfoBuilder;
use cms::cert::CertificateChoices;
use cms::cert::IssuerAndSerialNumber;
use cms::content_info::ContentInfo;
use cms::signed_data::EncapsulatedContentInfo;
use cms::signed_data::SignedData;
use cms::signed_data::SignerIdentifier;
use cms::signed_data::SignerInfos;
use const_oid::ObjectIdentifier;
use der::Error as DerError;
use der::{Decode, Encode};
use rsa::pkcs8::{DecodePrivateKey, EncodePublicKey};
use signature::Error as SignatureError;
use spki::AlgorithmIdentifierOwned;
use vstd::prelude::*;
use x509_cert::attr::Attribute as X509Attribute;

use crate::certificate::{
    all_certificates, all_encoded_anew, cert_head, cert_views, certificate_of, encoded_anew, lemma_all_certificates,
    read_all, reads_back, CertView, Certificate,
};
use crate::der_reader::{read_value, short_value, value_at, write_short, Value};
use crate::digest::{sha256, sha256_digest, sha384, sha384_digest, sha512, sha512_digest};
use crate::error::{bytes_result, crypto, Error, ErrorView};
use crate::keys::{ecdsa_holds, ed25519_holds, rsa_sha256_holds};
use crate::keystore::{chains_end, has_ending_chains, has_fitting_store, store_fits};
use crate::oids::{
    ec_public_key_oid, ed25519_oid, is_ec_public_key, is_ed25519, is_rsa_encryption, is_secp256r1, is_secp384r1,
    rsa_encryption_oid, secp256r1_oid, secp384r1_oid, sha256_oid, sha384_oid, sha512_oid, time_stamp_token_oid,
};
use crate::signed_data::{
    attributes_signed, cert_index, cms_certificates, cms_of, cms_signed_attributes, cms_signer,
    cms_unsigned_attributes, detached_verdict, digests_among, found_digest, read_signer, signed_values_at, signer_at, signer_index,
    timestamp_token, token_among, HeadView, ValueView,
};
use crate::util::{blobs, der_len, distinct, to_vec};

verus! {

// ---------------------------------------------------------------------------
// The keystore

/// A private key in PKCS#8 and the certificates of its chain, the signer's first,
/// all in DER.
#[derive(Debug)]
pub struct KeyChain {
    pub key: Vec<u8>,
    pub certs: Vec<Vec<u8>>,
}

/// A key chain as a mathematical value.
pub struct KeyChainView {
    pub key: Seq<u8>,
    pub certs: Seq<Seq<u8>>,
}

impl KeyChain {
    pub open spec fn view(&self) -> KeyChainView {
        KeyChainView { key: self.key@, certs: blobs(self.certs@) }
    }
}

/// The view of an optional key chain.
pub open spec fn opt_chain(o: Option<KeyChain>) -> Option<KeyChainView> {
    match o {
        Some(c) => Some(c@),
        None => None,
    }
}

/// The first private key chain of the keystore in the bytes, where it has one, or
/// why the keystore cannot be opened.
pub uninterp spec fn keystore_of(p12: Seq<u8>, password: Seq<char>) -> Result<Option<KeyChainView>, Seq<char>>;

/// Opens a keystore: `p12_keystore::KeyStore::from_pkcs12`, and its first private
/// key chain. That function follows the issuers of a key's certificate, which must come
/// to an end, and derives keys, with parameters that can be worked with.
#[verifier::external_body]
fn open_keystore(p12: &[u8], password: &str) -> (r: Result<Option<KeyChain>, String>)
    requires
        store_fits(p12@, password@),
        chains_end(p12@, password@),
    ensures
        match r {
            Ok(c) => keystore_of(p12@, password@) == Ok::<Option<KeyChainView>, Seq<char>>(opt_chain(c)),
            Err(t) => keystore_of(p12@, password@) == Err::<Option<KeyChainView>, Seq<char>>(t@),
        },
{
    let store = p12_keystore::KeyStore::from_pkcs12(p12, password).map_err(|e| e.to_string())?;
    let chain = store.private_key_chain().map(|(_, chain)| KeyChain {
        key: chain.key().to_vec(),
        certs: chain.chain().iter().map(|c| c.as_der().to_vec()).collect(),
    });
    Ok(chain)
}

/// The algorithm of a private key: its identifier, with its dotted notation, and
/// the curve in its parameters, or why they hold none.
#[derive(Debug)]
pub struct KeyAlgorithm {
    pub oid: Vec<u8>,
    pub text: String,
    pub curve: Result<(Vec<u8>, String), String>,
}

/// The algorithm of a private key as a mathematical value.
pub struct KeyAlgorithmView {
    pub oid: Seq<u8>,
    pub text: Seq<char>,
    pub curve: Result<(Seq<u8>, Seq<char>), Seq<char>>,
}

impl KeyAlgorithm {
    pub open spec fn view(&self) -> KeyAlgorithmView {
        KeyAlgorithmView {
            oid: self.oid@,
            text: self.text@,
            curve: match self.curve {
                Ok((o, t)) => Ok((o@, t@)),
                Err(t) => Err(t@),
            },
        }
    }
}

/// The algorithm of the private key in the bytes, or why they hold none.
pub uninterp spec fn key_algorithm(pkcs8: Seq<u8>) -> Result<KeyAlgorithmView, Seq<char>>;

/// Reads the algorithm of a private key: `rsa::pkcs8::PrivateKeyInfo::from_der`.
#[verifier::external_body]
fn read_key_algorithm(pkcs8: &[u8]) -> (r: Result<KeyAlgorithm, String>)
    ensures
        match r {
            Ok(a) => key_algorithm(pkcs8@) == Ok::<KeyAlgorithmView, Seq<char>>(a@),
            Err(t) => key_algorithm(pkcs8@) == Err::<KeyAlgorithmView, Seq<char>>(t@),
        },
{
    let info = rsa::pkcs8::PrivateKeyInfo::from_der(pkcs8).map_err(|e| e.to_string())?;
    let pair = |o: ObjectIdentifier| (o.as_bytes().to_vec(), o.to_string());
    let (oid, text) = pair(info.algorithm.oid);
    Ok(KeyAlgorithm { oid, text, curve: info.algorithm.parameters_oid().map(pair).map_err(|e| e.to_string()) })
}

/// Supported signer key types.
#[derive(Debug, Clone, Copy, PartialEq, Eq, Structural)]
pub enum KeyKind {
    Rsa,
    P256,
    P384,
    Ed25519,
}

/// The kind of a key by its algorithm.
pub open spec fn kind_of(a: KeyAlgorithmView) -> Result<KeyKind, ErrorView> {
    if a.oid == rsa_encryption_oid() {
        Ok(KeyKind::Rsa)
    } else if a.oid == ed25519_oid() {
        Ok(KeyKind::Ed25519)
    } else if a.oid == ec_public_key_oid() {
        match a.curve {
            Err(t) => Err(ErrorView::Crypto(t)),
            Ok((curve, text)) => if curve == secp256r1_oid() {
                Ok(KeyKind::P256)
            } else if curve == secp384r1_oid() {
                Ok(KeyKind::P384)
            } else {
                Err(ErrorView::Crypto("unsupported EC curve: "@ + text))
            },
        }
    } else {
        Err(ErrorView::Crypto("unsupported signing key algorithm: "@ + a.text))
    }
}

/// Determine the signing key type from its PKCS#8 algorithm identifier.
pub fn key_kind(a: &KeyAlgorithm) -> (r: Result<KeyKind, Error>)
    ensures
        crate::error::plain_result(r) == kind_of(a@),
{
    if is_rsa_encryption(&a.oid) {
        Ok(KeyKind::Rsa)
    } else if is_ed25519(&a.oid) {
        Ok(KeyKind::Ed25519)
    } else if is_ec_public_key(&a.oid) {
        match &a.curve {
            Err(t) => Err(Error::Crypto(t.clone())),
            Ok((curve, text)) => {
                if is_secp256r1(curve) {
                    Ok(KeyKind::P256)
                } else if is_secp384r1(curve) {
                    Ok(KeyKind::P384)
                } else {
                    Err(Error::Crypto("unsupported EC curve: ".to_owned().concat(text.as_str())))
                }
            },
        }
    } else {
        Err(Error::Crypto("unsupported signing key algorithm: ".to_owned().concat(a.text.as_str())))
    }
}

/// The kind of the private key in the bytes.
pub open spec fn detected_kind(pkcs8: Seq<u8>) -> Result<KeyKind, ErrorView> {
    match key_algorithm(pkcs8) {
        Err(t) => Err(ErrorView::Crypto(t)),
        Ok(a) => kind_of(a),
    }
}

/// Determine the signing key type from its PKCS#8 algorithm identifier.
pub fn detect_key_kind(pkcs8_der: &[u8]) -> (r: Result<KeyKind, Error>)
    ensures
        crate::error::plain_result(r) == detected_kind(pkcs8_der@),
{
    match read_key_algorithm(pkcs8_der) {
        Err(t) => Err(Error::Crypto(t)),
        Ok(a) => key_kind(&a),
    }
}

// ---------------------------------------------------------------------------
// Signed attributes

/// The CMS `signingTime` attribute for a time in seconds since the Unix epoch, in
/// DER, or why there is none.
pub uninterp spec fn signing_time_attribute(secs: u64) -> Result<Seq<u8>, Seq<char>>;

/// An attribute with one value in DER, where its content is short.
pub open spec fn attribute_der(oid: Seq<u8>, value: Seq<u8>) -> Seq<u8> {
    short_value(0x30, short_value(0x06, oid) + short_value(0x31, value))
}

/// The identifier of the `signingTime` attribute (1.2.840.113549.1.9.5).
pub open spec fn signing_time_oid() -> Seq<u8> {
    seq![0x2au8, 0x86u8, 0x48u8, 0x86u8, 0xf7u8, 0x0du8, 0x01u8, 0x09u8, 0x05u8]
}

/// Builds a CMS `signingTime` attribute: `der::asn1::UtcTime`, as the value of an
/// `x509_cert` attribute. Without it, some viewers report the epoch. A `UTCTime` takes
/// thirteen characters, behind a header of two bytes.
#[verifier::external_body]
fn build_signing_time(secs: u64) -> (r: Result<Vec<u8>, String>)
    ensures
        match r {
            Ok(v) => signing_time_attribute(secs) == Ok::<Seq<u8>, Seq<char>>(v@) && v@.len() == 30 && v@ == attribute_der(
                signing_time_oid(),
                v@.skip(15),
            ),
            Err(t) => signing_time_attribute(secs) == Err::<Seq<u8>, Seq<char>>(t@),
        },
{
    let build = || -> der::Result<Vec<u8>> {
        let date = der::DateTime::from_unix_duration(core::time::Duration::from_secs(secs))?;
        let time = x509_cert::time::Time::UtcTime(der::asn1::UtcTime::from_date_time(date)?);
        let values = der::asn1::SetOfVec::try_from(vec![der::Any::encode_from(&time)?])?;
        X509Attribute { oid: const_oid::db::rfc5911::ID_SIGNING_TIME, values }.to_der()
    };
    build().map_err(|e| e.to_string())
}

/// The identifier of the `signing-certificate-v2` attribute
/// (1.2.840.113549.1.9.16.2.47).
pub open spec fn signing_certificate_v2_oid() -> Seq<u8> {
    seq![0x2au8, 0x86u8, 0x48u8, 0x86u8, 0xf7u8, 0x0du8, 0x01u8, 0x09u8, 0x10u8, 0x02u8, 0x2fu8]
}

/// The `signing-certificate-v2` attribute (RFC 5035) with a certificate's SHA-256
/// hash: `ESSCertIDv2` has the default hash algorithm and no `issuerSerial`.
pub open spec fn signing_certificate_v2(hash: Seq<u8>) -> Seq<u8> {
    short_value(
        0x30,
        short_value(0x06, signing_certificate_v2_oid()) + short_value(
            0x31,
            short_value(0x30, short_value(0x30, short_value(0x30, short_value(0x04, hash)))),
        ),
    )
}

/// Build the `signing-certificate-v2` (ESS) signed attribute over the DER of the
/// signer certificate, which binds the certificate to the signature.
pub fn signing_certificate_v2_attribute(cert_der: &[u8]) -> (r: Vec<u8>)
    ensures
        r@ == signing_certificate_v2(sha256(cert_der@)),
        sha256(cert_der@).len() == 32,
{
    let hash: Vec<u8> = sha256_digest(cert_der);
    let oid: [u8; 11] = [0x2a, 0x86, 0x48, 0x86, 0xf7, 0x0d, 0x01, 0x09, 0x10, 0x02, 0x2f];
    assert(oid@ =~= signing_certificate_v2_oid());
    let ess: Vec<u8> = write_short(0x30, &write_short(0x04, &hash));
    let set: Vec<u8> = write_short(0x31, &write_short(0x30, &write_short(0x30, &ess)));
    let mut content: Vec<u8> = write_short(0x06, &oid);
    content.extend_from_slice(&set);
    write_short(0x30, &content)
}

// ---------------------------------------------------------------------------
// Signed data

/// The bytes are one DER sequence, whose header gives their length.
pub open spec fn framed(v: Seq<u8>) -> bool {
    v.len() > 0 && v[0] == 0x30 && der_len(v) == Some(v.len() as int)
}

/// Signed data was made with a digest: it has one signer, which names the digest
/// algorithm, and the digest stands in the one `messageDigest` attribute that is
/// signed.
pub open spec fn carries_digest(cms: Seq<u8>, oid: Seq<u8>, digest: Seq<u8>) -> bool {
    &&& cms_signer(cms) matches Ok(Some(h)) && h.digest_oid == oid && h.count == 1
    &&& cms_signed_attributes(cms) matches Ok(Some((_, list))) && digests_among(list) == seq![
        ValueView::Octets(digest),
    ]
}

/// Signed data names its signer by the issuer and the serial number of a certificate.
pub open spec fn names_signer(cms: Seq<u8>, cert: Seq<u8>) -> bool {
    match (cert_head(cert), cms_signer(cms)) {
        (Ok(c), Ok(Some(h))) => h.issuer_and_serial == Some((c.issuer, c.serial)),
        _ => false,
    }
}

/// Signed data holds exactly the certificates, each encoded anew, in some order.
pub open spec fn carries_certificates(cms: Seq<u8>, certs: Seq<Seq<u8>>) -> bool {
    match cms_certificates(cms) {
        Ok(Some(list)) => list.to_multiset() == all_encoded_anew(certs).to_multiset(),
        _ => false,
    }
}

/// One of the attributes of a list has one value, and is the given one in DER.
pub open spec fn lists_attribute(list: Seq<(Seq<u8>, Seq<Seq<u8>>)>, attribute: Seq<u8>) -> bool {
    exists|k: int| 0 <= k < list.len() && (#[trigger] list[k]).1.len() == 1 && attribute_der(list[k].0, list[k].1[0])
        == attribute
}

/// The signed attributes of signed data hold each of the given ones.
pub open spec fn carries_attributes(cms: Seq<u8>, attributes: Seq<Seq<u8>>) -> bool {
    match signed_values_at(cms, 0) {
        Ok(Some(list)) => forall|i: int| 0 <= i < attributes.len() ==> lists_attribute(list, #[trigger] attributes[i]),
        _ => false,
    }
}

/// What signed data that was made from a digest, the signer's certificate and
/// certificates is.
pub open spec fn made_from(
    cms: Seq<u8>,
    digest_oid: Seq<u8>,
    digest: Seq<u8>,
    cert: Seq<u8>,
    certs: Seq<Seq<u8>>,
) -> bool {
    &&& framed(cms)
    &&& carries_digest(cms, digest_oid, digest)
    &&& names_signer(cms, cert)
    &&& carries_certificates(cms, certs)
}

/// The attributes of signed data in DER.
pub open spec fn attributes_in(cms: Seq<u8>) -> Seq<u8> {
    match cms_signed_attributes(cms) {
        Ok(Some((der, _))) => der,
        _ => Seq::empty(),
    }
}

/// The signature in signed data.
pub open spec fn signature_in(cms: Seq<u8>) -> Seq<u8> {
    match cms_signer(cms) {
        Ok(Some(h)) => h.signature,
        _ => Seq::empty(),
    }
}

/// One of the attributes that are signed besides content type and digest.
pub open spec fn is_further_attribute(a: Seq<u8>) -> bool {
    (exists|secs: u64| #[trigger] signing_time_attribute(secs) == Ok::<Seq<u8>, Seq<char>>(a)) || (exists|
        hash: Seq<u8>,
    | hash.len() == 32 && a == #[trigger] signing_certificate_v2(hash))
}

/// What signed data can be made of: further attributes alone besides content type and
/// digest, and at least one certificate, all of which differ when they are encoded anew.
pub open spec fn can_be_signed(attributes: Seq<Seq<u8>>, certs: Seq<Seq<u8>>) -> bool {
    certs.len() > 0 && all_encoded_anew(certs).no_duplicates() && forall|i: int|
        0 <= i < attributes.len() ==> is_further_attribute(#[trigger] attributes[i])
}

/// An Ed25519 signature as the builders of the `cms` crate take it.
pub struct Ed25519Sig(ed25519::Signature);

/// A signature of the `ed25519` crate.
#[verifier::external_type_specification]
#[verifier::external_body]
pub struct ExEd25519Signature(ed25519::Signature);

/// A signing key of the `ed25519_dalek` crate.
#[verifier::external_type_specification]
#[verifier::external_body]
pub struct ExEd25519SigningKey(ed25519_dalek::SigningKey);

/// A bit string of the `der` crate.
#[verifier::external_type_specification]
#[verifier::external_body]
pub struct ExBitString(der::asn1::BitString);

/// An error of the `der` crate.
#[verifier::external_type_specification]
#[verifier::external_body]
pub struct ExDerError(DerError);

/// An error of the builders of the `cms` crate.
#[verifier::external_type_specification]
#[verifier::external_body]
pub struct ExBuilderError(BuilderError);

/// An object identifier.
#[verifier::external_type_specification]
#[verifier::external_body]
pub struct ExObjectIdentifier(ObjectIdentifier);

/// An error of the `signature` crate.
#[verifier::external_type_specification]
#[verifier::external_body]
pub struct ExSignatureError(SignatureError);

impl spki::SignatureBitStringEncoding for Ed25519Sig {
    /// The bytes of the signature as a bit string.
    #[verifier::external_body]
    fn to_bitstring(&self) -> Result<der::asn1::BitString, DerError> {
        der::asn1::BitString::from_bytes(&self.0.to_bytes())
    }
}

impl signature::Signer<Ed25519Sig> for ed25519_dalek::SigningKey {
    /// Signs with `ed25519_dalek`.
    #[verifier::external_body]
    fn try_sign(&self, msg: &[u8]) -> Result<Ed25519Sig, SignatureError> {
        signature::Signer::<ed25519::Signature>::try_sign(self, msg).map(Ed25519Sig)
    }
}

/// The DER value `n` places behind the one at index `i`: its tag, and where its content
/// begins and ends.
pub open spec fn nth_value(s: Seq<u8>, i: int, n: nat) -> Option<(u8, int, int)>
    decreases n,
{
    match value_at(s, i) {
        None => None,
        Some((tag, start, end)) => if n == 0 {
            Some((tag, start, end))
        } else {
            nth_value(s, end, (n - 1) as nat)
        },
    }
}

fn read_nth(s: &[u8], i: usize, n: usize) -> (r: Option<Value>)
    ensures
        match nth_value(s@, i as int, n as nat) {
            None => r is None,
            Some((tag, start, end)) => r matches Some(v) && v.tag == tag && v.start == start && v.end == end && i
                < v.start <= v.end <= s@.len(),
        },
{
    let mut at: usize = i;
    let mut left: usize = n;
    loop
        invariant
            i <= at,
            nth_value(s@, i as int, n as nat) == nth_value(s@, at as int, left as nat),
        decreases left,
    {
        match read_value(s, at) {
            None => {
                return None;
            },
            Some(v) => {
                if left == 0 {
                    return Some(v);
                }
                at = v.end;
                left -= 1;
            },
        }
    }
}

/// How many bytes the two primes of an RSA private key (PKCS#8) take, where they can be
/// read.
pub open spec fn prime_lengths(pkcs8: Seq<u8>) -> Option<(int, int)> {
    match value_at(pkcs8, 0) {
        None => None,
        Some((_, fields, _)) => match nth_value(pkcs8, fields, 2) {
            None => None,
            Some((_, key, _)) => match value_at(pkcs8, key) {
                None => None,
                Some((_, numbers, _)) => match (nth_value(pkcs8, numbers, 4), nth_value(pkcs8, numbers, 5)) {
                    (Some((_, p, p_end)), Some((_, q, q_end))) => Some((p_end - p, q_end - q)),
                    _ => None,
                },
            },
        },
    }
}

/// By how many bytes the second prime of an RSA key may be longer than the first.
pub const PRIME_SLACK: usize = 2;

/// The second prime of an RSA private key is about as long as the first, or shorter: the
/// time that `rsa` takes for a signature grows with the quotient of the two.
pub open spec fn balanced(pkcs8: Seq<u8>) -> bool {
    prime_lengths(pkcs8) matches Some((p, q)) ==> q <= p + PRIME_SLACK
}

/// Whether the second prime of an RSA private key is about as long as the first, or
/// shorter.
fn is_balanced(pkcs8: &[u8]) -> (r: bool)
    ensures
        r == balanced(pkcs8@),
{
    match read_value(pkcs8, 0) {
        None => true,
        Some(fields) => match read_nth(pkcs8, fields.start, 2) {
            None => true,
            Some(key) => match read_value(pkcs8, key.start) {
                None => true,
                Some(numbers) => match (
                    read_nth(pkcs8, numbers.start, 4),
                    read_nth(pkcs8, numbers.start, 5),
                ) {
                    (Some(p), Some(q)) => {
                        let (p_len, q_len): (usize, usize) = (p.end - p.start, q.end - q.start);
                        q_len <= p_len || q_len - p_len <= PRIME_SLACK
                    },
                    _ => true,
                },
            },
        },
    }
}

/// A key whose signatures `rsa` makes in good time: one of another kind, or one with
/// balanced primes.
pub open spec fn signs_in_time(pkcs8: Seq<u8>) -> bool {
    detected_kind(pkcs8) == Ok::<KeyKind, ErrorView>(KeyKind::Rsa) ==> balanced(pkcs8)
}

/// Whether the signatures of a key are made in good time.
pub(crate) fn is_quick(pkcs8: &[u8]) -> (r: bool)
    ensures
        r == signs_in_time(pkcs8@),
{
    match detect_key_kind(pkcs8) {
        Ok(KeyKind::Rsa) => is_balanced(pkcs8),
        _ => true,
    }
}

/// A signer identifier of the `cms` crate.
#[verifier::external_type_specification]
#[verifier::external_body]
pub struct ExSignerIdentifier(SignerIdentifier);

/// Takes the content bytes of an object identifier over. Nothing is claimed of it here:
/// the functions that make signed data say what they return.
#[verifier::external_body]
fn oid_of(bytes: &[u8]) -> Result<ObjectIdentifier, DerError> {
    ObjectIdentifier::from_bytes(bytes).map_err(DerError::from)
}

/// The identifier of a signer by the issuer and the serial number of its certificate.
/// Nothing is claimed of it here: the functions that make signed data say what they
/// return.
#[verifier::external_body]
fn signer_of(cert: &[u8]) -> Result<SignerIdentifier, DerError> {
    let t = x509_cert::Certificate::from_der(cert)?.tbs_certificate;
    let id = IssuerAndSerialNumber { issuer: t.issuer, serial_number: t.serial_number };
    Ok(SignerIdentifier::IssuerAndSerialNumber(id))
}

/// Assembles signed data with the builders of the `cms` crate, for any key (PKCS#8) that
/// they take: content of the given type, kept outside; one signer, by the issuer and the
/// serial number of its certificate; and the certificates. Nothing is claimed of it
/// here: its callers say what they get for each kind of key.
#[verifier::external_body]
fn build_signed_data<S, Sig>(
    key: &[u8],
    oids: (&[u8], &[u8]),
    digest: &[u8],
    attributes: &Vec<Vec<u8>>,
    cert: &[u8],
    certs: &Vec<Vec<u8>>,
) -> Result<Vec<u8>, BuilderError> where
    S: DecodePrivateKey + signature::Keypair + spki::DynSignatureAlgorithmIdentifier + signature::Signer<Sig>,
    Sig: spki::SignatureBitStringEncoding,

    requires
        can_be_signed(blobs(attributes@), blobs(certs@)),
        signs_in_time(key@),
{
    let key = S::from_pkcs8_der(key).map_err(|e| BuilderError::Builder(e.to_string()))?;
    let content = EncapsulatedContentInfo { econtent_type: oid_of(oids.0)?, econtent: None };
    let alg = AlgorithmIdentifierOwned { oid: oid_of(oids.1)?, parameters: None };
    let mut signer = SignerInfoBuilder::new(&key, signer_of(cert)?, alg.clone(), &content, Some(digest))?;
    for a in attributes {
        signer.add_signed_attribute(X509Attribute::from_der(a)?)?;
    }
    let mut data = SignedDataBuilder::new(&content);
    data.add_digest_algorithm(alg)?;
    for c in certs {
        data.add_certificate(CertificateChoices::Certificate(x509_cert::Certificate::from_der(c)?))?;
    }
    Ok(data.add_signer_info::<S, Sig>(signer)?.build()?.to_der()?)
}

/// The public half, in DER, of an RSA private key in the bytes, or why they hold none.
pub uninterp spec fn rsa_public_key(pkcs8: Seq<u8>) -> Result<Seq<u8>, Seq<char>>;

/// Reads an RSA private key and gives its public half:
/// `from_pkcs8_der` of `rsa::RsaPrivateKey`, and `to_public_key_der`.
#[verifier::external_body]
fn read_rsa_key(pkcs8: &[u8]) -> (r: Result<Vec<u8>, String>)
    ensures
        match r {
            Ok(v) => rsa_public_key(pkcs8@) == Ok::<Seq<u8>, Seq<char>>(v@),
            Err(t) => rsa_public_key(pkcs8@) == Err::<Seq<u8>, Seq<char>>(t@),
        },
{
    let key = rsa::RsaPrivateKey::from_pkcs8_der(pkcs8).map_err(|e| e.to_string())?;
    key.to_public_key().to_public_key_der().map(|d| d.as_bytes().to_vec()).map_err(|e| e.to_string())
}

/// The signed data that an RSA key makes with the given digest algorithm, digest,
/// further attributes, signer certificate and certificates, in DER, or why it makes
/// none.
pub uninterp spec fn signed_with_rsa(
    key: Seq<u8>,
    content_oid: Seq<u8>,
    digest_oid: Seq<u8>,
    digest: Seq<u8>,
    attributes: Seq<Seq<u8>>,
    cert: Seq<u8>,
    certs: Seq<Seq<u8>>,
) -> Result<Seq<u8>, Seq<char>>;

/// Makes signed data with an RSA key: PKCS#1 v1.5 over SHA-256 (`rsa::pkcs1v15::SigningKey`),
/// and the builders of the `cms` crate. It is a DER sequence, and read back it has one
/// signer, named by the issuer and the serial number of its certificate, carries the
/// digest, signs the further attributes and holds the certificates, each encoded anew, in
/// some order.
/// The signature holds under the key's public half, as far as it can be read.
#[verifier::external_body]
fn sign_with_rsa(
    key: &[u8],
    content_oid: &[u8],
    digest_oid: &[u8],
    digest: &[u8],
    attributes: &Vec<Vec<u8>>,
    cert: &[u8],
    certs: &Vec<Vec<u8>>,
) -> (r: Result<Vec<u8>, String>)
    requires
        can_be_signed(blobs(attributes@), blobs(certs@)),
        signs_in_time(key@),
    ensures
        match r {
            Ok(v) => signed_with_rsa(key@, content_oid@, digest_oid@, digest@, blobs(attributes@), cert@, blobs(certs@)) == Ok::<
                Seq<u8>,
                Seq<char>,
            >(v@) && made_from(
                v@,
                digest_oid@,
                digest@,
                cert@,
                blobs(certs@),
            ) && carries_attributes(v@, blobs(attributes@)) && (rsa_public_key(key@) matches Ok(public) ==> (rsa_sha256_holds(public, attributes_in(v@), signature_in(v@)) matches Ok(b)
                ==> b)),
            Err(t) => signed_with_rsa(key@, content_oid@, digest_oid@, digest@, blobs(attributes@), cert@, blobs(certs@)) == Err::<
                Seq<u8>,
                Seq<char>,
            >(t@),
        },
{
    let oids = (content_oid, digest_oid);
    build_signed_data::<rsa::pkcs1v15::SigningKey<sha2::Sha256>, rsa::pkcs1v15::Signature>(key, oids, digest, attributes, cert, certs).map_err(|e| e.to_string())
}

/// The public half, in DER, of a P-256 private key in the bytes, or why they hold none.
pub uninterp spec fn p256_public_key(pkcs8: Seq<u8>) -> Result<Seq<u8>, Seq<char>>;

/// Reads a P-256 private key and gives its public half:
/// `from_pkcs8_der` of `p256::SecretKey`, and `to_public_key_der`.
#[verifier::external_body]
fn read_p256_key(pkcs8: &[u8]) -> (r: Result<Vec<u8>, String>)
    ensures
        match r {
            Ok(v) => p256_public_key(pkcs8@) == Ok::<Seq<u8>, Seq<char>>(v@),
            Err(t) => p256_public_key(pkcs8@) == Err::<Seq<u8>, Seq<char>>(t@),
        },
{
    let key = p256::SecretKey::from_pkcs8_der(pkcs8).map_err(|e| e.to_string())?;
    key.public_key().to_public_key_der().map(|d| d.as_bytes().to_vec()).map_err(|e| e.to_string())
}

/// The signed data that a P-256 key makes with the given digest algorithm, digest,
/// further attributes, signer certificate and certificates, in DER, or why it makes
/// none.
pub uninterp spec fn signed_with_p256(
    key: Seq<u8>,
    content_oid: Seq<u8>,
    digest_oid: Seq<u8>,
    digest: Seq<u8>,
    attributes: Seq<Seq<u8>>,
    cert: Seq<u8>,
    certs: Seq<Seq<u8>>,
) -> Result<Seq<u8>, Seq<char>>;

/// Makes signed data with a P-256 key: ECDSA over P-256 (`p256::ecdsa::SigningKey`,
/// deterministic), and the builders of the `cms` crate. It is a DER sequence, and read
/// back it has one signer, named by the issuer and the serial number of its certificate,
/// carries the digest, signs the further attributes and holds the certificates, each encoded anew, in
/// some order.
/// The signature holds under the key's public half.
#[verifier::external_body]
fn sign_with_p256(
    key: &[u8],
    content_oid: &[u8],
    digest_oid: &[u8],
    digest: &[u8],
    attributes: &Vec<Vec<u8>>,
    cert: &[u8],
    certs: &Vec<Vec<u8>>,
) -> (r: Result<Vec<u8>, String>)
    requires
        can_be_signed(blobs(attributes@), blobs(certs@)),
        signs_in_time(key@),
    ensures
        match r {
            Ok(v) => signed_with_p256(key@, content_oid@, digest_oid@, digest@, blobs(attributes@), cert@, blobs(certs@)) == Ok::<
                Seq<u8>,
                Seq<char>,
            >(v@) && made_from(
                v@,
                digest_oid@,
                digest@,
                cert@,
                blobs(certs@),
            ) && carries_attributes(v@, blobs(attributes@)) && (p256_public_key(key@) matches Ok(public) ==> ecdsa_holds(public, attributes_in(v@), signature_in(v@))),
            Err(t) => signed_with_p256(key@, content_oid@, digest_oid@, digest@, blobs(attributes@), cert@, blobs(certs@)) == Err::<
                Seq<u8>,
                Seq<char>,
            >(t@),
        },
{
    let oids = (content_oid, digest_oid);
    build_signed_data::<p256::ecdsa::SigningKey, p256::ecdsa::DerSignature>(key, oids, digest, attributes, cert, certs).map_err(|e| e.to_string())
}

/// The public half, in DER, of a P-384 private key in the bytes, or why they hold none.
pub uninterp spec fn p384_public_key(pkcs8: Seq<u8>) -> Result<Seq<u8>, Seq<char>>;

/// Reads a P-384 private key and gives its public half:
/// `from_pkcs8_der` of `p384::SecretKey`, and `to_public_key_der`.
#[verifier::external_body]
fn read_p384_key(pkcs8: &[u8]) -> (r: Result<Vec<u8>, String>)
    ensures
        match r {
            Ok(v) => p384_public_key(pkcs8@) == Ok::<Seq<u8>, Seq<char>>(v@),
            Err(t) => p384_public_key(pkcs8@) == Err::<Seq<u8>, Seq<char>>(t@),
        },
{
    let key = p384::SecretKey::from_pkcs8_der(pkcs8).map_err(|e| e.to_string())?;
    key.public_key().to_public_key_der().map(|d| d.as_bytes().to_vec()).map_err(|e| e.to_string())
}

/// The signed data that a P-384 key makes with the given digest algorithm, digest,
/// further attributes, signer certificate and certificates, in DER, or why it makes
/// none.
pub uninterp spec fn signed_with_p384(
    key: Seq<u8>,
    content_oid: Seq<u8>,
    digest_oid: Seq<u8>,
    digest: Seq<u8>,
    attributes: Seq<Seq<u8>>,
    cert: Seq<u8>,
    certs: Seq<Seq<u8>>,
) -> Result<Seq<u8>, Seq<char>>;

/// Makes signed data with a P-384 key: ECDSA over P-384 (`p384::ecdsa::SigningKey`,
/// deterministic), and the builders of the `cms` crate. It is a DER sequence, and read
/// back it has one signer, named by the issuer and the serial number of its certificate,
/// carries the digest, signs the further attributes and holds the certificates, each encoded anew, in
/// some order.
/// The signature holds under the key's public half.
#[verifier::external_body]
fn sign_with_p384(
    key: &[u8],
    content_oid: &[u8],
    digest_oid: &[u8],
    digest: &[u8],
    attributes: &Vec<Vec<u8>>,
    cert: &[u8],
    certs: &Vec<Vec<u8>>,
) -> (r: Result<Vec<u8>, String>)
    requires
        can_be_signed(blobs(attributes@), blobs(certs@)),
        signs_in_time(key@),
    ensures
        match r {
            Ok(v) => signed_with_p384(key@, content_oid@, digest_oid@, digest@, blobs(attributes@), cert@, blobs(certs@)) == Ok::<
                Seq<u8>,
                Seq<char>,
            >(v@) && made_from(
                v@,
                digest_oid@,
                digest@,
                cert@,
                blobs(certs@),
            ) && carries_attributes(v@, blobs(attributes@)) && (p384_public_key(key@) matches Ok(public) ==> ecdsa_holds(public, attributes_in(v@), signature_in(v@))),
            Err(t) => signed_with_p384(key@, content_oid@, digest_oid@, digest@, blobs(attributes@), cert@, blobs(certs@)) == Err::<
                Seq<u8>,
                Seq<char>,
            >(t@),
        },
{
    let oids = (content_oid, digest_oid);
    build_signed_data::<p384::ecdsa::SigningKey, p384::ecdsa::DerSignature>(key, oids, digest, attributes, cert, certs).map_err(|e| e.to_string())
}

/// The public half, in DER, of an Ed25519 private key in the bytes, or why they hold none.
pub uninterp spec fn ed25519_public_key(pkcs8: Seq<u8>) -> Result<Seq<u8>, Seq<char>>;

/// Reads an Ed25519 private key and gives its public half:
/// `from_pkcs8_der` of `ed25519_dalek::SigningKey`, and `to_public_key_der`.
#[verifier::external_body]
fn read_ed25519_key(pkcs8: &[u8]) -> (r: Result<Vec<u8>, String>)
    ensures
        match r {
            Ok(v) => ed25519_public_key(pkcs8@) == Ok::<Seq<u8>, Seq<char>>(v@),
            Err(t) => ed25519_public_key(pkcs8@) == Err::<Seq<u8>, Seq<char>>(t@),
        },
{
    let key = ed25519_dalek::SigningKey::from_pkcs8_der(pkcs8).map_err(|e| e.to_string())?;
    key.verifying_key().to_public_key_der().map(|d| d.as_bytes().to_vec()).map_err(|e| e.to_string())
}

/// The signed data that an Ed25519 key makes with the given digest algorithm, digest,
/// further attributes, signer certificate and certificates, in DER, or why it makes
/// none.
pub uninterp spec fn signed_with_ed25519(
    key: Seq<u8>,
    content_oid: Seq<u8>,
    digest_oid: Seq<u8>,
    digest: Seq<u8>,
    attributes: Seq<Seq<u8>>,
    cert: Seq<u8>,
    certs: Seq<Seq<u8>>,
) -> Result<Seq<u8>, Seq<char>>;

/// Makes signed data with an Ed25519 key: Ed25519 (`ed25519_dalek::SigningKey`), and the
/// builders of the `cms` crate. It is a DER sequence, and read back it has one
/// signer, named by the issuer and the serial number of its certificate, carries the
/// digest, signs the further attributes and holds the certificates, each encoded anew, in
/// some order.
/// The signature holds under the key's public half.
#[verifier::external_body]
fn sign_with_ed25519(
    key: &[u8],
    content_oid: &[u8],
    digest_oid: &[u8],
    digest: &[u8],
    attributes: &Vec<Vec<u8>>,
    cert: &[u8],
    certs: &Vec<Vec<u8>>,
) -> (r: Result<Vec<u8>, String>)
    requires
        can_be_signed(blobs(attributes@), blobs(certs@)),
        signs_in_time(key@),
    ensures
        match r {
            Ok(v) => signed_with_ed25519(key@, content_oid@, digest_oid@, digest@, blobs(attributes@), cert@, blobs(certs@)) == Ok::<
                Seq<u8>,
                Seq<char>,
            >(v@) && made_from(
                v@,
                digest_oid@,
                digest@,
                cert@,
                blobs(certs@),
            ) && carries_attributes(v@, blobs(attributes@)) && (ed25519_public_key(key@) matches Ok(public) ==> ed25519_holds(public, attributes_in(v@), signature_in(v@)) == Some(true)),
            Err(t) => signed_with_ed25519(key@, content_oid@, digest_oid@, digest@, blobs(attributes@), cert@, blobs(certs@)) == Err::<
                Seq<u8>,
                Seq<char>,
            >(t@),
        },
{
    let oids = (content_oid, digest_oid);
    build_signed_data::<ed25519_dalek::SigningKey, Ed25519Sig>(key, oids, digest, attributes, cert, certs).map_err(|e| e.to_string())
}

// ---------------------------------------------------------------------------
// Signing

/// The content type `data` (1.2.840.113549.1.7.1).
pub open spec fn data_oid() -> Seq<u8> {
    seq![0x2au8, 0x86u8, 0x48u8, 0x86u8, 0xf7u8, 0x0du8, 0x01u8, 0x07u8, 0x01u8]
}

/// The digest algorithm that goes with a kind of key. Ed25519 uses SHA-512 (RFC
/// 8419).
pub open spec fn digest_oid_for(kind: KeyKind) -> Seq<u8> {
    match kind {
        KeyKind::Rsa => sha256_oid(),
        KeyKind::P256 => sha256_oid(),
        KeyKind::P384 => sha384_oid(),
        KeyKind::Ed25519 => sha512_oid(),
    }
}

/// The digest that goes with a kind of key.
pub open spec fn digest_for(kind: KeyKind, data: Seq<u8>) -> Seq<u8> {
    match kind {
        KeyKind::Rsa => sha256(data),
        KeyKind::P256 => sha256(data),
        KeyKind::P384 => sha384(data),
        KeyKind::Ed25519 => sha512(data),
    }
}

/// The signed data that a key of some kind makes.
pub open spec fn signed_with(
    kind: KeyKind,
    key: Seq<u8>,
    data: Seq<u8>,
    attributes: Seq<Seq<u8>>,
    certs: Seq<Seq<u8>>,
) -> Result<Seq<u8>, Seq<char>> {
    let oid = digest_oid_for(kind);
    let digest = digest_for(kind, data);
    match kind {
        KeyKind::Rsa => signed_with_rsa(key, data_oid(), oid, digest, attributes, certs[0], certs),
        KeyKind::P256 => signed_with_p256(key, data_oid(), oid, digest, attributes, certs[0], certs),
        KeyKind::P384 => signed_with_p384(key, data_oid(), oid, digest, attributes, certs[0], certs),
        KeyKind::Ed25519 => signed_with_ed25519(key, data_oid(), oid, digest, attributes, certs[0], certs),
    }
}

/// The `signingTime` attribute for a signature by a key of a known kind, once the key can
/// be read and signs in good time.
pub open spec fn made_ready(kind: KeyKind, key: Seq<u8>, now: u64) -> Result<Seq<u8>, ErrorView> {
    match public_half(kind, key) {
        Err(t) => Err(ErrorView::Crypto(t)),
        Ok(_) => match signing_time_attribute(now) {
            Err(t) => Err(ErrorView::Crypto(t)),
            Ok(time) => if !signs_in_time(key) {
                Err(ErrorView::Crypto("the primes of the key differ too much in length"@))
            } else {
                Ok(time)
            },
        },
    }
}

fn make_ready(kind: KeyKind, key: &[u8], now: u64) -> (r: Result<Vec<u8>, Error>)
    ensures
        bytes_result(r) == made_ready(kind, key@, now),
        r matches Ok(v) ==> signing_time_attribute(now) == Ok::<Seq<u8>, Seq<char>>(v@) && signs_in_time(key@)
            && public_half(kind, key@) is Ok,
        r matches Ok(v) ==> v@.len() == 30 && v@ == attribute_der(signing_time_oid(), v@.skip(15)),
{
    match read_public_half(kind, key) {
        Err(t) => {
            return Err(Error::Crypto(t));
        },
        Ok(_) => {},
    }
    match build_signing_time(now) {
        Err(t) => Err(Error::Crypto(t)),
        Ok(v) => {
            if !is_quick(key) {
                Err(crypto("the primes of the key differ too much in length"))
            } else {
                Ok(v)
            }
        },
    }
}

/// The detached CMS signature over the data that a key chain makes at a time in
/// seconds since the Unix epoch.
pub open spec fn chain_signature(chain: KeyChainView, data: Seq<u8>, now: u64) -> Result<Seq<u8>, ErrorView> {
    if chain.certs.len() == 0 {
        Err(ErrorView::Crypto("keystore has no certificate"@))
    } else {
        match certificate_of(chain.certs[0]) {
            Err(t) => Err(ErrorView::Crypto(t)),
            Ok(_) => match detected_kind(chain.key) {
                Err(e) => Err(e),
                Ok(kind) => match made_ready(kind, chain.key, now) {
                    Err(e) => Err(e),
                    Ok(time) => match all_certificates(chain.certs) {
                        Err(t) => Err(ErrorView::Crypto(t)),
                        Ok(_) => if !all_encoded_anew(chain.certs).no_duplicates() {
                            Err(ErrorView::Crypto("keystore holds a certificate twice"@))
                        } else {
                            match signed_with(
                                kind,
                                chain.key,
                                data,
                                seq![time, signing_certificate_v2(sha256(chain.certs[0]))],
                                chain.certs,
                            ) {
                                Err(t) => Err(ErrorView::Crypto(t)),
                                Ok(v) => Ok(v),
                            }
                        },
                    },
                },
            },
        }
    }
}

/// The public half, in DER, of a private key (PKCS#8), or why there is none.
pub open spec fn public_key_of(key: Seq<u8>) -> Result<Seq<u8>, ErrorView> {
    match detected_kind(key) {
        Ok(kind) => match public_half(kind, key) {
            Ok(v) => Ok(v),
            Err(t) => Err(ErrorView::Crypto(t)),
        },
        Err(e) => Err(e),
    }
}

/// The public half, in DER, of a private key of a known kind, or why there is none.
pub open spec fn public_half(kind: KeyKind, key: Seq<u8>) -> Result<Seq<u8>, Seq<char>> {
    match kind {
        KeyKind::Rsa => rsa_public_key(key),
        KeyKind::P256 => p256_public_key(key),
        KeyKind::P384 => p384_public_key(key),
        KeyKind::Ed25519 => ed25519_public_key(key),
    }
}

/// The public half, in DER, of a private key of a known kind.
fn read_public_half(kind: KeyKind, key: &[u8]) -> (r: Result<Vec<u8>, String>)
    ensures
        match r {
            Ok(v) => public_half(kind, key@) == Ok::<Seq<u8>, Seq<char>>(v@),
            Err(t) => public_half(kind, key@) == Err::<Seq<u8>, Seq<char>>(t@),
        },
{
    match kind {
        KeyKind::Rsa => read_rsa_key(key),
        KeyKind::P256 => read_p256_key(key),
        KeyKind::P384 => read_p384_key(key),
        KeyKind::Ed25519 => read_ed25519_key(key),
    }
}

/// A certificate's key is of the kind of `key`, and is the public half of it.
pub open spec fn belongs_to(cert: CertView, key: Seq<u8>) -> bool {
    public_key_of(key) == Ok::<Seq<u8>, ErrorView>(cert.core.spki) && (detected_kind(key) matches Ok(kind) && cert.core.key_oid == (match kind {
        KeyKind::Rsa => rsa_encryption_oid(),
        KeyKind::P256 => ec_public_key_oid(),
        KeyKind::P384 => ec_public_key_oid(),
        KeyKind::Ed25519 => ed25519_oid(),
    }))
}

/// The key of a certificate is one that signatures can be checked with: an RSA key must
/// not be larger than `rsa` reads.
pub open spec fn checkable(cert: CertView) -> bool {
    cert.core.key_oid == rsa_encryption_oid() ==> forall|msg: Seq<u8>, sig: Seq<u8>| #[trigger]
        rsa_sha256_holds(cert.core.spki, msg, sig) is Ok
}

/// The first certificate of a key chain, the owner's, belongs to its key; signatures can
/// be checked with it; and no other certificate of the chain has its issuer and serial
/// number.
pub open spec fn owned(chain: KeyChainView) -> bool {
    chain.certs.len() > 0 && match certificate_of(chain.certs[0]) {
        Err(_) => false,
        Ok(first) => {
            &&& belongs_to(first, chain.key)
            &&& checkable(first)
            &&& forall|i: int|
                1 <= i < chain.certs.len() ==> !(certificate_of(#[trigger] chain.certs[i]) matches Ok(c)
                    && c.core.issuer == first.core.issuer && c.core.serial == first.core.serial)
        },
    }
}

/// The subject of the first certificate of a key chain.
pub open spec fn owner_name(chain: KeyChainView) -> Seq<char> {
    certificate_of(chain.certs[0])->Ok_0.subject.text
}

/// A CMS signature that a key chain made over data verifies: over the data it holds, and
/// names the owner; over data with another digest it does not.
pub open spec fn verifies_for(cms: Seq<u8>, data: Seq<u8>, chain: KeyChainView) -> bool {
    owned(chain) ==> {
        &&& detached_verdict(cms, data) == Ok::<Seq<char>, ErrorView>(owner_name(chain))
        &&& forall|other: Seq<u8>|
            (detected_kind(chain.key) matches Ok(kind) && digest_for(kind, other) != digest_for(kind, data))
                ==> #[trigger] detached_verdict(cms, other) == Err::<Seq<char>, ErrorView>(
                ErrorView::Verification("messageDigest mismatch"@),
            )
    }
}

/// How a CMS signature over data was made by a key chain at a time: from the digest of the
/// data, by the owner of the first certificate, with the certificates of the chain, and
/// with the signing time and the hash of the owner's certificate among what is signed.
pub open spec fn made_by(cms: Seq<u8>, data: Seq<u8>, chain: KeyChainView, now: u64) -> bool {
    &&& chain.certs.len() > 0
    &&& detected_kind(chain.key) matches Ok(kind) && made_from(
        cms,
        digest_oid_for(kind),
        digest_for(kind, data),
        chain.certs[0],
        chain.certs,
    ) && signature_held(cms, chain.key, kind)
    &&& signing_time_attribute(now) matches Ok(time) && time.len() == 30 && time == attribute_der(
        signing_time_oid(),
        time.skip(15),
    ) && carries_attributes(cms, seq![time, signing_certificate_v2(sha256(chain.certs[0]))])
    &&& sha256(chain.certs[0]).len() == 32
}

proof fn lemma_no_duplicates(s: Seq<Seq<u8>>)
    ensures
        s.no_duplicates() <==> distinct(s).len() == s.len(),
        distinct(s).len() <= s.len(),
        distinct(s).len() == s.len() ==> distinct(s) == s,
    decreases s.len(),
{
    crate::util::law_distinct(s);
    if s.len() > 0 {
        let t = s.drop_last();
        lemma_no_duplicates(t);
        crate::util::law_distinct(t);
        if s.no_duplicates() {
            assert(t.no_duplicates()) by {
                assert forall|i: int, j: int| 0 <= i < t.len() && 0 <= j < t.len() && i != j implies t[i] != t[j] by {
                    assert(s[i] != s[j]);
                }
            }
            assert(!t.contains(s.last())) by {
                if t.contains(s.last()) {
                    let k = choose|k: int| 0 <= k < t.len() && t[k] == s.last();
                    assert(s[k] == s[s.len() - 1]);
                }
            }
            assert(distinct(s) =~= s);
        } else if distinct(s).len() == s.len() {
            assert(distinct(t).len() == t.len());
            assert(distinct(s) =~= s);
        }
    }
}

fn differ(v: &Vec<Vec<u8>>) -> (r: bool)
    ensures
        r == blobs(v@).no_duplicates(),
{
    let d: Vec<Vec<u8>> = crate::util::distinct_blobs(v);
    proof {
        lemma_no_duplicates(blobs(v@));
        assert(blobs(d@).len() == d@.len());
    }
    d.len() == v.len()
}

/// The certificates, each encoded anew.
fn encode_all(certs: &Vec<Certificate>, ders: &Vec<Vec<u8>>) -> (r: Vec<Vec<u8>>)
    requires
        all_certificates(blobs(ders@)) == Ok::<Seq<CertView>, Seq<char>>(cert_views(certs@)),
    ensures
        blobs(r@) == all_encoded_anew(blobs(ders@)),
{
    proof {
        lemma_all_certificates(blobs(ders@));
    }
    let mut out: Vec<Vec<u8>> = Vec::new();
    let mut i: usize = 0;
    while i < certs.len()
        invariant
            i <= certs.len(),
            certs@.len() == ders@.len(),
            forall|k: int|
                0 <= k < ders@.len() ==> certificate_of(#[trigger] blobs(ders@)[k]) == Ok::<CertView, Seq<char>>(
                    cert_views(certs@)[k],
                ),
            out@.len() == i,
            forall|k: int| 0 <= k < i ==> (#[trigger] out@[k])@ == encoded_anew(blobs(ders@)[k]),
        decreases certs.len() - i,
    {
        assert(certificate_of(blobs(ders@)[i as int]) == Ok::<CertView, Seq<char>>(certs@[i as int]@));
        out.push(to_vec(&certs[i].core.der));
        i += 1;
    }
    assert(blobs(out@) =~= all_encoded_anew(blobs(ders@)));
    out
}

/// Signs with a key of a known kind.
fn sign_with(
    kind: KeyKind,
    key: &[u8],
    data: &[u8],
    attributes: &Vec<Vec<u8>>,
    certs: &Vec<Vec<u8>>,
) -> (r: Result<Vec<u8>, String>)
    requires
        certs.len() > 0,
        can_be_signed(blobs(attributes@), blobs(certs@)),
        signs_in_time(key@),
        public_half(kind, key@) is Ok,
        detected_kind(key@) == Ok::<KeyKind, ErrorView>(kind),
    ensures
        match signed_with(kind, key@, data@, blobs(attributes@), blobs(certs@)) {
            Ok(v) => r is Ok && r->Ok_0@ == v && made_from(
                v,
                digest_oid_for(kind),
                digest_for(kind, data@),
                certs@[0]@,
                blobs(certs@),
            ) && carries_attributes(v, blobs(attributes@)) && signature_held(v, key@, kind),
            Err(t) => r is Err && r->Err_0@ == t,
        },
{
    let sha256_alg: [u8; 9] = [0x60, 0x86, 0x48, 0x01, 0x65, 0x03, 0x04, 0x02, 0x01];
    let sha384_alg: [u8; 9] = [0x60, 0x86, 0x48, 0x01, 0x65, 0x03, 0x04, 0x02, 0x02];
    let sha512_alg: [u8; 9] = [0x60, 0x86, 0x48, 0x01, 0x65, 0x03, 0x04, 0x02, 0x03];
    assert(sha256_alg@ =~= sha256_oid());
    assert(sha384_alg@ =~= sha384_oid());
    assert(sha512_alg@ =~= sha512_oid());
    assert(blobs(certs@)[0] == certs@[0]@);
    let data_type: [u8; 9] = [0x2a, 0x86, 0x48, 0x86, 0xf7, 0x0d, 0x01, 0x07, 0x01];
    assert(data_type@ =~= data_oid());
    match kind {
        KeyKind::Rsa => sign_with_rsa(key, &data_type, &sha256_alg, &sha256_digest(data), attributes, &certs[0], certs),
        KeyKind::P256 => sign_with_p256(key, &data_type, &sha256_alg, &sha256_digest(data), attributes, &certs[0], certs),
        KeyKind::P384 => sign_with_p384(key, &data_type, &sha384_alg, &sha384_digest(data), attributes, &certs[0], certs),
        KeyKind::Ed25519 => sign_with_ed25519(
            key,
            &data_type,
            &sha512_alg,
            &sha512_digest(data),
            attributes,
            &certs[0],
            certs,
        ),
    }
}

/// The signature in signed data holds over its attributes under the public half of the
/// key that made it, as far as that can be read.
pub open spec fn signature_held(cms: Seq<u8>, key: Seq<u8>, kind: KeyKind) -> bool {
    let (public, msg, sig) = (public_half(kind, key)->Ok_0, attributes_in(cms), signature_in(cms));
    public_half(kind, key) is Ok && match kind {
        KeyKind::Rsa => rsa_sha256_holds(public, msg, sig) matches Ok(b) ==> b,
        KeyKind::P256 => ecdsa_holds(public, msg, sig),
        KeyKind::P384 => ecdsa_holds(public, msg, sig),
        KeyKind::Ed25519 => ed25519_holds(public, msg, sig) == Some(true),
    }
}

/// The certificate that an entry of a list of certificates encoded anew comes from.
proof fn lemma_origin(list: Seq<Seq<u8>>, certs: Seq<Seq<u8>>, j: int) -> (k: int)
    requires
        0 <= j < list.len(),
        list.to_multiset() == all_encoded_anew(certs).to_multiset(),
        all_certificates(certs) is Ok,
        forall|i: int| 0 <= i < certs.len() ==> reads_back(#[trigger] certs[i]),
    ensures
        0 <= k < certs.len(),
        certificate_of(list[j]) == certificate_of(certs[k]),
{
    broadcast use vstd::seq_lib::group_to_multiset_ensures;

    let anew = all_encoded_anew(certs);
    lemma_all_certificates(certs);
    assert(list.contains(list[j]));
    assert(list.to_multiset().count(list[j]) > 0);
    assert(anew.to_multiset().count(list[j]) > 0);
    assert(anew.contains(list[j]));
    let k = choose|k: int| 0 <= k < anew.len() && anew[k] == list[j];
    assert(certificate_of(certs[k]) is Ok);
    assert(reads_back(certs[k]));
    k
}

/// The signed data can be read, and the certificate that is found for its signer is the
/// owner's.
proof fn lemma_owner_found(cms: Seq<u8>, chain: KeyChainView)
    requires
        owned(chain),
        names_signer(cms, chain.certs[0]),
        carries_certificates(cms, chain.certs),
        cms_signed_attributes(cms) matches Ok(Some(_)),
        all_certificates(chain.certs) is Ok,
        forall|i: int| 0 <= i < chain.certs.len() ==> reads_back(#[trigger] chain.certs[i]),
    ensures
        match cms_of(cms) {
            Ok(c) => c.signer is Some && cms_signer(cms) == Ok::<Option<HeadView>, Seq<char>>(c.signer) && c.certs is Some
                && (signer_index(c.signer->0, c.certs) matches Ok(i) && c.certs->0[i] == certificate_of(
                chain.certs[0],
            )->Ok_0),
            Err(_) => false,
        },
{
    broadcast use vstd::seq_lib::group_to_multiset_ensures;

    let certs = chain.certs;
    let anew = all_encoded_anew(certs);
    let list = cms_certificates(cms)->Ok_0->0;
    let first = certificate_of(certs[0])->Ok_0;
    lemma_all_certificates(certs);
    assert forall|j: int| 0 <= j < list.len() implies certificate_of(#[trigger] list[j]) is Ok by {
        let k = lemma_origin(list, certs, j);
        assert(certificate_of(certs[k]) is Ok);
    }
    lemma_all_certificates(list);
    let views = all_certificates(list)->Ok_0;
    assert(anew[0] == encoded_anew(certs[0]));
    assert(anew.contains(anew[0]));
    assert(anew.to_multiset().count(anew[0]) > 0);
    assert(list.contains(anew[0]));
    let at = choose|j: int| 0 <= j < list.len() && list[j] == anew[0];
    assert(reads_back(certs[0]));
    assert(certificate_of(list[at]) == certificate_of(certs[0]));
    assert(views[at] == first);
    let (issuer, serial) = (first.core.issuer, first.core.serial);
    lemma_cert_index(views, issuer, serial, 0, at);
    let i = cert_index(views, issuer, serial, 0)->0;
    let k = lemma_origin(list, certs, i);
    assert(certificate_of(list[i]) == Ok::<CertView, Seq<char>>(views[i]));
    assert(certificate_of(certs[k]) matches Ok(c) && c.core.issuer == issuer && c.core.serial == serial);
    assert(k == 0);
}

proof fn lemma_cert_index(certs: Seq<CertView>, issuer: Seq<u8>, serial: Seq<u8>, from: int, at: int)
    requires
        0 <= from <= at < certs.len(),
        certs[at].core.issuer == issuer,
        certs[at].core.serial == serial,
    ensures
        cert_index(certs, issuer, serial, from) matches Some(i) && from <= i < certs.len() && certs[i].core.issuer
            == issuer && certs[i].core.serial == serial,
    decreases at - from,
{
    if !(certs[from].core.issuer == issuer && certs[from].core.serial == serial) {
        lemma_cert_index(certs, issuer, serial, from + 1, at);
    }
}

proof fn lemma_verifies(cms: Seq<u8>, data: Seq<u8>, chain: KeyChainView, kind: KeyKind)
    requires
        detected_kind(chain.key) == Ok::<KeyKind, ErrorView>(kind),
        chain.certs.len() > 0,
        made_from(cms, digest_oid_for(kind), digest_for(kind, data), chain.certs[0], chain.certs),
        signature_held(cms, chain.key, kind),
        all_certificates(chain.certs) is Ok,
        forall|i: int| 0 <= i < chain.certs.len() ==> reads_back(#[trigger] chain.certs[i]),
    ensures
        verifies_for(cms, data, chain),
{
    if owned(chain) {
        lemma_owner_found(cms, chain);
        let digest = digest_for(kind, data);
        let one = seq![ValueView::Octets(digest)];
        assert(one.drop_last() =~= Seq::empty());
        assert(found_digest(Seq::<ValueView>::empty()) == Ok::<Option<Seq<u8>>, ErrorView>(None));
        assert(found_digest(one) == Ok::<Option<Seq<u8>>, ErrorView>(Some(digest)));
        lemma_algorithms_differ();
        let first = certificate_of(chain.certs[0])->Ok_0;
        assert(attributes_signed(first, attributes_in(cms), signature_in(cms)) == Ok::<bool, ErrorView>(true));
    }
}

proof fn lemma_algorithms_differ()
    ensures
        sha256_oid() != sha384_oid(),
        sha256_oid() != sha512_oid(),
        sha384_oid() != sha512_oid(),
        rsa_encryption_oid() != ec_public_key_oid(),
        rsa_encryption_oid() != ed25519_oid(),
        ec_public_key_oid() != ed25519_oid(),
{
    assert(sha256_oid()[8] != sha384_oid()[8]);
    assert(sha256_oid()[8] != sha512_oid()[8]);
    assert(sha384_oid()[8] != sha512_oid()[8]);
    assert(rsa_encryption_oid().len() == 9);
    assert(ec_public_key_oid().len() == 7);
    assert(ed25519_oid().len() == 3);
}

/// Produce a detached CMS signature over `data` with a key chain, at the time `now`
/// (seconds since the Unix epoch). The signature is CAdES/PAdES-B-B (carries a
/// `signing-certificate-v2` attribute), and embeds the whole chain, so that
/// intermediates are available for path building. It verifies over the data, and over
/// data with another digest it does not, where the owner's certificate belongs to the key.
pub fn sign_with_chain(chain: &KeyChain, data: &[u8], now: u64) -> (r: Result<Vec<u8>, Error>)
    ensures
        bytes_result(r) == chain_signature(chain@, data@, now),
        r matches Ok(v) ==> framed(v@) && verifies_for(v@, data@, chain@),
        r matches Ok(v) ==> made_by(v@, data@, chain@, now),
        r matches Ok(v) ==> cms_signer(v@) matches Ok(Some(h)) && h.count == 1,
{
    if chain.certs.len() == 0 {
        return Err(crypto("keystore has no certificate"));
    }
    assert(blobs(chain.certs@)[0] == chain.certs@[0]@);
    match Certificate::from_der(&chain.certs[0]) {
        Err(t) => {
            return Err(Error::Crypto(t));
        },
        Ok(_) => {},
    }
    let kind: KeyKind = match detect_key_kind(&chain.key) {
        Err(e) => {
            return Err(e);
        },
        Ok(k) => k,
    };
    let time: Vec<u8> = match make_ready(kind, &chain.key, now) {
        Err(e) => {
            return Err(e);
        },
        Ok(v) => v,
    };
    let certs: Vec<Certificate> = match read_all(&chain.certs) {
        Err(t) => {
            return Err(Error::Crypto(t));
        },
        Ok(v) => v,
    };
    proof {
        lemma_all_certificates(blobs(chain.certs@));
    }
    if !differ(&encode_all(&certs, &chain.certs)) {
        return Err(crypto("keystore holds a certificate twice"));
    }
    let ghost time_view = time@;
    let ess: Vec<u8> = signing_certificate_v2_attribute(&chain.certs[0]);
    let attributes: Vec<Vec<u8>> = vec![time, ess];
    proof {
        let a = blobs(attributes@);
        let hash = sha256(chain.certs@[0]@);
        assert(a =~= seq![time_view, signing_certificate_v2(hash)]);
        assert(signing_time_attribute(now) == Ok::<Seq<u8>, Seq<char>>(a[0]));
        assert(is_further_attribute(a[0]));
        assert(a[1] == signing_certificate_v2(hash));
        assert(is_further_attribute(a[1]));
    }
    match sign_with(kind, &chain.key, data, &attributes, &chain.certs) {
        Err(t) => Err(Error::Crypto(t)),
        Ok(v) => {
            proof {
                lemma_verifies(v@, data@, chain@, kind);
            }
            Ok(v)
        },
    }
}

/// The detached CMS signature over the data that the key of a keystore makes.
pub open spec fn keystore_signature(p12: Seq<u8>, password: Seq<char>, data: Seq<u8>, now: u64) -> Result<
    Seq<u8>,
    ErrorView,
> {
    if !store_fits(p12, password) {
        Err(ErrorView::Crypto("key derivation of the keystore out of bounds"@))
    } else if !chains_end(p12, password) {
        Err(ErrorView::Crypto("certificates of the keystore issue one another"@))
    } else {
        match keystore_of(p12, password) {
            Err(t) => Err(ErrorView::Crypto(t)),
            Ok(None) => Err(ErrorView::Crypto("keystore has no private key chain"@)),
            Ok(Some(chain)) => chain_signature(chain, data, now),
        }
    }
}

/// Produce a detached CMS signature over `data` using the PKCS#12 keystore, at the
/// time `now` (seconds since the Unix epoch). It verifies over the data, and over data
/// with another digest it does not, where the first certificate of the keystore belongs
/// to its key.
pub fn cms_sign(keystore_p12: &[u8], password: &str, data: &[u8], now: u64) -> (r: Result<Vec<u8>, Error>)
    ensures
        bytes_result(r) == keystore_signature(keystore_p12@, password@, data@, now),
        r matches Ok(v) ==> keystore_of(keystore_p12@, password@) matches Ok(Some(chain)) && verifies_for(
            v@,
            data@,
            chain,
        ) && made_by(v@, data@, chain, now),
        r matches Ok(v) ==> framed(v@),
        r matches Ok(v) ==> cms_signer(v@) matches Ok(Some(h)) && h.count == 1,
{
    if !has_fitting_store(keystore_p12, password) {
        return Err(crypto("key derivation of the keystore out of bounds"));
    }
    if !has_ending_chains(keystore_p12, password) {
        return Err(crypto("certificates of the keystore issue one another"));
    }
    match open_keystore(keystore_p12, password) {
        Err(t) => Err(Error::Crypto(t)),
        Ok(None) => Err(crypto("keystore has no private key chain")),
        Ok(Some(chain)) => sign_with_chain(&chain, data, now),
    }
}

// ---------------------------------------------------------------------------
// Signature timestamps

/// The signed data with an unsigned attribute added to the signer at an index, or why
/// there is none.
pub uninterp spec fn with_unsigned_attribute(cms: Seq<u8>, index: usize, oid: Seq<u8>, value: Seq<u8>) -> Result<
    Seq<u8>,
    Seq<char>,
>;

/// Adds an unsigned attribute to the signer at an index of signed data, which must have
/// it: decoding, `SetOfVec::insert` and encoding of the `cms` and `der` crates. The
/// result is a DER sequence.
/// Where there is one signer, what else can be read of the signed data stays as it
/// is; where it had no unsigned attributes, it has exactly this one.
#[verifier::external_body]
fn add_unsigned_attribute(cms: &[u8], index: usize, oid: &[u8], value: &[u8]) -> (r: Result<Vec<u8>, String>)
    requires
        signer_at(cms@, index) matches Ok(Some(_)),
    ensures
        match r {
            Ok(v) => with_unsigned_attribute(cms@, index, oid@, value@) == Ok::<Seq<u8>, Seq<char>>(v@) && framed(v@) && (
            cms_signer(cms@) matches Ok(Some(h)) && h.count == 1 ==> cms_signer(v@) == cms_signer(cms@)
                && signed_values_at(v@, 0) == signed_values_at(cms@, 0) && cms_signed_attributes(v@) == cms_signed_attributes(cms@) && cms_certificates(v@) == cms_certificates(
                cms@,
            ) && (
            cms_unsigned_attributes(cms@) == Ok::<Option<Seq<(Seq<u8>, Option<Seq<u8>>)>>, Seq<char>>(None)
                ==> cms_unsigned_attributes(v@) == Ok::<Option<Seq<(Seq<u8>, Option<Seq<u8>>)>>, Seq<char>>(
                Some(seq![(oid@, Some(value@))]),
            ))),
            Err(t) => with_unsigned_attribute(cms@, index, oid@, value@) == Err::<Seq<u8>, Seq<char>>(t@),
        },
{
    let insert = || -> der::Result<Vec<u8>> {
        let mut info = ContentInfo::from_der(cms)?;
        let mut data = info.content.decode_as::<SignedData>()?;
        let mut signers = data.signer_infos.0.into_vec();
        let values = der::asn1::SetOfVec::try_from(vec![der::Any::from_der(value)?])?;
        let mut attributes = signers[index].unsigned_attrs.take().unwrap_or_default();
        attributes.insert(X509Attribute { oid: ObjectIdentifier::from_bytes(oid)?, values })?;
        signers[index].unsigned_attrs = Some(attributes);
        data.signer_infos = SignerInfos(der::asn1::SetOfVec::try_from(signers)?);
        info.content = der::Any::encode_from(&data)?;
        info.to_der()
    };
    insert().map_err(|e| e.to_string())
}

/// What of a signature a timestamp is asked for: the signature bytes.
pub open spec fn stamp_subject(cms: Seq<u8>) -> Result<Seq<u8>, ErrorView> {
    match cms_signer(cms) {
        Err(t) => Err(ErrorView::Crypto(t)),
        Ok(None) => Err(ErrorView::Crypto("no SignerInfo to timestamp"@)),
        Ok(Some(h)) => Ok(h.signature),
    }
}

/// What of a signature a timestamp is asked for: the signature bytes.
pub fn signature_to_stamp(cms: &[u8]) -> (r: Result<Vec<u8>, Error>)
    ensures
        bytes_result(r) == stamp_subject(cms@),
{
    match read_signer(cms) {
        Err(t) => Err(Error::Crypto(t)),
        Ok(None) => Err(crypto("no SignerInfo to timestamp")),
        Ok(Some(h)) => Ok(h.signature),
    }
}

/// The signature with a timestamp token embedded as the `id-aa-timeStampToken`
/// unsigned attribute (PAdES-B-T).
pub open spec fn stamped(cms: Seq<u8>, token: Seq<u8>) -> Result<Seq<u8>, ErrorView> {
    match stamp_subject(cms) {
        Err(e) => Err(e),
        Ok(_) => match with_unsigned_attribute(cms, 0, time_stamp_token_oid(), token) {
            Err(t) => Err(ErrorView::Crypto(t)),
            Ok(v) => Ok(v),
        },
    }
}

/// Embed an RFC 3161 timestamp token as the `id-aa-timeStampToken` unsigned attribute
/// (PAdES-B-T). A signature by one signer keeps its verdict, and one that had no
/// unsigned attributes gives the token back.
pub fn apply_timestamp(cms: &[u8], token: &[u8]) -> (r: Result<Vec<u8>, Error>)
    ensures
        bytes_result(r) == stamped(cms@, token@),
        r matches Ok(v) ==> framed(v@),
        r matches Ok(v) ==> cms_signer(cms@) matches Ok(Some(h)) && h.count == 1 ==> cms_of(v@) == cms_of(cms@)
            && cms_signer(v@) == cms_signer(cms@) && signed_values_at(v@, 0) == signed_values_at(cms@, 0) && cms_certificates(v@) == cms_certificates(cms@) && (
        cms_unsigned_attributes(cms@) == Ok::<Option<Seq<(Seq<u8>, Option<Seq<u8>>)>>, Seq<char>>(None)
            ==> timestamp_token(v@) == Ok::<Option<Seq<u8>>, ErrorView>(Some(token@))),
{
    match signature_to_stamp(cms) {
        Err(e) => {
            return Err(e);
        },
        Ok(_) => {},
    }
    let oid: [u8; 11] = [0x2a, 0x86, 0x48, 0x86, 0xf7, 0x0d, 0x01, 0x09, 0x10, 0x02, 0x0e];
    assert(oid@ =~= time_stamp_token_oid());
    match add_unsigned_attribute(cms, 0, &oid, token) {
        Err(t) => Err(Error::Crypto(t)),
        Ok(v) => {
            proof {
                let one = seq![(time_stamp_token_oid(), Some(token@))];
                assert(one[0] == (time_stamp_token_oid(), Some(token@)));
                assert(token_among(one, 0) == Some(token@));
            }
            Ok(v)
        },
    }
}

} // verus!
