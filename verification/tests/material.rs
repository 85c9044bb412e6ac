use cms::builder::{SignedDataBuilder, SignerInfoBuilder};
use cms::cert::{CertificateChoices, IssuerAndSerialNumber};
use cms::signed_data::{EncapsulatedContentInfo, SignerIdentifier};
use der::asn1::{BitString, GeneralizedTime, Ia5String, OctetString};
use der::{Any, Decode, Encode};
use p12_keystore::{Certificate as P12Certificate, KeyStore, KeyStoreEntry, PrivateKeyChain};
use pdf_signer::certificate::{parse_certificates, Certificate};
use pdf_signer::dss::{extract_dss_crls, extract_dss_ocsps};
use pdf_signer::material::{accepts_crl, accepts_ocsp, crl_http_urls, crl_urls, make_queries, ocsp_url};
use pdf_signer::sorting::sort_blobs;
use pdf_signer::testkit;
use pdf_signer::{
    resume, sign_pdf_bytes_at, verify_pdf_bytes_at, Error, PadesLevel, Pending, Request, SignOptions, Step, TrustStore,
};
use rsa::pkcs8::{DecodePrivateKey, EncodePrivateKey};
use rsa::signature::Signer;
use spki::EncodePublicKey;
use std::str::FromStr;
use std::time::Duration;
use x509_cert::builder::{Builder, CertificateBuilder, Profile};
use x509_cert::ext::pkix::crl::dp::DistributionPoint;
use x509_cert::ext::pkix::name::{DistributionPointName, GeneralName};
use x509_cert::ext::pkix::{AccessDescription, AuthorityInfoAccessSyntax, CrlDistributionPoints};
use x509_cert::name::Name;
use x509_cert::serial_number::SerialNumber;
use x509_cert::spki::{AlgorithmIdentifierOwned, SubjectPublicKeyInfoOwned};
use x509_cert::time::{Time, Validity};

const PASSWORD: &str = "test-password";
const NOW: u64 = 1_780_000_000;
const DAY: u64 = 86_400;
const CRL_URL: &str = "http://crl.example.org/ca.crl";
const OCSP_URL: &str = "http://ocsp.example.org/";

fn time(secs: u64) -> Time {
    GeneralizedTime::from_unix_duration(Duration::from_secs(secs)).unwrap().into()
}

fn uri(text: &str) -> GeneralName {
    GeneralName::UniformResourceIdentifier(Ia5String::new(text).unwrap())
}

fn info(key: &p256::ecdsa::SigningKey) -> SubjectPublicKeyInfoOwned {
    SubjectPublicKeyInfoOwned::from_der(key.verifying_key().to_public_key_der().unwrap().as_bytes()).unwrap()
}

struct Pki {
    root_key: p256::ecdsa::SigningKey,
    leaf_key: p256::ecdsa::SigningKey,
    root: Vec<u8>,
    leaf: Vec<u8>,
}

/// A root and a leaf that says where to ask for its revocation.
fn pki() -> Pki {
    let root_key = p256::ecdsa::SigningKey::random(&mut rand::thread_rng());
    let leaf_key = p256::ecdsa::SigningKey::random(&mut rand::thread_rng());
    let validity = Validity { not_before: time(NOW), not_after: time(NOW + 365 * DAY) };
    let root_name = Name::from_str("CN=Root,C=BR").unwrap();
    let root = CertificateBuilder::new(
        Profile::Root,
        SerialNumber::from(1u32),
        validity,
        root_name.clone(),
        info(&root_key),
        &root_key,
    )
    .unwrap()
    .build::<p256::ecdsa::DerSignature>()
    .unwrap();
    let profile = Profile::Leaf { issuer: root_name, enable_key_agreement: false, enable_key_encipherment: false };
    let mut builder = CertificateBuilder::new(
        profile,
        SerialNumber::from(2u32),
        validity,
        Name::from_str("CN=Leaf,C=BR").unwrap(),
        info(&leaf_key),
        &root_key,
    )
    .unwrap();
    let points = vec![uri("ldap://ldap.example.org"), uri(CRL_URL), uri(CRL_URL)];
    builder
        .add_extension(&CrlDistributionPoints(vec![DistributionPoint {
            distribution_point: Some(DistributionPointName::FullName(points)),
            reasons: None,
            crl_issuer: None,
        }]))
        .unwrap();
    let access = |oid: const_oid::ObjectIdentifier, url: &str| AccessDescription {
        access_method: oid,
        access_location: uri(url),
    };
    builder
        .add_extension(&AuthorityInfoAccessSyntax(vec![
            access(const_oid::db::rfc5280::ID_AD_CA_ISSUERS, "http://issuers.example.org/"),
            access(const_oid::db::rfc5280::ID_AD_OCSP, OCSP_URL),
        ]))
        .unwrap();
    let leaf = builder.build::<p256::ecdsa::DerSignature>().unwrap();
    Pki { root_key, leaf_key, root: root.to_der().unwrap(), leaf: leaf.to_der().unwrap() }
}

fn keystore(p: &Pki) -> Vec<u8> {
    let certs = [&p.leaf, &p.root].map(|c| P12Certificate::from_der(c).unwrap());
    let key = p.leaf_key.to_pkcs8_der().unwrap();
    let mut store = KeyStore::new();
    let chain = PrivateKeyChain::new(key.as_bytes(), b"k", certs.to_vec());
    store.add_entry("k", KeyStoreEntry::PrivateKeyChain(chain));
    store.writer(PASSWORD).write().unwrap()
}

fn crl(p: &Pki, serials: &[u32]) -> Vec<u8> {
    let algorithm = AlgorithmIdentifierOwned { oid: const_oid::db::rfc5912::ECDSA_WITH_SHA_256, parameters: None };
    let revoked: Vec<x509_cert::crl::RevokedCert> = serials
        .iter()
        .map(|s| x509_cert::crl::RevokedCert {
            serial_number: SerialNumber::from(*s),
            revocation_date: time(NOW),
            crl_entry_extensions: None,
        })
        .collect();
    let tbs_cert_list = x509_cert::crl::TbsCertList {
        version: x509_cert::Version::V2,
        signature: algorithm.clone(),
        issuer: x509_cert::Certificate::from_der(&p.root).unwrap().tbs_certificate.subject,
        this_update: time(NOW),
        next_update: Some(time(NOW + 30 * DAY)),
        revoked_certificates: Some(revoked),
        crl_extensions: None,
    };
    let signed: p256::ecdsa::DerSignature = p.root_key.sign(&tbs_cert_list.to_der().unwrap());
    let list = x509_cert::crl::CertificateList {
        tbs_cert_list,
        signature_algorithm: algorithm,
        signature: BitString::from_bytes(signed.as_bytes()).unwrap(),
    };
    list.to_der().unwrap()
}

fn ocsp(p: &Pki) -> Vec<u8> {
    let when = |secs: u64| {
        x509_ocsp::OcspGeneralizedTime(GeneralizedTime::from_unix_duration(Duration::from_secs(secs)).unwrap())
    };
    let root = x509_cert::Certificate::from_der(&p.root).unwrap();
    let leaf = x509_cert::Certificate::from_der(&p.leaf).unwrap();
    let id = x509_ocsp::CertId::from_cert::<sha1::Sha1>(&root, &leaf).unwrap();
    let single = x509_ocsp::SingleResponse::new(id, x509_ocsp::CertStatus::good(), when(NOW));
    x509_ocsp::builder::OcspResponseBuilder::new(root.tbs_certificate.subject)
        .with_single_response(single)
        .sign::<_, p256::ecdsa::DerSignature>(&mut p.root_key.clone(), None, when(NOW))
        .unwrap()
        .to_der()
        .unwrap()
}

fn tlv(tag: u8, parts: &[&[u8]]) -> Vec<u8> {
    let content: Vec<u8> = parts.concat();
    let mut out = vec![tag];
    if content.len() < 0x80 {
        out.push(content.len() as u8);
    } else if content.len() < 0x100 {
        out.extend_from_slice(&[0x81, content.len() as u8]);
    } else {
        out.extend_from_slice(&[0x82, (content.len() >> 8) as u8, content.len() as u8]);
    }
    out.extend_from_slice(&content);
    out
}

/// A timestamp token over a message imprint.
fn token(key: &[u8], cert: &[u8], imprint: &[u8], gen_time: u64) -> Vec<u8> {
    let sha256 = tlv(0x30, &[&[0x06, 0x09, 0x60, 0x86, 0x48, 0x01, 0x65, 0x03, 0x04, 0x02, 0x01]]);
    let time = GeneralizedTime::from_unix_duration(Duration::from_secs(gen_time)).unwrap().to_der().unwrap();
    let info = tlv(
        0x30,
        &[
            &[0x02, 0x01, 0x01],
            &[0x06, 0x03, 0x2a, 0x03, 0x04],
            &tlv(0x30, &[&sha256, &tlv(0x04, &[imprint])]),
            &[0x02, 0x01, 0x07],
            &time,
        ],
    );
    let content = EncapsulatedContentInfo {
        econtent_type: const_oid::ObjectIdentifier::new_unwrap("1.2.840.113549.1.9.16.1.4"),
        econtent: Some(Any::encode_from(&OctetString::new(info).unwrap()).unwrap()),
    };
    let parsed = x509_cert::Certificate::from_der(cert).unwrap();
    let sid = SignerIdentifier::IssuerAndSerialNumber(IssuerAndSerialNumber {
        issuer: parsed.tbs_certificate.issuer.clone(),
        serial_number: parsed.tbs_certificate.serial_number.clone(),
    });
    let digest = x509_cert::spki::AlgorithmIdentifierOwned {
        oid: const_oid::db::rfc5912::ID_SHA_256,
        parameters: None,
    };
    let signer = p256::ecdsa::SigningKey::from(p256::SecretKey::from_pkcs8_der(key).unwrap());
    let info = SignerInfoBuilder::new(&signer, sid, digest.clone(), &content, None).unwrap();
    SignedDataBuilder::new(&content)
        .add_digest_algorithm(digest)
        .unwrap()
        .add_certificate(CertificateChoices::Certificate(parsed))
        .unwrap()
        .add_signer_info::<p256::ecdsa::SigningKey, p256::ecdsa::DerSignature>(info)
        .unwrap()
        .build()
        .unwrap()
        .to_der()
        .unwrap()
}

/// Signs up to the first piece of material, with a timestamp of the root.
fn start(p: &Pki) -> (Request, Pending) {
    let mut opts = SignOptions::default();
    opts.pades_level = PadesLevel::Blt;
    opts.tsa_url = Some("http://tsa.example.org/".to_string());
    let first = sign_pdf_bytes_at(&testkit::sample_pdf().unwrap(), &keystore(p), PASSWORD, &opts, NOW + 10);
    let (request, pending) = next(first);
    assert_eq!(request.url, "http://tsa.example.org/");
    let key = p.root_key.to_pkcs8_der().unwrap();
    let stamp = token(key.as_bytes(), &p.root, &request.body[22..54], NOW + 20);
    next(resume(pending, Ok(tlv(0x30, &[&[0x30, 0x03, 0x02, 0x01, 0x00], &stamp]))))
}

fn next(step: Step) -> (Request, Pending) {
    match step {
        Step::Fetch(request, pending) => (request, pending),
        Step::Done(r) => panic!("{:?}", r.map(|v| v.len())),
    }
}

fn end(step: Step) -> Vec<u8> {
    match step {
        Step::Done(r) => r.unwrap(),
        Step::Fetch(request, _) => panic!("{}", request.url),
    }
}

#[test]
fn reads_where_to_ask() {
    let p = pki();
    let leaf = Certificate::from_der(&p.leaf).unwrap();
    let root = Certificate::from_der(&p.root).unwrap();
    assert_eq!(crl_http_urls(&leaf), vec![CRL_URL.to_string(), CRL_URL.to_string()]);
    assert!(crl_http_urls(&root).is_empty());
    assert_eq!(ocsp_url(&leaf), Some(OCSP_URL.to_string()));
    assert_eq!(ocsp_url(&root), None);
    let certs = parse_certificates(&vec![p.leaf.clone(), p.root.clone(), p.leaf.clone()]);
    assert_eq!(crl_urls(&certs), vec![CRL_URL.to_string()]);
}

#[test]
fn asks_an_ocsp_responder() {
    let p = pki();
    let certs = parse_certificates(&vec![p.leaf.clone(), p.root.clone()]);
    let queries = make_queries(&certs);
    assert_eq!(queries.len(), 1);
    assert_eq!(queries[0].0, OCSP_URL);
    let request = x509_ocsp::OcspRequest::from_der(&queries[0].1).unwrap();
    assert_eq!(request.tbs_request.request_list.len(), 1);
    let root = x509_cert::Certificate::from_der(&p.root).unwrap();
    let leaf = x509_cert::Certificate::from_der(&p.leaf).unwrap();
    let id = x509_ocsp::CertId::from_cert::<sha1::Sha1>(&root, &leaf).unwrap();
    assert_eq!(request.tbs_request.request_list[0].req_cert, id);
}

#[test]
fn replies_are_checked() {
    let p = pki();
    assert!(accepts_crl(&crl(&p, &[2])));
    assert!(!accepts_crl(b"<html>"));
    assert!(accepts_ocsp(&ocsp(&p)));
    assert!(!accepts_ocsp(&x509_ocsp::OcspResponse::try_later().to_der().unwrap()));
    assert!(!accepts_ocsp(b"<html>"));
}

#[test]
fn the_long_term_level_fetches_and_embeds() {
    let p = pki();
    let (request, pending) = start(&p);
    assert_eq!(request.url, CRL_URL);
    assert_eq!(request.content_type, None);
    assert!(request.body.is_empty());
    let (request, pending) = next(resume(pending, Ok(crl(&p, &[7]))));
    assert_eq!(request.url, OCSP_URL);
    assert_eq!(request.content_type.as_deref(), Some("application/ocsp-request"));
    let out = end(resume(pending, Ok(ocsp(&p))));
    assert_eq!(extract_dss_crls(&out), vec![crl(&p, &[7])]);
    assert_eq!(extract_dss_ocsps(&out), vec![ocsp(&p)]);
    let roots = TrustStore::from_ders(&vec![p.root.clone()]).unwrap();
    let report = verify_pdf_bytes_at(&out, &roots, NOW as i64 + 100).unwrap();
    assert!(report.all_trusted());
    assert_eq!(report.signatures.len(), 1);
}

#[test]
fn an_embedded_crl_revokes() {
    let p = pki();
    let (_, pending) = start(&p);
    let (_, pending) = next(resume(pending, Ok(crl(&p, &[2]))));
    let out = end(resume(pending, Err(Error::Io("timed out".to_string()))));
    let roots = TrustStore::from_ders(&vec![p.root.clone()]).unwrap();
    let report = verify_pdf_bytes_at(&out, &roots, NOW as i64 + 100).unwrap();
    assert!(report.all_valid());
    assert_eq!(report.signatures[0].chain_trusted, Some(false));
}

#[test]
fn failed_fetches_are_left_out() {
    let p = pki();
    let (_, pending) = start(&p);
    let (_, pending) = next(resume(pending, Ok(b"<html>".to_vec())));
    let out = end(resume(pending, Err(Error::Io("timed out".to_string()))));
    assert!(extract_dss_crls(&out).is_empty());
    assert!(extract_dss_ocsps(&out).is_empty());
    assert!(verify_pdf_bytes_at(&out, &TrustStore::new(), 0).unwrap().all_valid());
}

#[test]
fn material_is_sorted_and_kept_once() {
    let v = vec![vec![2], vec![1, 5], vec![2], vec![1], vec![]];
    assert_eq!(sort_blobs(&v), vec![vec![], vec![1], vec![1, 5], vec![2]]);
}
