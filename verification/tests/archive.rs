use cms::builder::{SignedDataBuilder, SignerInfoBuilder};
use cms::cert::{CertificateChoices, IssuerAndSerialNumber};
use cms::signed_data::{EncapsulatedContentInfo, SignerIdentifier};
use der::asn1::{GeneralizedTime, OctetString};
use der::{Any, Decode, Encode};
use p12_keystore::{Certificate as P12Certificate, KeyStore, KeyStoreEntry, PrivateKeyChain};
use pdf_signer::dss::{add_dss, extract_dss_crls, extract_dss_ocsps, ValidationMaterial};
use pdf_signer::locate::collect_signatures;
use pdf_signer::material::collect_material_certs;
use pdf_signer::signed_data::{cms_verify, extract_timestamp_token};
use pdf_signer::signer::{apply_timestamp, sign_with_chain, signature_to_stamp, KeyChain, KeyKind};
use pdf_signer::testkit;
use pdf_signer::timestamp::{verify_doc_timestamp, verify_embedded_timestamp};
use pdf_signer::tsa::build_timestamp_request;
use pdf_signer::verify::cms_from_contents;
use pdf_signer::{
    resume, sign_pdf_bytes_at, verify_pdf_bytes, verify_pdf_bytes_at, Error, PadesLevel, SignOptions, Step, TrustStore,
};
use rsa::pkcs8::{DecodePrivateKey, EncodePrivateKey};
use sha2::Digest;
use std::time::Duration;

const PASSWORD: &str = "test-password";
const NOW: u64 = 1_780_000_000;
const URL: &str = "http://tsa.example.org/stamp";

fn p256_key() -> Vec<u8> {
    let key = p256::SecretKey::random(&mut rand::thread_rng());
    key.to_pkcs8_der().unwrap().as_bytes().to_vec()
}

fn self_signed(key: &[u8], subject: &str) -> Vec<u8> {
    testkit::self_signed_certificate(KeyKind::P256, key, subject, NOW).unwrap()
}

fn keystore(key: &[u8], cert: &[u8]) -> Vec<u8> {
    let mut store = KeyStore::new();
    let chain = PrivateKeyChain::new(key, b"k", vec![P12Certificate::from_der(cert).unwrap()]);
    store.add_entry("k", KeyStoreEntry::PrivateKeyChain(chain));
    store.writer(PASSWORD).write().unwrap()
}

fn tlv(tag: u8, parts: &[&[u8]]) -> Vec<u8> {
    let content: Vec<u8> = parts.concat();
    let mut out = vec![tag];
    if content.len() < 0x80 {
        out.push(content.len() as u8);
    } else if content.len() < 0x100 {
        out.extend_from_slice(&[0x81, content.len() as u8]);
    } else {
        out.extend_from_slice(&[0x82, (content.len() >> 8) as u8, content.len() as u8]);
    }
    out.extend_from_slice(&content);
    out
}

/// A timestamp token over a message imprint.
fn token(key: &[u8], cert: &[u8], imprint: &[u8], gen_time: u64) -> Vec<u8> {
    let sha256 = tlv(0x30, &[&[0x06, 0x09, 0x60, 0x86, 0x48, 0x01, 0x65, 0x03, 0x04, 0x02, 0x01]]);
    let time = GeneralizedTime::from_unix_duration(Duration::from_secs(gen_time)).unwrap().to_der().unwrap();
    let info = tlv(
        0x30,
        &[
            &[0x02, 0x01, 0x01],
            &[0x06, 0x03, 0x2a, 0x03, 0x04],
            &tlv(0x30, &[&sha256, &tlv(0x04, &[imprint])]),
            &[0x02, 0x01, 0x07],
            &time,
        ],
    );
    let content = EncapsulatedContentInfo {
        econtent_type: const_oid::ObjectIdentifier::new_unwrap("1.2.840.113549.1.9.16.1.4"),
        econtent: Some(Any::encode_from(&OctetString::new(info).unwrap()).unwrap()),
    };
    let parsed = x509_cert::Certificate::from_der(cert).unwrap();
    let sid = SignerIdentifier::IssuerAndSerialNumber(IssuerAndSerialNumber {
        issuer: parsed.tbs_certificate.issuer.clone(),
        serial_number: parsed.tbs_certificate.serial_number.clone(),
    });
    let digest = x509_cert::spki::AlgorithmIdentifierOwned {
        oid: const_oid::db::rfc5912::ID_SHA_256,
        parameters: None,
    };
    let signer = p256::ecdsa::SigningKey::from(p256::SecretKey::from_pkcs8_der(key).unwrap());
    let info = SignerInfoBuilder::new(&signer, sid, digest.clone(), &content, None).unwrap();
    SignedDataBuilder::new(&content)
        .add_digest_algorithm(digest)
        .unwrap()
        .add_certificate(CertificateChoices::Certificate(parsed))
        .unwrap()
        .add_signer_info::<p256::ecdsa::SigningKey, p256::ecdsa::DerSignature>(info)
        .unwrap()
        .build()
        .unwrap()
        .to_der()
        .unwrap()
}

/// What an authority answers to a request for a timestamp.
fn answer(key: &[u8], cert: &[u8], request: &[u8], gen_time: u64) -> Vec<u8> {
    let imprint = &request[22..54];
    tlv(0x30, &[&[0x30, 0x03, 0x02, 0x01, 0x00], &token(key, cert, imprint, gen_time)])
}

struct Setup {
    key: Vec<u8>,
    cert: Vec<u8>,
    tsa_key: Vec<u8>,
    tsa_cert: Vec<u8>,
}

fn setup() -> Setup {
    let key = p256_key();
    let tsa_key = p256_key();
    let cert = self_signed(&key, "CN=Signer,C=BR");
    let tsa_cert = self_signed(&tsa_key, "CN=Authority,C=BR");
    Setup { key, cert, tsa_key, tsa_cert }
}

fn options(level: PadesLevel) -> SignOptions {
    let mut opts = SignOptions::default();
    opts.pades_level = level;
    opts.tsa_url = Some(URL.to_string());
    opts
}

/// Runs signing to its end, with an authority that answers.
fn run(s: &Setup, pdf: &[u8], level: PadesLevel) -> (Vec<u8>, usize) {
    let p12 = keystore(&s.key, &s.cert);
    let mut step = sign_pdf_bytes_at(pdf, &p12, PASSWORD, &options(level), NOW + 10);
    let mut asked = 0;
    loop {
        match step {
            Step::Done(r) => return (r.unwrap(), asked),
            Step::Fetch(request, pending) => {
                asked += 1;
                assert_eq!(request.url, URL);
                assert_eq!(request.content_type.as_deref(), Some("application/timestamp-query"));
                step = resume(pending, Ok(answer(&s.tsa_key, &s.tsa_cert, &request.body, NOW + 20)));
            }
        }
    }
}

#[test]
fn the_timestamp_level_embeds_a_token() {
    let s = setup();
    let (out, asked) = run(&s, &testkit::sample_pdf().unwrap(), PadesLevel::Bt);
    assert_eq!(asked, 1);
    let report = verify_pdf_bytes(&out).unwrap();
    assert!(report.all_valid());
    let found = collect_signatures(&out);
    let cms = cms_from_contents(&found[0].contents).unwrap();
    let stamp = verify_embedded_timestamp(&cms).unwrap();
    assert_eq!(stamp.gen_time, NOW + 20);
    assert!(extract_timestamp_token(&cms).unwrap().is_some());
}

#[test]
fn the_archival_level_stamps_the_document() {
    let s = setup();
    let pdf = testkit::sample_pdf().unwrap();
    let (out, asked) = run(&s, &pdf, PadesLevel::Blta);
    assert_eq!(asked, 2);
    assert_eq!(&out[..pdf.len()], &pdf[..]);
    let report = verify_pdf_bytes(&out).unwrap();
    assert_eq!(report.signatures.len(), 2);
    assert!(report.all_valid());
    assert_eq!(report.signatures[1].detail, "valid document timestamp (RFC 3161)");
    assert_eq!(report.signatures[1].signer, None);
    assert!(report.signatures[1].covers_whole_document);
    let found = collect_signatures(&out);
    assert!(!found[0].is_timestamp);
    assert!(found[1].is_timestamp);
}

#[test]
fn the_long_term_level_embeds_the_certificates() {
    let s = setup();
    let (out, asked) = run(&s, &testkit::sample_pdf_xref_stream(), PadesLevel::Blt);
    assert_eq!(asked, 1);
    assert!(verify_pdf_bytes(&out).unwrap().all_valid());
    let doc = pdf_signer::document::load_document(&out).unwrap();
    let certs = pdf_signer::dss::document_dss_streams(&doc, "Certs");
    assert_eq!(certs.len(), 2);
    assert!(certs.contains(&s.cert));
    assert!(certs.contains(&s.tsa_cert));
    assert!(extract_dss_crls(&out).is_empty());
}

#[test]
fn a_refused_timestamp_ends_signing() {
    let s = setup();
    let p12 = keystore(&s.key, &s.cert);
    let pdf = testkit::sample_pdf().unwrap();
    let start = || match sign_pdf_bytes_at(&pdf, &p12, PASSWORD, &options(PadesLevel::Bt), NOW) {
        Step::Fetch(_, pending) => pending,
        Step::Done(_) => panic!("a timestamp is to be fetched"),
    };
    match resume(start(), Ok(vec![0x30, 0x05, 0x30, 0x03, 0x02, 0x01, 0x02])) {
        Step::Done(Err(e)) => {
            assert_eq!(e.message(), "cryptography error: TSA rejected the request (PKIStatus 2)")
        }
        _ => panic!("signing must end"),
    }
    match resume(start(), Err(Error::Io("connection refused".to_string()))) {
        Step::Done(Err(e)) => assert_eq!(e.message(), "I/O error: connection refused"),
        _ => panic!("signing must end"),
    }
}

#[test]
fn the_request_stamps_the_signature() {
    let s = setup();
    let chain = KeyChain { key: s.key.clone(), certs: vec![s.cert.clone()] };
    let cms = sign_with_chain(&chain, b"data", NOW).unwrap();
    let signature = signature_to_stamp(&cms).unwrap();
    let request = build_timestamp_request(&signature);
    assert_eq!(&request[22..54], &sha2::Sha256::digest(&signature)[..]);
    assert!(extract_timestamp_token(&cms).unwrap().is_none());
    let stamp = token(&s.tsa_key, &s.tsa_cert, &request[22..54], NOW);
    let stamped = apply_timestamp(&cms, &stamp).unwrap();
    assert_eq!(extract_timestamp_token(&stamped).unwrap(), Some(stamp));
    assert_eq!(cms_verify(&stamped, b"data").unwrap(), "CN=Signer,C=BR");
    assert_eq!(verify_embedded_timestamp(&stamped).unwrap().gen_time, NOW);
    let certs = collect_material_certs(&stamped).unwrap();
    assert_eq!(certs.len(), 2);
}

#[test]
fn a_timestamp_over_something_else_is_not_taken() {
    let s = setup();
    let chain = KeyChain { key: s.key.clone(), certs: vec![s.cert.clone()] };
    let cms = sign_with_chain(&chain, b"data", NOW).unwrap();
    let stamp = token(&s.tsa_key, &s.tsa_cert, &[7; 32], NOW);
    let stamped = apply_timestamp(&cms, &stamp).unwrap();
    assert!(verify_embedded_timestamp(&stamped).is_err());
    assert!(verify_embedded_timestamp(&cms).is_err());
    assert!(cms_verify(&stamped, b"data").is_ok());
}

#[test]
fn document_timestamps_cover_their_data() {
    let s = setup();
    let imprint = sha2::Sha256::digest(b"document");
    let stamp = token(&s.tsa_key, &s.tsa_cert, &imprint, NOW);
    assert!(verify_doc_timestamp(&stamp, b"document").is_ok());
    assert!(verify_doc_timestamp(&stamp, b"documents").is_err());
    assert!(verify_doc_timestamp(b"junk", b"document").is_err());
    // The digest of the document somewhere else does not bind the token to it.
    let mut elsewhere = token(&s.tsa_key, &s.tsa_cert, &[7; 32], NOW);
    let other = self_signed(&p256_key(), "CN=Other,C=BR");
    elsewhere.extend_from_slice(&imprint);
    assert!(verify_doc_timestamp(&elsewhere, b"document").is_err());
    let content = tlv(0x30, &[
        &[0x06, 0x09, 0x2a, 0x86, 0x48, 0x86, 0xf7, 0x0d, 0x01, 0x07, 0x01],
        &tlv(0xa0, &[&tlv(0x04, &[&imprint])]),
    ]);
    assert!(verify_doc_timestamp(&content, b"document").is_err());
    // A signature over the document is no timestamp of it.
    let chain = KeyChain { key: s.key.clone(), certs: vec![s.cert.clone(), other] };
    let cms = sign_with_chain(&chain, b"document", NOW).unwrap();
    assert_eq!(
        verify_doc_timestamp(&cms, b"document").unwrap_err().message(),
        "signature verification failed: not a timestamp token"
    );
    let stamp = token(&s.tsa_key, &s.tsa_cert, &[7; 32], NOW);
    assert_eq!(
        verify_doc_timestamp(&stamp, b"document").unwrap_err().message(),
        "signature verification failed: timestamp imprint does not match the document"
    );
}

#[test]
fn a_trusted_timestamp_fixes_the_time() {
    // The chain of the signer is judged at the time of the timestamp, as long as its
    // authority is trusted now.
    let mut s = setup();
    let (soon, late) = (NOW as i64 + 201 * 86_400, NOW as i64 + 400 * 86_400);
    s.tsa_cert = testkit::self_signed_certificate(KeyKind::P256, &s.tsa_key, "CN=Authority,C=BR", NOW + 200 * 86_400)
        .unwrap();
    let (out, _) = run(&s, &testkit::sample_pdf().unwrap(), PadesLevel::Bt);
    let both = TrustStore::from_ders(&vec![s.cert.clone(), s.tsa_cert.clone()]).unwrap();
    let signer_only = TrustStore::from_ders(&vec![s.cert.clone()]).unwrap();
    assert!(verify_pdf_bytes_at(&out, &both, soon).unwrap().all_trusted());
    assert!(verify_pdf_bytes_at(&out, &signer_only, soon).unwrap().all_trusted());
    assert!(verify_pdf_bytes_at(&out, &both, late).unwrap().all_trusted());
    assert!(!verify_pdf_bytes_at(&out, &signer_only, late).unwrap().all_trusted());
}

#[test]
fn validation_material_reads_back() {
    let material = ValidationMaterial {
        certs: vec![vec![1]],
        crls: vec![vec![2, 2], vec![3]],
        ocsps: vec![vec![4]],
    };
    for pdf in [testkit::sample_pdf().unwrap(), testkit::sample_pdf_xref_stream()] {
        let out = add_dss(&pdf, &material).unwrap();
        assert_eq!(&out[..pdf.len()], &pdf[..]);
        assert_eq!(extract_dss_crls(&out), material.crls);
        assert_eq!(extract_dss_ocsps(&out), material.ocsps);
        assert!(extract_dss_crls(&pdf).is_empty());
        let empty = ValidationMaterial { certs: vec![], crls: vec![], ocsps: vec![] };
        let cleared = add_dss(&out, &empty).unwrap();
        assert!(extract_dss_crls(&cleared).is_empty());
    }
    assert!(add_dss(b"junk", &material).is_err());
}

#[test]
fn every_level_keeps_the_entries_of_prior_signatures() {
    let s = setup();
    for pdf in [testkit::sample_pdf().unwrap(), testkit::sample_pdf_xref_stream()] {
        let (first, _) = run(&s, &pdf, PadesLevel::Bb);
        let before = verify_pdf_bytes(&first).unwrap();
        assert_eq!(before.signatures.len(), 1);
        let levels = [(PadesLevel::Bb, 2), (PadesLevel::Bt, 2), (PadesLevel::Blt, 2), (PadesLevel::Blta, 3)];
        for (level, entries) in levels {
            let (out, _) = run(&s, &first, level);
            let after = verify_pdf_bytes(&out).unwrap();
            assert_eq!(after.signatures.len(), entries);
            assert!(after.all_valid());
            let (old, prior, new) = (&before.signatures[0], &after.signatures[0], &after.signatures[1]);
            assert_eq!(prior.byte_range, old.byte_range);
            assert_eq!(prior.signed_len, old.signed_len);
            assert_eq!(prior.signer, old.signer);
            assert!(!prior.covers_whole_document);
            assert_eq!(new.signer.as_deref(), Some("CN=Signer,C=BR"));
            assert_eq!(new.covers_whole_document, level == PadesLevel::Bb || level == PadesLevel::Bt);
            assert_eq!(after.signatures[entries - 1].covers_whole_document, level != PadesLevel::Blt);
        }
    }
}
