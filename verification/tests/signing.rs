use p12_keystore::{Certificate, KeyStore, KeyStoreEntry, PrivateKeyChain};
use pdf_signer::document::load_document;
use pdf_signer::locate::collect_signatures;
use pdf_signer::signer::{cms_sign, detect_key_kind, sign_with_chain, KeyChain, KeyKind};
use pdf_signer::signed_data::cms_verify;
use pdf_signer::testkit;
use pdf_signer::{
    sign_pdf_bytes, sign_pdf_bytes_at, verify_pdf_bytes, verify_pdf_bytes_at, verify_pdf_bytes_with_roots, Error,
    PadesLevel, SignOptions, Step, TrustStore,
};
use rsa::pkcs8::{EncodePrivateKey, EncodePublicKey};

const PASSWORD: &str = "test-password";
const NOW: u64 = 1_780_000_000;

fn done(step: Step) -> Result<Vec<u8>, Error> {
    match step {
        Step::Done(r) => r,
        Step::Fetch(request, _) => panic!("nothing is to be fetched, but {} is", request.url),
    }
}

fn signed(pdf: &[u8], p12: &[u8]) -> Vec<u8> {
    done(sign_pdf_bytes(pdf, p12, PASSWORD, &SignOptions::default())).unwrap()
}

fn rsa_key() -> Vec<u8> {
    let key = rsa::RsaPrivateKey::new(&mut rand::thread_rng(), 1024).unwrap();
    key.to_pkcs8_der().unwrap().as_bytes().to_vec()
}

fn keystore(key: &[u8], certs: &[Vec<u8>]) -> Vec<u8> {
    let chain: Vec<Certificate> = certs.iter().map(|c| Certificate::from_der(c).unwrap()).collect();
    let mut store = KeyStore::new();
    store.add_entry("k", KeyStoreEntry::PrivateKeyChain(PrivateKeyChain::new(key, b"k", chain)));
    store.writer(PASSWORD).write().unwrap()
}

fn assert_signs_and_verifies(pdf: &[u8], p12: &[u8], subject: &str) {
    let out = signed(pdf, p12);
    assert_eq!(&out[..pdf.len()], pdf);
    let report = verify_pdf_bytes(&out).unwrap();
    assert_eq!(report.signatures.len(), 1);
    let s = &report.signatures[0];
    assert!(s.valid, "{}", s.detail);
    assert!(s.covers_whole_document);
    assert_eq!(s.chain_trusted, None);
    assert_eq!(s.signer.as_deref(), Some(subject));
    assert_eq!(s.detail, format!("valid CMS signature; signer: {}", subject));
    assert_eq!(s.byte_range[0], 0);
    assert_eq!(s.byte_range[2] + s.byte_range[3], out.len() as i64);
    assert_eq!(s.signed_len as i64, s.byte_range[1] + s.byte_range[3]);
    assert!(report.all_valid());
    assert!(report.all_trusted());
}

#[test]
fn signs_with_rsa() {
    let key = rsa_key();
    let subject = "CN=pdf_signer PoC,O=StrategicProjects,C=BR";
    let cert = testkit::self_signed_certificate(KeyKind::Rsa, &key, subject, NOW).unwrap();
    let p12 = keystore(&key, &[cert]);
    assert_signs_and_verifies(&testkit::sample_pdf().unwrap(), &p12, subject);
}

#[test]
fn signs_with_p256() {
    let p12 = testkit::self_signed_p256_p12(PASSWORD).unwrap();
    assert_signs_and_verifies(&testkit::sample_pdf().unwrap(), &p12, "CN=pdf_signer P-256,O=StrategicProjects,C=BR");
}

#[test]
fn signs_with_p384() {
    let p12 = testkit::self_signed_p384_p12(PASSWORD).unwrap();
    assert_signs_and_verifies(&testkit::sample_pdf().unwrap(), &p12, "CN=pdf_signer P-384,O=StrategicProjects,C=BR");
}

#[test]
fn signs_with_ed25519() {
    let p12 = testkit::self_signed_ed25519_p12(PASSWORD).unwrap();
    assert_signs_and_verifies(&testkit::sample_pdf().unwrap(), &p12, "CN=pdf_signer Ed25519,O=StrategicProjects,C=BR");
}

#[test]
fn signs_a_document_with_a_cross_reference_stream() {
    let p12 = testkit::self_signed_p256_p12(PASSWORD).unwrap();
    assert_signs_and_verifies(
        &testkit::sample_pdf_xref_stream(),
        &p12,
        "CN=pdf_signer P-256,O=StrategicProjects,C=BR",
    );
}

#[test]
fn a_prior_signature_stays_valid() {
    let p12 = testkit::self_signed_p256_p12(PASSWORD).unwrap();
    let first = signed(&testkit::sample_pdf().unwrap(), &p12);
    let second = signed(&first, &p12);
    assert_eq!(&second[..first.len()], &first[..]);
    let report = verify_pdf_bytes(&second).unwrap();
    assert_eq!(report.signatures.len(), 2);
    assert!(report.all_valid());
    assert!(!report.signatures[0].covers_whole_document);
    assert!(report.signatures[1].covers_whole_document);
    assert!(report.signatures[0].byte_range[1] < report.signatures[1].byte_range[1]);
}

#[test]
fn a_signed_file_parses_to_the_document_and_the_update() {
    let p12 = testkit::self_signed_p256_p12(PASSWORD).unwrap();
    for pdf in [testkit::sample_pdf().unwrap(), testkit::sample_pdf_xref_stream()] {
        let out = signed(&pdf, &p12);
        let before = load_document(&pdf).unwrap();
        let after = load_document(&out).unwrap();
        let ids = |d: &pdf_signer::document::Document| d.objects.iter().map(|o| o.0).collect::<Vec<_>>();
        let (old, new) = (ids(&before), ids(&after));
        // The objects of the document come first, those of the update behind them.
        assert_eq!(&new[..old.len()], &old[..]);
        assert_eq!(new[old.len()], (before.max_id + 1, 0));
        assert_eq!(new[old.len() + 1], (before.max_id + 2, 0));
        assert_eq!(after.root_id().unwrap(), before.root_id().unwrap());
    }
}

#[test]
fn tampering_is_detected() {
    let p12 = testkit::self_signed_p256_p12(PASSWORD).unwrap();
    let mut out = signed(&testkit::sample_pdf().unwrap(), &p12);
    // The binary mark in the second line.
    out[12] ^= 1;
    let report = verify_pdf_bytes(&out).unwrap();
    assert_eq!(report.signatures.len(), 1);
    assert!(!report.signatures[0].valid);
    assert!(!report.all_valid());
    assert!(!report.all_trusted());
    assert_eq!(
        report.signatures[0].detail,
        "signature verification failed: messageDigest mismatch"
    );
}

#[test]
fn an_unsigned_document_is_not_valid() {
    let report = verify_pdf_bytes(&testkit::sample_pdf().unwrap()).unwrap();
    assert!(report.signatures.is_empty());
    assert!(!report.all_valid());
    assert!(!report.all_trusted());
}

#[test]
fn a_small_capacity_is_refused() {
    let p12 = testkit::self_signed_p256_p12(PASSWORD).unwrap();
    let mut opts = SignOptions::default();
    opts.signature_capacity = 16;
    match done(sign_pdf_bytes(&testkit::sample_pdf().unwrap(), &p12, PASSWORD, &opts)) {
        Err(Error::PlaceholderTooSmall { needed, capacity: 16 }) => assert!(needed > 16),
        other => panic!("{:?}", other.map(|v| v.len())),
    }
}

#[test]
fn a_wrong_password_is_refused() {
    let p12 = testkit::self_signed_p256_p12(PASSWORD).unwrap();
    let r = done(sign_pdf_bytes(&testkit::sample_pdf().unwrap(), &p12, "other", &SignOptions::default()));
    assert!(matches!(r, Err(Error::Crypto(_))));
    assert!(matches!(cms_sign(b"junk", PASSWORD, b"data", NOW), Err(Error::Crypto(_))));
}

#[test]
fn what_is_no_pdf_is_refused() {
    let p12 = testkit::self_signed_p256_p12(PASSWORD).unwrap();
    let r = done(sign_pdf_bytes(b"no pdf", &p12, PASSWORD, &SignOptions::default()));
    assert!(matches!(r, Err(Error::Pdf(_))));
}

#[test]
fn signing_needs_a_certificate_once() {
    let key = rsa_key();
    let cert = testkit::self_signed_certificate(KeyKind::Rsa, &key, "CN=x", NOW).unwrap();
    let none = KeyChain { key: key.clone(), certs: vec![] };
    assert_eq!(
        sign_with_chain(&none, b"data", NOW).unwrap_err().message(),
        "cryptography error: keystore has no certificate"
    );
    let twice = KeyChain { key: key.clone(), certs: vec![cert.clone(), cert.clone()] };
    assert_eq!(
        sign_with_chain(&twice, b"data", NOW).unwrap_err().message(),
        "cryptography error: keystore holds a certificate twice"
    );
    let once = KeyChain { key, certs: vec![cert] };
    let cms = sign_with_chain(&once, b"data", NOW).unwrap();
    assert_eq!(cms_verify(&cms, b"data").unwrap(), "CN=x");
    assert!(cms_verify(&cms, b"date").is_err());
}

#[test]
fn tells_key_kinds_apart() {
    assert_eq!(detect_key_kind(&rsa_key()).unwrap(), KeyKind::Rsa);
    let p256 = p256::SecretKey::random(&mut rand::thread_rng());
    assert_eq!(detect_key_kind(p256.to_pkcs8_der().unwrap().as_bytes()).unwrap(), KeyKind::P256);
    let p384 = p384::SecretKey::random(&mut rand::thread_rng());
    assert_eq!(detect_key_kind(p384.to_pkcs8_der().unwrap().as_bytes()).unwrap(), KeyKind::P384);
    let ed = ed25519_dalek::SigningKey::generate(&mut rand::thread_rng());
    assert_eq!(detect_key_kind(ed.to_pkcs8_der().unwrap().as_bytes()).unwrap(), KeyKind::Ed25519);
    assert!(detect_key_kind(b"junk").is_err());
}

#[test]
fn a_keystore_without_a_key_is_refused() {
    let key = rsa_key();
    let cert = testkit::self_signed_certificate(KeyKind::Rsa, &key, "CN=x", NOW).unwrap();
    let mut store = KeyStore::new();
    store.add_entry("c", KeyStoreEntry::Certificate(Certificate::from_der(&cert).unwrap()));
    let p12 = store.writer(PASSWORD).write().unwrap();
    assert_eq!(
        cms_sign(&p12, PASSWORD, b"data", NOW).unwrap_err().message(),
        "cryptography error: keystore has no private key chain"
    );
}

#[test]
fn the_same_time_gives_the_same_document() {
    let p12 = testkit::self_signed_p256_p12(PASSWORD).unwrap();
    let pdf = testkit::sample_pdf().unwrap();
    let opts = SignOptions::default();
    let a = done(sign_pdf_bytes_at(&pdf, &p12, PASSWORD, &opts, NOW)).unwrap();
    let b = done(sign_pdf_bytes_at(&pdf, &p12, PASSWORD, &opts, NOW)).unwrap();
    assert!(a == b);
}

#[test]
fn the_details_of_a_signature_are_written() {
    let p12 = testkit::self_signed_p256_p12(PASSWORD).unwrap();
    let mut opts = SignOptions::default();
    opts.reason = Some("Approved (final)".to_string());
    opts.name = Some("Signer".to_string());
    opts.location = Some("Brasilia".to_string());
    opts.contact_info = Some("mail@example.org".to_string());
    opts.signing_time = Some("D:20260614120000Z".to_string());
    let out = done(sign_pdf_bytes(&testkit::sample_pdf().unwrap(), &p12, PASSWORD, &opts)).unwrap();
    let text = String::from_utf8_lossy(&out).to_string();
    assert!(text.contains(
        "/Reason (Approved \\(final\\)) /Name (Signer) /Location (Brasilia) /ContactInfo (mail@example.org) /M (D:20260614120000Z) >>"
    ));
    assert!(verify_pdf_bytes(&out).unwrap().all_valid());
}

#[test]
fn a_self_signed_root_is_trusted_where_it_is_known() {
    let key = rsa_key();
    let cert = testkit::self_signed_certificate(KeyKind::Rsa, &key, "CN=me,C=BR", NOW).unwrap();
    let p12 = keystore(&key, &[cert.clone()]);
    let out = signed(&testkit::sample_pdf().unwrap(), &p12);
    let roots = TrustStore::from_ders(&vec![cert]).unwrap();
    let report = verify_pdf_bytes_at(&out, &roots, NOW as i64 + 1).unwrap();
    assert_eq!(report.signatures[0].chain_trusted, Some(true));
    assert!(report.all_trusted());
    let other_key = rsa_key();
    let other = testkit::self_signed_certificate(KeyKind::Rsa, &other_key, "CN=other,C=BR", NOW).unwrap();
    let roots = TrustStore::from_ders(&vec![other]).unwrap();
    let report = verify_pdf_bytes_with_roots(&out, &roots).unwrap();
    assert_eq!(report.signatures[0].chain_trusted, Some(false));
    assert!(report.all_valid());
    assert!(!report.all_trusted());
}

#[test]
fn the_baseline_level_is_done_at_once() {
    let p12 = testkit::self_signed_p256_p12(PASSWORD).unwrap();
    let out = done(sign_pdf_bytes(&testkit::sample_pdf().unwrap(), &p12, PASSWORD, &SignOptions::default())).unwrap();
    assert_eq!(collect_signatures(&out).len(), 1);
}

#[test]
fn levels_above_the_baseline_need_an_authority() {
    let p12 = testkit::self_signed_p256_p12(PASSWORD).unwrap();
    let names = [
        (PadesLevel::Bt, "cryptography error: PAdES-B-T requires a tsa_url"),
        (PadesLevel::Blt, "cryptography error: PAdES-B-LT requires a tsa_url"),
        (PadesLevel::Blta, "cryptography error: PAdES-B-LTA requires a tsa_url"),
    ];
    for (level, text) in names {
        let mut opts = SignOptions::default();
        opts.pades_level = level;
        let r = done(sign_pdf_bytes(&testkit::sample_pdf().unwrap(), &p12, PASSWORD, &opts));
        assert_eq!(r.unwrap_err().message(), text);
    }
}

fn tlv(tag: u8, parts: &[&[u8]]) -> Vec<u8> {
    let content: Vec<u8> = parts.concat();
    let mut out = vec![tag];
    if content.len() < 0x80 {
        out.push(content.len() as u8);
    } else if content.len() < 0x100 {
        out.extend_from_slice(&[0x81, content.len() as u8]);
    } else {
        out.extend_from_slice(&[0x82, (content.len() >> 8) as u8, content.len() as u8]);
    }
    out.extend_from_slice(&content);
    out
}

/// A certificate of a key, with an extension whose criticality is written out or not.
fn certificate(info: &[u8], critical: &[u8]) -> Vec<u8> {
    let algorithm = tlv(0x30, &[&[0x06, 0x03, 0x2b, 0x65, 0x70]]);
    let cn = tlv(0x30, &[&[0x06, 0x03, 0x55, 0x04, 0x03], &tlv(0x0c, &[b"x"])]);
    let name = tlv(0x30, &[&tlv(0x31, &[&cn])]);
    let time = tlv(0x17, &[b"260101000000Z"]);
    let extension = tlv(0x30, &[&[0x06, 0x03, 0x2a, 0x03, 0x04], critical, &[0x04, 0x02, 0x05, 0x00]]);
    let tbs = tlv(
        0x30,
        &[
            &[0xa0, 0x03, 0x02, 0x01, 0x02],
            &[0x02, 0x01, 0x01],
            &algorithm,
            &name,
            &tlv(0x30, &[&time, &time]),
            &name,
            info,
            &tlv(0xa3, &[&tlv(0x30, &[&extension])]),
        ],
    );
    tlv(0x30, &[&tbs, &algorithm, &[0x03, 0x02, 0x00, 0x00]])
}

#[test]
fn certificates_must_differ_when_encoded_anew() {
    let key = ed25519_dalek::SigningKey::generate(&mut rand::thread_rng());
    let info = key.verifying_key().to_public_key_der().unwrap().as_bytes().to_vec();
    let plain = certificate(&info, &[]);
    // The default, written out.
    let explicit = certificate(&info, &[0x01, 0x01, 0x00]);
    assert_ne!(plain, explicit);
    let read = |der: &[u8]| pdf_signer::certificate::Certificate::from_der(der).unwrap().core.der;
    assert_eq!(read(&plain), plain);
    assert_eq!(read(&explicit), plain);
    let der = key.to_pkcs8_der().unwrap().as_bytes().to_vec();
    let alike = KeyChain { key: der.clone(), certs: vec![plain, explicit.clone()] };
    assert_eq!(
        sign_with_chain(&alike, b"data", NOW).unwrap_err().message(),
        "cryptography error: keystore holds a certificate twice"
    );
    // Alone, either verifies.
    let once = KeyChain { key: der, certs: vec![explicit] };
    let cms = sign_with_chain(&once, b"data", NOW).unwrap();
    assert_eq!(cms_verify(&cms, b"data").unwrap(), "CN=x");
    assert_eq!(
        cms_verify(&cms, b"date").unwrap_err().message(),
        "signature verification failed: messageDigest mismatch"
    );
}

#[test]
fn certificates_of_other_formats_are_left_out() {
    let choices = vec![Some(vec![1]), None, Some(vec![2])];
    assert_eq!(pdf_signer::signed_data::select_certificates(choices), vec![vec![1], vec![2]]);
    assert!(pdf_signer::signed_data::select_certificates(vec![None]).is_empty());
}
