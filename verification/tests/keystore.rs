use p12_keystore::{Certificate, EncryptionAlgorithm, KeyStore, KeyStoreEntry, PrivateKeyChain};
use pdf_signer::keystore::{has_ending_chains, has_ending_issuers, has_fitting_derivations, has_fitting_store};
use pdf_signer::signed_data::cms_verify;
use pdf_signer::signer::{cms_sign, sign_with_chain, KeyChain, KeyKind};
use pdf_signer::testkit::{self, issue_two_levels, CertForm, CertProfile};
use pdf_signer::{Error, TrustStore};
use rsa::pkcs8::EncodePrivateKey;

const PASSWORD: &str = "test-password";
const NOW: u64 = 1_780_000_000;

fn rsa_key() -> Vec<u8> {
    let key = rsa::RsaPrivateKey::new(&mut rand::thread_rng(), 1024).unwrap();
    key.to_pkcs8_der().unwrap().as_bytes().to_vec()
}

fn form(profile: CertProfile, serial: u32, subject: &str) -> CertForm {
    let extensions = Vec::new();
    CertForm { profile, serial, not_before: NOW, not_after: NOW + 1000, subject: subject.to_string(), extensions }
}

fn below(issuer: &str, serial: u32, subject: &str) -> CertForm {
    form(CertProfile::Leaf { issuer: issuer.to_string(), key_agreement: false, key_encipherment: true }, serial, subject)
}

fn keystore(algorithm: EncryptionAlgorithm, key: &[u8], certs: &[Vec<u8>]) -> Vec<u8> {
    let chain: Vec<Certificate> = certs.iter().map(|c| Certificate::from_der(c).unwrap()).collect();
    let mut store = KeyStore::new();
    store.add_entry("k", KeyStoreEntry::PrivateKeyChain(PrivateKeyChain::new(key, b"k", chain)));
    store.writer(PASSWORD).encryption_algorithm(algorithm).write().unwrap()
}

fn text(r: Result<Vec<u8>, Error>) -> String {
    match r {
        Err(e) => e.message(),
        Ok(_) => "signed".to_string(),
    }
}

const ALGORITHMS: [EncryptionAlgorithm; 3] = [
    EncryptionAlgorithm::PbeWithHmacSha256AndAes256,
    EncryptionAlgorithm::PbeWithShaAnd3KeyTripleDesCbc,
    EncryptionAlgorithm::PbeWithShaAnd40BitRc4Cbc,
];

#[test]
fn circular_issuers_are_refused() {
    let (root_key, leaf_key) = (rsa_key(), rsa_key());
    let circle = issue_two_levels(&root_key, &leaf_key, &below("CN=A", 1, "CN=B"), &below("CN=B", 2, "CN=A")).unwrap();
    assert!(!has_ending_issuers(&circle));
    for algorithm in ALGORITHMS {
        let p12 = keystore(algorithm, &leaf_key, &circle);
        assert!(!has_ending_chains(&p12, PASSWORD));
        let expected = "cryptography error: certificates of the keystore issue one another";
        assert_eq!(text(cms_sign(&p12, PASSWORD, b"data", NOW)), expected);
        // Under another password nothing is read, and the keystore's own error stays.
        assert!(has_ending_chains(&p12, "other"));
        assert!(text(cms_sign(&p12, "other", b"data", NOW)) != expected);
    }
}

#[test]
fn ending_issuers_are_followed() {
    let (root_key, leaf_key) = (rsa_key(), rsa_key());
    let chain = issue_two_levels(&root_key, &leaf_key, &form(CertProfile::Root, 1, "CN=B"), &below("CN=B", 2, "CN=A"));
    let chain = chain.unwrap();
    assert!(has_ending_issuers(&chain));
    for algorithm in ALGORITHMS {
        let p12 = keystore(algorithm, &leaf_key, &chain);
        assert!(has_ending_chains(&p12, PASSWORD));
        let cms = cms_sign(&p12, PASSWORD, b"data", NOW).unwrap();
        assert_eq!(cms_verify(&cms, b"data").unwrap(), "CN=A");
    }
    assert!(has_ending_chains(b"no keystore", PASSWORD));
}

/// A DER value with a short content.
fn value(tag: u8, content: &[u8]) -> Vec<u8> {
    let mut v = vec![tag, content.len() as u8];
    v.extend_from_slice(content);
    v
}

/// A small RSA key (PKCS#8) with the primes in the given order.
fn small_key(first: &[u8], second: &[u8]) -> Vec<u8> {
    let numbers: [&[u8]; 9] = [
        &[0],
        &[0x02, 0xff, 0xff, 0xff, 0xf1],
        &[3],
        &[0x00, 0xaa, 0xaa, 0xaa, 0xa7],
        first,
        second,
        &[1],
        &[1],
        &[1],
    ];
    let content: Vec<u8> = numbers.iter().flat_map(|n| value(0x02, n)).collect();
    let oid = [0x06, 0x09, 0x2a, 0x86, 0x48, 0x86, 0xf7, 0x0d, 0x01, 0x01, 0x01, 0x05, 0x00];
    let parts = [value(0x02, &[0]), value(0x30, &oid), value(0x04, &value(0x30, &content))].concat();
    value(0x30, &parts)
}

#[test]
fn unbalanced_primes_are_refused() {
    let cert = testkit::self_signed_certificate(KeyKind::Rsa, &rsa_key(), "CN=A", NOW).unwrap();
    let long: [u8; 5] = [0x00, 0xff, 0xff, 0xff, 0xfb];
    let sign = |key: Vec<u8>| text(sign_with_chain(&KeyChain { key, certs: vec![cert.clone()] }, b"data", NOW));
    let expected = "cryptography error: the primes of the key differ too much in length";
    assert_eq!(sign(small_key(&[3], &long)), expected);
    // The other way round the key is too small for a signature, which is another error.
    assert!(sign(small_key(&long, &[3])) != expected);
    assert!(sign(small_key(&long, &[3])) != "signed");
    let small = small_key(&[3], &long);
    assert_eq!(text(testkit::self_signed_certificate(KeyKind::Rsa, &small, "CN=A", NOW)), expected);
}

#[test]
fn a_bad_key_is_reported_before_bad_certificates() {
    let good = rsa_key();
    let cert = testkit::self_signed_certificate(KeyKind::Rsa, &good, "CN=A", NOW).unwrap();
    let mut key = good;
    let n = key.len();
    key[n - 1] ^= 1;
    key.truncate(n);
    let twice = vec![cert.clone(), cert];
    let broken = small_key(&[5], &[7]);
    let first = text(sign_with_chain(&KeyChain { key: broken, certs: twice.clone() }, b"data", NOW));
    assert!(first != "cryptography error: keystore holds a certificate twice");
    let second = text(sign_with_chain(&KeyChain { key, certs: twice }, b"data", NOW));
    assert_eq!(second, "cryptography error: keystore holds a certificate twice");
}

#[test]
fn arcs_are_bounded() {
    let policy = |p: &str| TrustStore::new().require_policy(p).map(|_| ()).map_err(|e| e.message());
    assert_eq!(policy("1.2.4294967295"), Ok(()));
    assert_eq!(policy("1.2.4294967296"), Err("cryptography error: object identifier out of range".to_string()));
    assert!(policy(&format!("1.2.{}1", "0".repeat(2000))).is_err());
    let key = rsa_key();
    let named = |n: &str| testkit::self_signed_certificate(KeyKind::Rsa, &key, n, NOW);
    assert!(named("CN=A 12345678901").is_ok());
    assert_eq!(text(named("CN=A,1.2.4294967296=x")), "cryptography error: object identifier out of range");
}

#[test]
fn key_derivations_are_bounded() {
    // The identifier of scrypt, and its parameters with a salt of one byte.
    let scrypt = |n: &[u8], r: &[u8], p: &[u8]| {
        let numbers = [value(0x04, &[7]), value(0x02, n), value(0x02, r), value(0x02, p)].concat();
        let oid = value(0x06, &[0x2b, 0x06, 0x01, 0x04, 0x01, 0xda, 0x47, 0x04, 0x0b]);
        [vec![1, 2, 3], oid, value(0x30, &numbers)].concat()
    };
    assert!(has_fitting_derivations(&scrypt(&[0x40, 0x00], &[8], &[1])));
    assert!(has_fitting_derivations(&scrypt(&[0x08, 0x00, 0x00], &[8], &[1])));
    assert!(!has_fitting_derivations(&scrypt(&[0x08, 0x00, 0x01], &[8], &[1])));
    assert!(!has_fitting_derivations(&scrypt(&[0], &[8], &[1])));
    assert!(!has_fitting_derivations(&scrypt(&[0x20, 0, 0, 0, 0, 0, 0], &[8], &[1])));
    assert!(!has_fitting_derivations(&scrypt(&[2], &[0x7f, 0xff], &[0x7f, 0xff])));
    assert!(!has_fitting_derivations(&scrypt(&[0x40, 0x00], &[8], &[1])[..20]));
    assert!(has_fitting_derivations(b"no identifier"));
    let refused = "cryptography error: key derivation of the keystore out of bounds";
    assert_eq!(text(cms_sign(&scrypt(&[0], &[8], &[1]), PASSWORD, b"data", NOW)), refused);
    let key = rsa_key();
    let cert = testkit::self_signed_certificate(KeyKind::Rsa, &key, "CN=A", NOW).unwrap();
    for algorithm in ALGORITHMS {
        assert!(has_fitting_store(&keystore(algorithm, &key, &[cert.clone()]), PASSWORD));
    }
}
