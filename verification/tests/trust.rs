use der::asn1::{BitString, GeneralizedTime};
use der::{Decode, Encode, EncodePem};
use pdf_signer::certificate::{parse_certificates, Certificate};
use pdf_signer::keys::verify_signature;
use pdf_signer::names::{dns_within, email_within, host_within, ip_within, name_excluded, uri_host, within_subtree};
use pdf_signer::names::{GeneralName, NameConstraints};
use pdf_signer::revocation::{crl_revoked, issued_by, ocsp_revoked, parse_crls, parse_ocsps, read_crl, read_ocsp, revoked};
use pdf_signer::signer::KeyKind;
use pdf_signer::testkit::{
    issue_three_levels, issue_two_levels, self_signed_certificate, CertExtension, CertForm, CertProfile,
};
use pdf_signer::trust::verify_chain;
use pdf_signer::{verify_certificate_chain, TrustStore};
use rsa::pkcs8::{DecodePrivateKey, EncodePrivateKey};
use rsa::signature::{SignatureEncoding, Signer};
use std::time::Duration;

const NOW: u64 = 1_780_000_000;
const AT: i64 = 1_780_000_100;
const DAY: u64 = 86_400;

fn rsa_key() -> Vec<u8> {
    let key = rsa::RsaPrivateKey::new(&mut rand::thread_rng(), 1024).unwrap();
    key.to_pkcs8_der().unwrap().as_bytes().to_vec()
}

fn form(profile: CertProfile, serial: u32, subject: &str, extensions: Vec<CertExtension>) -> CertForm {
    CertForm {
        profile,
        serial,
        not_before: NOW,
        not_after: NOW + 365 * DAY,
        subject: subject.to_string(),
        extensions,
    }
}

fn root_form(subject: &str, extensions: Vec<CertExtension>) -> CertForm {
    form(CertProfile::Root, 1, subject, extensions)
}

fn leaf_form(serial: u32, issuer: &str, subject: &str, extensions: Vec<CertExtension>) -> CertForm {
    form(CertProfile::Leaf { issuer: issuer.to_string(), key_agreement: false, key_encipherment: true }, serial, subject, extensions)
}

/// A leaf and a root, and the root's key.
fn two_levels(root: Vec<CertExtension>, leaf: Vec<CertExtension>) -> (Vec<Vec<u8>>, Vec<u8>) {
    let key = rsa_key();
    let certs = issue_two_levels(
        &key,
        &rsa_key(),
        &root_form("CN=Root,C=BR", root),
        &leaf_form(2, "CN=Root,C=BR", "CN=Leaf,C=BR", leaf),
    )
    .unwrap();
    (certs, key)
}

fn store(root: &Vec<u8>) -> TrustStore {
    TrustStore::from_ders(&vec![root.clone()]).unwrap()
}

fn verdict(certs: &Vec<Vec<u8>>, roots: &TrustStore, at: i64) -> (bool, String) {
    let pool = parse_certificates(certs);
    let leaf = Certificate::from_der(&certs[0]).unwrap();
    let r = verify_chain(&leaf, &pool, roots, &vec![], &vec![], at);
    (r.trusted, r.detail)
}

fn rsa_signer(key: &[u8]) -> rsa::pkcs1v15::SigningKey<sha2::Sha256> {
    rsa::pkcs1v15::SigningKey::<sha2::Sha256>::new(rsa::RsaPrivateKey::from_pkcs8_der(key).unwrap())
}

fn x509(der: &[u8]) -> x509_cert::Certificate {
    x509_cert::Certificate::from_der(der).unwrap()
}

fn time(secs: u64) -> x509_cert::time::Time {
    GeneralizedTime::from_unix_duration(Duration::from_secs(secs)).unwrap().into()
}

fn crl(key: &[u8], issuer: &[u8], serials: &[u32], this_update: u64, next_update: Option<u64>) -> Vec<u8> {
    let signature_algorithm = x509_cert::spki::AlgorithmIdentifierOwned {
        oid: const_oid::db::rfc5912::SHA_256_WITH_RSA_ENCRYPTION,
        parameters: Some(der::Any::null()),
    };
    let revoked: Vec<x509_cert::crl::RevokedCert> = serials
        .iter()
        .map(|s| x509_cert::crl::RevokedCert {
            serial_number: x509_cert::serial_number::SerialNumber::from(*s),
            revocation_date: time(this_update),
            crl_entry_extensions: None,
        })
        .collect();
    let tbs_cert_list = x509_cert::crl::TbsCertList {
        version: x509_cert::Version::V2,
        signature: signature_algorithm.clone(),
        issuer: x509(issuer).tbs_certificate.subject,
        this_update: time(this_update),
        next_update: next_update.map(time),
        revoked_certificates: if revoked.is_empty() { None } else { Some(revoked) },
        crl_extensions: None,
    };
    let signed = rsa_signer(key).sign(&tbs_cert_list.to_der().unwrap());
    let list = x509_cert::crl::CertificateList {
        tbs_cert_list,
        signature_algorithm,
        signature: BitString::from_bytes(&signed.to_bytes()).unwrap(),
    };
    list.to_der().unwrap()
}

fn ocsp(key: &[u8], issuer: &[u8], cert: &[u8], status: x509_ocsp::CertStatus, at: u64) -> Vec<u8> {
    let when = |secs: u64| {
        x509_ocsp::OcspGeneralizedTime(GeneralizedTime::from_unix_duration(Duration::from_secs(secs)).unwrap())
    };
    let id = x509_ocsp::CertId::from_cert::<sha1::Sha1>(&x509(issuer), &x509(cert)).unwrap();
    let single = x509_ocsp::SingleResponse::new(id, status, when(at)).with_next_update(when(at + 7 * DAY));
    x509_ocsp::builder::OcspResponseBuilder::new(x509(issuer).tbs_certificate.subject)
        .with_single_response(single)
        .sign::<_, rsa::pkcs1v15::Signature>(&mut rsa_signer(key), None, when(at))
        .unwrap()
        .to_der()
        .unwrap()
}

#[test]
fn a_leaf_below_a_root_is_trusted() {
    let (certs, _) = two_levels(vec![], vec![]);
    let roots = store(&certs[1]);
    assert_eq!(verdict(&certs, &roots, AT), (true, "chains to trusted root (CN=Root,C=BR)".to_string()));
    assert!(verify_certificate_chain(&certs[0], &vec![], &vec![], &roots, AT));
    assert!(verify_certificate_chain(&certs[0], &certs, &vec![], &roots, AT));
    assert!(!verify_certificate_chain(b"junk", &certs, &vec![], &roots, AT));
}

#[test]
fn further_candidates_change_no_verdict() {
    let (certs, key) = two_levels(vec![], vec![]);
    let (others, _) = two_levels(vec![], vec![]);
    let roots = store(&certs[1]);
    let pool = vec![b"junk".to_vec(), others[1].clone(), others[0].clone(), certs[0].clone()];
    assert!(verify_certificate_chain(&certs[0], &pool, &vec![b"junk".to_vec()], &roots, AT));
    let listed = crl(&key, &certs[1], &[2], NOW, None);
    assert!(!verify_certificate_chain(&certs[0], &pool, &vec![b"junk".to_vec(), listed], &roots, AT));
}

#[test]
fn a_root_is_trusted_itself() {
    let (certs, _) = two_levels(vec![], vec![]);
    let root = vec![certs[1].clone()];
    assert_eq!(verdict(&root, &store(&certs[1]), AT), (true, "certificate is a trusted root".to_string()));
}

#[test]
fn an_empty_store_trusts_nothing() {
    let (certs, _) = two_levels(vec![], vec![]);
    let roots = TrustStore::new();
    assert!(roots.is_empty());
    assert_eq!(
        verdict(&certs, &roots, AT),
        (false, "could not build a path to a trusted root".to_string())
    );
}

#[test]
fn a_foreign_root_does_not_help() {
    let (certs, _) = two_levels(vec![], vec![]);
    let (others, _) = two_levels(vec![], vec![]);
    // The same name, another key.
    assert!(!verdict(&certs, &store(&others[1]), AT).0);
}

#[test]
fn certificates_expire() {
    let (certs, _) = two_levels(vec![], vec![]);
    let roots = store(&certs[1]);
    assert!(!verdict(&certs, &roots, NOW as i64 - 1).0);
    assert!(verdict(&certs, &roots, NOW as i64).0);
    assert!(verdict(&certs, &roots, (NOW + 365 * DAY) as i64).0);
    assert_eq!(
        verdict(&certs, &roots, (NOW + 365 * DAY) as i64 + 1),
        (false, "a certificate in the path is expired or not yet valid".to_string())
    );
}

#[test]
fn paths_go_through_intermediates() {
    let inter = form(
        CertProfile::SubCa { issuer: "CN=Root,C=BR".to_string(), path_len: Some(0) },
        2,
        "CN=Inter,C=BR",
        vec![],
    );
    let certs = issue_three_levels(
        &rsa_key(),
        &rsa_key(),
        &rsa_key(),
        &root_form("CN=Root,C=BR", vec![]),
        &inter,
        &leaf_form(3, "CN=Inter,C=BR", "CN=Leaf,C=BR", vec![]),
    )
    .unwrap();
    let roots = store(&certs[2]);
    assert!(verdict(&certs, &roots, AT).0);
    let without = vec![certs[0].clone()];
    assert!(!verdict(&without, &roots, AT).0);
}

#[test]
fn a_leaf_is_no_authority() {
    // The second leaf names the first as its issuer and is signed by its key.
    let (root_key, first_key, second_key) = (rsa_key(), rsa_key(), rsa_key());
    let certs = issue_three_levels(
        &root_key,
        &first_key,
        &second_key,
        &root_form("CN=Root,C=BR", vec![]),
        &leaf_form(2, "CN=Root,C=BR", "CN=First,C=BR", vec![]),
        &leaf_form(3, "CN=First,C=BR", "CN=Second,C=BR", vec![]),
    )
    .unwrap();
    assert!(!verdict(&certs, &store(&certs[2]), AT).0);
}

#[test]
fn name_constraints_decide() {
    let (permitted, _) = two_levels(vec![CertExtension::Permitted("CN=Leaf,C=BR".to_string())], vec![]);
    assert!(verdict(&permitted, &store(&permitted[1]), AT).0);
    let (excluded, _) = two_levels(vec![CertExtension::Excluded("CN=Leaf,C=BR".to_string())], vec![]);
    assert_eq!(
        verdict(&excluded, &store(&excluded[1]), AT),
        (false, "subject name excluded by a CA name constraint".to_string())
    );
    let (outside, _) = two_levels(vec![CertExtension::Permitted("CN=Other,C=BR".to_string())], vec![]);
    assert_eq!(
        verdict(&outside, &store(&outside[1]), AT),
        (false, "subject name outside a CA's permitted name constraints".to_string())
    );
}

#[test]
fn a_required_policy_must_be_asserted() {
    let (certs, _) = two_levels(vec![], vec![CertExtension::Policy("1.2.3.4".to_string())]);
    assert!(verdict(&certs, &store(&certs[1]), AT).0);
    assert!(verdict(&certs, &store(&certs[1]).require_policy("1.2.3.4").unwrap(), AT).0);
    let other = verdict(&certs, &store(&certs[1]).require_policy("1.2.3.5").unwrap(), AT);
    assert!(!other.0);
    let (plain, _) = two_levels(vec![], vec![]);
    assert!(!verdict(&plain, &store(&plain[1]).require_policy("1.2.3.4").unwrap(), AT).0);
    assert!(TrustStore::new().require_policy("not an oid").is_err());
}

#[test]
fn policies_are_mapped() {
    let inter = form(
        CertProfile::SubCa { issuer: "CN=Root,C=BR".to_string(), path_len: Some(0) },
        2,
        "CN=Inter,C=BR",
        vec![
            CertExtension::Policy("1.2.3.1".to_string()),
            CertExtension::Mapping("1.2.3.1".to_string(), "1.2.3.2".to_string()),
        ],
    );
    let certs = issue_three_levels(
        &rsa_key(),
        &rsa_key(),
        &rsa_key(),
        &root_form("CN=Root,C=BR", vec![]),
        &inter,
        &leaf_form(3, "CN=Inter,C=BR", "CN=Leaf,C=BR", vec![CertExtension::Policy("1.2.3.2".to_string())]),
    )
    .unwrap();
    assert!(verdict(&certs, &store(&certs[2]).require_policy("1.2.3.1").unwrap(), AT).0);
    assert!(!verdict(&certs, &store(&certs[2]).require_policy("1.2.3.2").unwrap(), AT).0);
}

#[test]
fn crls_revoke() {
    let (certs, key) = two_levels(vec![], vec![]);
    let roots = store(&certs[1]);
    let listed = crl(&key, &certs[1], &[7, 2], NOW, Some(NOW + 30 * DAY));
    assert!(!verify_certificate_chain(&certs[0], &vec![], &vec![listed.clone()], &roots, AT));
    let clean = crl(&key, &certs[1], &[7], NOW, Some(NOW + 30 * DAY));
    assert!(verify_certificate_chain(&certs[0], &vec![], &vec![clean.clone()], &roots, AT));
    let empty = crl(&key, &certs[1], &[], NOW, None);
    assert!(verify_certificate_chain(&certs[0], &vec![], &vec![empty], &roots, AT));
    // A list that somebody else signed does not count, nor one that is not current.
    let forged = crl(&rsa_key(), &certs[1], &[2], NOW, Some(NOW + 30 * DAY));
    assert!(verify_certificate_chain(&certs[0], &vec![], &vec![forged], &roots, AT));
    let stale = crl(&key, &certs[1], &[2], NOW - 3 * DAY, Some(NOW - DAY));
    assert!(verify_certificate_chain(&certs[0], &vec![], &vec![stale], &roots, AT));
    let leaf = Certificate::from_der(&certs[0]).unwrap();
    let root = Certificate::from_der(&certs[1]).unwrap();
    assert!(issued_by(&leaf, &root));
    assert!(!issued_by(&root, &leaf));
    assert!(crl_revoked(&leaf, &root, &parse_crls(&vec![b"junk".to_vec(), clean, listed.clone()]), AT));
    assert_eq!(read_crl(&listed).unwrap().revoked, Some(vec![vec![2, 1, 7], vec![2, 1, 2]]));
    assert!(read_crl(b"junk").is_none());
}

#[test]
fn ocsp_responses_revoke() {
    let (certs, key) = two_levels(vec![], vec![]);
    let leaf = Certificate::from_der(&certs[0]).unwrap();
    let root = Certificate::from_der(&certs[1]).unwrap();
    let info = x509_ocsp::RevokedInfo {
        revocation_time: x509_ocsp::OcspGeneralizedTime(
            GeneralizedTime::from_unix_duration(Duration::from_secs(NOW)).unwrap(),
        ),
        revocation_reason: None,
    };
    let bad = ocsp(&key, &certs[1], &certs[0], x509_ocsp::CertStatus::revoked(info.clone()), NOW);
    let good = ocsp(&key, &certs[1], &certs[0], x509_ocsp::CertStatus::good(), NOW);
    let forged = ocsp(&rsa_key(), &certs[1], &certs[0], x509_ocsp::CertStatus::revoked(info), NOW);
    assert!(read_ocsp(&bad).is_some());
    assert!(read_ocsp(b"junk").is_none());
    assert!(ocsp_revoked(&leaf, &root, &parse_ocsps(&vec![bad.clone()]), AT));
    assert!(!ocsp_revoked(&leaf, &root, &parse_ocsps(&vec![bad.clone()]), AT + 30 * DAY as i64));
    assert!(!ocsp_revoked(&leaf, &root, &parse_ocsps(&vec![good.clone()]), AT));
    assert!(!ocsp_revoked(&leaf, &root, &parse_ocsps(&vec![forged]), AT));
    assert!(revoked(&leaf, &root, &vec![], &parse_ocsps(&vec![good, bad]), AT));
    assert!(!revoked(&leaf, &root, &vec![], &vec![], AT));
}

#[test]
fn reads_pem_bundles() {
    let (certs, _) = two_levels(vec![], vec![]);
    let pem = |c: &Vec<u8>| -> String {
        x509(c).to_pem(der::pem::LineEnding::LF).unwrap()
    };
    let both = format!("{}{}", pem(&certs[1]), pem(&certs[0]));
    let roots = TrustStore::from_pem(both.as_bytes()).unwrap();
    assert_eq!(roots.len(), 2);
    assert!(verdict(&certs, &roots, AT).0);
    assert!(TrustStore::from_pem(b"-----BEGIN CERTIFICATE-----\nAAAA\n-----END CERTIFICATE-----\n").is_err());
    assert!(TrustStore::from_ders(&vec![b"junk".to_vec()]).is_err());
}

#[test]
fn certificates_are_read() {
    let key = rsa_key();
    let der = self_signed_certificate(KeyKind::Rsa, &key, "CN=me,O=org,C=BR", NOW).unwrap();
    let c = Certificate::from_der(&der).unwrap();
    assert_eq!(c.core.der, der);
    assert_eq!(c.core.serial, vec![2, 1, 1]);
    assert_eq!(c.core.issuer, c.core.subject);
    assert_eq!(c.subject.text, "CN=me,O=org,C=BR");
    assert_eq!(c.subject.not_before, NOW);
    assert_eq!(c.subject.not_after, NOW + 31_536_000);
    assert_eq!(c.subject.rdns.len(), 3);
    assert_eq!(c.basic_constraints, Some((true, None)));
    assert_eq!(c.key_cert_sign, Some(true));
    assert!(c.crl_points.is_none());
    assert!(verify_signature(
        &c.core.tbs,
        &c.core.signature_oid,
        c.core.signature.as_ref().unwrap(),
        &c.core.spki
    ));
    assert!(!verify_signature(
        b"other",
        &c.core.signature_oid,
        c.core.signature.as_ref().unwrap(),
        &c.core.spki
    ));
    assert!(Certificate::from_der(b"junk").is_err());
}

#[test]
fn hosts_lie_within_domains() {
    assert!(host_within("www.example.org", ".example.org"));
    assert!(!host_within("www.example.org", "example.org"));
    assert!(host_within("Example.org", "example.ORG"));
    assert!(!host_within("badexample.org", ".example.org"));
    assert!(!host_within("example.org", ".example.org"));
    assert!(dns_within("WWW.Example.ORG", "example.org"));
    assert!(dns_within("example.org", ".example.org"));
    assert!(!dns_within("badexample.org", "example.org"));
    assert!(dns_within("anything", ""));
    assert_eq!(uri_host("https://user@host.example.org:8443/path?q"), "host.example.org");
}

#[test]
fn addresses_lie_within_subtrees() {
    assert!(email_within("joe@example.org", "joe@example.org"));
    assert!(email_within("joe@example.org", "example.org"));
    assert!(!email_within("joe@sub.example.org", "example.org"));
    assert!(email_within("joe@sub.example.org", ".example.org"));
    assert!(ip_within(&[10, 1, 2, 3], &[10, 1, 0, 0, 255, 255, 0, 0]));
    assert!(!ip_within(&[10, 2, 2, 3], &[10, 1, 0, 0, 255, 255, 0, 0]));
    assert!(!ip_within(&[10, 1, 2], &[10, 1, 0, 0, 255, 255, 0, 0]));
}

#[test]
fn subtrees_compare_names_of_one_kind() {
    let name = GeneralName::Dns("a.example.org".to_string());
    assert_eq!(within_subtree(&name, &GeneralName::Dns("example.org".to_string())), Some(true));
    assert_eq!(within_subtree(&name, &GeneralName::Email("example.org".to_string())), None);
    let nc = NameConstraints { permitted: None, excluded: Some(vec![GeneralName::Dns("example.org".to_string())]) };
    assert!(name_excluded(&name, &nc));
}
