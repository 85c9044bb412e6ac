use pdf_signer::testkit::{
    ca_chain3_forms, ca_chain_policy_mapping_forms, ca_name_constrained_forms, ca_signed_forms, ca_with_policy_forms,
    issue_time_from, keystore_with_root, CertExtension, CertForm, CertProfile, YEAR,
};

const NOW: u64 = 1_780_000_000;

fn assert_form(f: &CertForm, serial: u32, subject: &str) {
    assert_eq!(f.serial, serial);
    assert_eq!(f.not_before, NOW);
    assert_eq!(f.not_after, NOW + 31_536_000);
    assert_eq!(f.subject, subject);
}

#[test]
fn the_clock_gives_the_time_of_issue() {
    assert_eq!(issue_time_from(Ok(NOW)).unwrap(), NOW);
    assert_eq!(issue_time_from(Ok(u64::MAX - YEAR)).unwrap(), u64::MAX - YEAR);
    assert_eq!(
        issue_time_from(Ok(u64::MAX - YEAR + 1)).unwrap_err().message(),
        "cryptography error: clock out of range"
    );
    assert_eq!(issue_time_from(Err("no clock".to_string())).unwrap_err().message(), "cryptography error: no clock");
}

#[test]
fn a_keystore_comes_with_its_root() {
    let certs = vec![vec![1], vec![2], vec![3]];
    assert_eq!(keystore_with_root(Ok(vec![9]), &certs).unwrap(), (vec![9], vec![3]));
    let e = keystore_with_root(Err("no keystore".to_string()), &certs).unwrap_err();
    assert_eq!(e.message(), "cryptography error: no keystore");
}

#[test]
fn two_level_hierarchies_have_their_forms() {
    let (root, leaf) = ca_signed_forms(NOW);
    assert_form(&root, 1, "CN=PoC Test Root CA,O=StrategicProjects,C=BR");
    assert_form(&leaf, 2, "CN=PoC Signer,O=StrategicProjects,C=BR");
    assert!(matches!(root.profile, CertProfile::Root));
    assert!(matches!(&leaf.profile, CertProfile::Leaf { issuer, key_agreement: false, key_encipherment: true } if *issuer == root.subject));
    let (root, leaf) = ca_name_constrained_forms(NOW, true);
    assert_form(&leaf, 2, "CN=NC Leaf,O=StrategicProjects,C=BR");
    assert!(matches!(&root.extensions[..], [CertExtension::Excluded(n)] if *n == leaf.subject));
    let (root, leaf) = ca_name_constrained_forms(NOW, false);
    assert!(matches!(&root.extensions[..], [CertExtension::Permitted(n)] if *n == leaf.subject));
    let (root, leaf) = ca_with_policy_forms(NOW, "1.2.3");
    assert!(root.extensions.is_empty());
    assert!(matches!(&leaf.extensions[..], [CertExtension::Policy(p)] if p == "1.2.3"));
}

#[test]
fn three_level_hierarchies_have_their_forms() {
    let (root, inter, leaf) = ca_chain3_forms(NOW);
    assert_form(&root, 1, "CN=PoC Root CA,O=StrategicProjects,C=BR");
    assert_form(&inter, 2, "CN=PoC Intermediate CA,O=StrategicProjects,C=BR");
    assert_form(&leaf, 3, "CN=PoC Signer,O=StrategicProjects,C=BR");
    assert!(
        matches!(&inter.profile, CertProfile::SubCa { issuer, path_len: Some(0) } if *issuer == root.subject)
    );
    assert!(matches!(&leaf.profile, CertProfile::Leaf { issuer, key_agreement: false, key_encipherment: true } if *issuer == inter.subject));
    let (_, inter, leaf) = ca_chain_policy_mapping_forms(NOW, "1.2.3", "1.2.4");
    assert!(matches!(
        &inter.extensions[..],
        [CertExtension::Policy(p), CertExtension::Mapping(i, s)] if p == "1.2.3" && i == "1.2.3" && s == "1.2.4"
    ));
    assert!(matches!(&leaf.extensions[..], [CertExtension::Policy(p)] if p == "1.2.4"));
}
