use pdf_signer::policy::{any_policy_oid, process_policies, PolicyExtensions, PolicyInput};

const A: [u8; 3] = [0x2a, 0x03, 0x01];
const B: [u8; 3] = [0x2a, 0x03, 0x02];

fn cert(policies: &[&[u8]]) -> PolicyExtensions {
    PolicyExtensions {
        policies: if policies.is_empty() { None } else { Some(policies.iter().map(|p| p.to_vec()).collect()) },
        mappings: None,
        require_explicit: None,
        inhibit_mapping: None,
        inhibit_any: None,
        self_issued: false,
    }
}

fn wants(policy: &[u8]) -> PolicyInput {
    PolicyInput { initial_policy_set: vec![policy.to_vec()], initial_explicit_policy: true }
}

fn anything() -> PolicyInput {
    PolicyInput { initial_policy_set: vec![any_policy_oid()], initial_explicit_policy: false }
}

fn accepted(certs: &[PolicyExtensions], input: &PolicyInput) -> Result<(), &'static str> {
    process_policies(&certs.iter().collect(), input)
}

#[test]
fn no_policy_is_needed_by_default() {
    assert_eq!(accepted(&[cert(&[]), cert(&[])], &anything()), Ok(()));
    assert_eq!(accepted(&[], &anything()), Ok(()));
}

#[test]
fn the_whole_path_must_assert_the_policy() {
    assert_eq!(accepted(&[cert(&[&A]), cert(&[&A])], &wants(&A)), Ok(()));
    assert!(accepted(&[cert(&[&B]), cert(&[&A])], &wants(&A)).is_err());
    assert!(accepted(&[cert(&[&A]), cert(&[&B])], &wants(&A)).is_err());
    assert!(accepted(&[cert(&[&A]), cert(&[])], &wants(&A)).is_err());
    assert_eq!(accepted(&[cert(&[&A, &B]), cert(&[&B])], &wants(&B)), Ok(()));
}

#[test]
fn any_policy_matches() {
    let any = any_policy_oid();
    assert_eq!(accepted(&[cert(&[&any]), cert(&[&A])], &wants(&A)), Ok(()));
    assert_eq!(accepted(&[cert(&[&A]), cert(&[&any])], &wants(&A)), Ok(()));
    let mut inhibiting = cert(&[&A]);
    inhibiting.inhibit_any = Some(0);
    assert!(accepted(&[inhibiting, cert(&[&any])], &wants(&A)).is_err());
}

#[test]
fn mappings_lead_on() {
    let mut ca = cert(&[&A]);
    ca.mappings = Some(vec![(A.to_vec(), B.to_vec())]);
    assert_eq!(accepted(&[ca, cert(&[&B])], &wants(&A)), Ok(()));
    let mut ca = cert(&[&A]);
    ca.mappings = Some(vec![(A.to_vec(), B.to_vec())]);
    assert!(accepted(&[ca, cert(&[&A])], &wants(&A)).is_err());
    let mut ca = cert(&[&A]);
    ca.mappings = Some(vec![(any_policy_oid(), B.to_vec())]);
    assert_eq!(accepted(&[ca, cert(&[&A])], &anything()), Err("policy mapping involves anyPolicy"));
}

#[test]
fn mapping_can_be_inhibited() {
    let mut root = cert(&[&A]);
    root.inhibit_mapping = Some(0);
    let mut ca = cert(&[&A]);
    ca.mappings = Some(vec![(A.to_vec(), B.to_vec())]);
    assert!(accepted(&[root, ca, cert(&[&B])], &wants(&A)).is_err());
}

#[test]
fn a_certificate_can_require_a_policy() {
    let mut ca = cert(&[]);
    ca.require_explicit = Some(0);
    assert!(accepted(&[ca, cert(&[])], &anything()).is_err());
    let mut ca = cert(&[&A]);
    ca.require_explicit = Some(0);
    assert_eq!(accepted(&[ca, cert(&[&A])], &anything()), Ok(()));
    let mut late = cert(&[]);
    late.require_explicit = Some(5);
    assert_eq!(accepted(&[late, cert(&[])], &anything()), Ok(()));
}
