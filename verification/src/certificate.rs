//! X.509 certificates as plain values.
//!
//! What the `x509_cert` and `der` crates make of a certificate's DER is read by
//! small functions, each of which names what it returns; [`Certificate`] holds the
//! outcome, and all decisions are taken on it.
use der::{Decode, Encode};
use vstd::prelude::*;
use x509_cert::ext::pkix::name::DistributionPointName as X509PointName;
use x509_cert::ext::pkix::name::GeneralName as X509Name;
use x509_cert::ext::pkix as pkix;

use crate::names::{name_views, rdns, GeneralName, ConstraintsView, NameConstraints, NameView, Rdn};
use crate::policy::{pairs_of, PolicyExtensions, PolicyView};
use crate::util::{blobs, bytes_eq};

verus! {

// ---------------------------------------------------------------------------
// The certificate

/// The fields of a certificate that identify it, its key and its validity.
#[derive(Debug)]
pub struct CertCore {
    /// The whole certificate in DER.
    pub der: Vec<u8>,
    /// The part that is signed, in DER.
    pub tbs: Vec<u8>,
    /// The signature, where it has a whole number of bytes.
    pub signature: Option<Vec<u8>>,
    /// The signature algorithm.
    pub signature_oid: Vec<u8>,
    /// The issuer's name in DER.
    pub issuer: Vec<u8>,
    /// The subject's name in DER.
    pub subject: Vec<u8>,
    /// The serial number in DER.
    pub serial: Vec<u8>,
    /// The subject's public key info in DER.
    pub spki: Vec<u8>,
    /// The algorithm of the subject's public key.
    pub key_oid: Vec<u8>,
    /// The bytes of the subject's public key.
    pub key_raw: Vec<u8>,
    /// Whether the subject's public key has a whole number of bytes.
    pub key_whole: bool,
}

/// The core of a certificate as a mathematical value.
pub struct CoreView {
    pub der: Seq<u8>,
    pub tbs: Seq<u8>,
    pub signature: Option<Seq<u8>>,
    pub signature_oid: Seq<u8>,
    pub issuer: Seq<u8>,
    pub subject: Seq<u8>,
    pub serial: Seq<u8>,
    pub spki: Seq<u8>,
    pub key_oid: Seq<u8>,
    pub key_raw: Seq<u8>,
    pub key_whole: bool,
}

/// The view of optional bytes.
pub open spec fn opt_bytes(o: Option<Vec<u8>>) -> Option<Seq<u8>> {
    match o {
        Some(v) => Some(v@),
        None => None,
    }
}

impl CertCore {
    pub open spec fn view(&self) -> CoreView {
        CoreView {
            der: self.der@,
            tbs: self.tbs@,
            signature: opt_bytes(self.signature),
            signature_oid: self.signature_oid@,
            issuer: self.issuer@,
            subject: self.subject@,
            serial: self.serial@,
            spki: self.spki@,
            key_oid: self.key_oid@,
            key_raw: self.key_raw@,
            key_whole: self.key_whole,
        }
    }
}

/// The subject and the validity of a certificate.
#[derive(Debug)]
pub struct CertSubject {
    /// The start of the validity, in seconds since the Unix epoch.
    pub not_before: u64,
    /// The end of the validity, in seconds since the Unix epoch.
    pub not_after: u64,
    /// The subject's name as text.
    pub text: String,
    /// The parts of the subject's name: attribute types and raw values.
    pub rdns: Vec<Vec<(Vec<u8>, Vec<u8>)>>,
}

/// Subject and validity as a mathematical value.
pub struct SubjectView {
    pub not_before: u64,
    pub not_after: u64,
    pub text: Seq<char>,
    pub rdns: Seq<Rdn>,
}

impl CertSubject {
    pub open spec fn view(&self) -> SubjectView {
        SubjectView {
            not_before: self.not_before,
            not_after: self.not_after,
            text: self.text@,
            rdns: rdns(self.rdns@),
        }
    }
}

/// A certificate.
#[derive(Debug)]
pub struct Certificate {
    pub core: CertCore,
    pub subject: CertSubject,
    /// The CA flag and the path length constraint of the basic constraints.
    pub basic_constraints: Option<(bool, Option<u8>)>,
    /// Whether the key usage, where there is one, includes `keyCertSign`.
    pub key_cert_sign: Option<bool>,
    /// The extended key usages.
    pub extended_key_usage: Option<Vec<Vec<u8>>>,
    pub name_constraints: Option<NameConstraints>,
    /// The subject alternative names.
    pub alt_names: Option<Vec<GeneralName>>,
    pub policy: PolicyExtensions,
    /// The authority information access: methods and locations.
    pub access: Option<Vec<(Vec<u8>, GeneralName)>>,
    /// The full names of the CRL distribution points.
    pub crl_points: Option<Vec<Vec<GeneralName>>>,
}

/// A certificate as a mathematical value.
pub struct CertView {
    pub core: CoreView,
    pub subject: SubjectView,
    pub basic_constraints: Option<(bool, Option<u8>)>,
    pub key_cert_sign: Option<bool>,
    pub extended_key_usage: Option<Seq<Seq<u8>>>,
    pub name_constraints: Option<ConstraintsView>,
    pub alt_names: Option<Seq<NameView>>,
    pub policy: PolicyView,
    pub access: Option<Seq<(Seq<u8>, NameView)>>,
    pub crl_points: Option<Seq<Seq<NameView>>>,
}

/// The view of an optional list of byte strings.
pub open spec fn opt_blobs(o: Option<Vec<Vec<u8>>>) -> Option<Seq<Seq<u8>>> {
    match o {
        Some(v) => Some(blobs(v@)),
        None => None,
    }
}

/// The view of an optional list of names.
pub open spec fn opt_names(o: Option<Vec<GeneralName>>) -> Option<Seq<NameView>> {
    match o {
        Some(v) => Some(name_views(v@)),
        None => None,
    }
}

/// The view of optional name constraints.
pub open spec fn opt_constraints(o: Option<NameConstraints>) -> Option<ConstraintsView> {
    match o {
        Some(v) => Some(v@),
        None => None,
    }
}

/// The view of an optional list of pairs of byte strings.
pub open spec fn opt_pairs(o: Option<Vec<(Vec<u8>, Vec<u8>)>>) -> Option<Seq<(Seq<u8>, Seq<u8>)>> {
    match o {
        Some(v) => Some(pairs_of(v@)),
        None => None,
    }
}

/// The views of access descriptions.
pub open spec fn access_views(v: Seq<(Vec<u8>, GeneralName)>) -> Seq<(Seq<u8>, NameView)> {
    Seq::new(v.len(), |i: int| (v[i].0@, v[i].1@))
}

/// The view of optional access descriptions.
pub open spec fn opt_access(o: Option<Vec<(Vec<u8>, GeneralName)>>) -> Option<Seq<(Seq<u8>, NameView)>> {
    match o {
        Some(v) => Some(access_views(v@)),
        None => None,
    }
}

/// The views of lists of names.
pub open spec fn name_lists(v: Seq<Vec<GeneralName>>) -> Seq<Seq<NameView>> {
    Seq::new(v.len(), |i: int| name_views(v[i]@))
}

/// The view of optional lists of names.
pub open spec fn opt_name_lists(o: Option<Vec<Vec<GeneralName>>>) -> Option<Seq<Seq<NameView>>> {
    match o {
        Some(v) => Some(name_lists(v@)),
        None => None,
    }
}

impl Certificate {
    pub open spec fn view(&self) -> CertView {
        CertView {
            core: self.core@,
            subject: self.subject@,
            basic_constraints: self.basic_constraints,
            key_cert_sign: self.key_cert_sign,
            extended_key_usage: opt_blobs(self.extended_key_usage),
            name_constraints: opt_constraints(self.name_constraints),
            alt_names: opt_names(self.alt_names),
            policy: self.policy@,
            access: opt_access(self.access),
            crl_points: opt_name_lists(self.crl_points),
        }
    }
}

/// The views of a list of certificates.
pub open spec fn cert_views(v: Seq<Certificate>) -> Seq<CertView> {
    Seq::new(v.len(), |i: int| v[i]@)
}

// ---------------------------------------------------------------------------
// Reading the DER

/// The parts of a certificate that identify it and are signed.
#[derive(Debug)]
pub struct CertHead {
    pub der: Vec<u8>,
    pub tbs: Vec<u8>,
    pub signature: Option<Vec<u8>>,
    pub signature_oid: Vec<u8>,
    pub issuer: Vec<u8>,
    pub subject: Vec<u8>,
    pub serial: Vec<u8>,
}

/// The head of a certificate as a mathematical value.
pub struct HeadView {
    pub der: Seq<u8>,
    pub tbs: Seq<u8>,
    pub signature: Option<Seq<u8>>,
    pub signature_oid: Seq<u8>,
    pub issuer: Seq<u8>,
    pub subject: Seq<u8>,
    pub serial: Seq<u8>,
}

impl CertHead {
    pub open spec fn view(&self) -> HeadView {
        HeadView {
            der: self.der@,
            tbs: self.tbs@,
            signature: opt_bytes(self.signature),
            signature_oid: self.signature_oid@,
            issuer: self.issuer@,
            subject: self.subject@,
            serial: self.serial@,
        }
    }
}

/// The head of the certificate in the bytes, or why they hold none.
pub uninterp spec fn cert_head(der: Seq<u8>) -> Result<HeadView, Seq<char>>;

/// Two byte strings hold the same certificate: whatever is read of the one is read of
/// the other.
pub open spec fn same_certificate(a: Seq<u8>, b: Seq<u8>) -> bool {
    &&& cert_head(a) == cert_head(b)
    &&& cert_key(a) == cert_key(b)
    &&& cert_subject(a) == cert_subject(b)
    &&& cert_basic_constraints(a) == cert_basic_constraints(b)
    &&& cert_key_cert_sign(a) == cert_key_cert_sign(b)
    &&& cert_extended_key_usage(a) == cert_extended_key_usage(b)
    &&& cert_name_constraints(a) == cert_name_constraints(b)
    &&& cert_alt_names(a) == cert_alt_names(b)
    &&& cert_policies(a) == cert_policies(b)
    &&& cert_policy_mappings(a) == cert_policy_mappings(b)
    &&& cert_policy_constraints(a) == cert_policy_constraints(b)
    &&& cert_inhibit_any(a) == cert_inhibit_any(b)
    &&& cert_access(a) == cert_access(b)
    &&& cert_crl_points(a) == cert_crl_points(b)
}

/// Reads the head of a certificate: `x509_cert::Certificate::from_der`, and the DER
/// that `to_der` gives of its parts. What `to_der` writes of the whole certificate,
/// `from_der` reads as the same certificate again.
#[verifier::external_body]
fn read_head(der: &[u8]) -> (r: Result<CertHead, String>)
    ensures
        match r {
            Ok(c) => cert_head(der@) == Ok::<HeadView, Seq<char>>(c@) && same_certificate(c.der@, der@),
            Err(t) => cert_head(der@) == Err::<HeadView, Seq<char>>(t@),
        },
{
    let read = || -> der::Result<CertHead> {
        let c = x509_cert::Certificate::from_der(der)?;
        let t = &c.tbs_certificate;
        Ok(CertHead {
            der: c.to_der()?,
            tbs: t.to_der()?,
            signature: c.signature.as_bytes().map(<[u8]>::to_vec),
            signature_oid: c.signature_algorithm.oid.as_bytes().to_vec(),
            issuer: t.issuer.to_der()?,
            subject: t.subject.to_der()?,
            serial: t.serial_number.to_der()?,
        })
    };
    read().map_err(|e| e.to_string())
}

/// The public key of a certificate.
#[derive(Debug)]
pub struct CertKey {
    pub spki: Vec<u8>,
    pub oid: Vec<u8>,
    pub raw: Vec<u8>,
    pub whole: bool,
}

/// The public key of a certificate as a mathematical value.
pub struct KeyView {
    pub spki: Seq<u8>,
    pub oid: Seq<u8>,
    pub raw: Seq<u8>,
    pub whole: bool,
}

impl CertKey {
    pub open spec fn view(&self) -> KeyView {
        KeyView { spki: self.spki@, oid: self.oid@, raw: self.raw@, whole: self.whole }
    }
}

/// The public key of the certificate in the bytes, or why they hold none.
pub uninterp spec fn cert_key(der: Seq<u8>) -> Result<KeyView, Seq<char>>;

/// Reads the public key of a certificate: `x509_cert::Certificate::from_der`, its key
/// info in DER, the algorithm, and the bits of the key.
#[verifier::external_body]
fn read_key(der: &[u8]) -> (r: Result<CertKey, String>)
    ensures
        match r {
            Ok(c) => cert_key(der@) == Ok::<KeyView, Seq<char>>(c@),
            Err(t) => cert_key(der@) == Err::<KeyView, Seq<char>>(t@),
        },
{
    let info = x509_cert::Certificate::from_der(der).map(|c| c.tbs_certificate.subject_public_key_info);
    let info = info.map_err(|e| e.to_string())?;
    Ok(CertKey {
        spki: info.to_der().map_err(|e| e.to_string())?,
        oid: info.algorithm.oid.as_bytes().to_vec(),
        raw: info.subject_public_key.raw_bytes().to_vec(),
        whole: info.subject_public_key.as_bytes().is_some(),
    })
}

/// The core of the certificate in the bytes, or why they hold none.
pub open spec fn cert_core(der: Seq<u8>) -> Result<CoreView, Seq<char>> {
    match cert_head(der) {
        Err(t) => Err(t),
        Ok(h) => match cert_key(der) {
            Err(t) => Err(t),
            Ok(k) => Ok(
                CoreView {
                    der: h.der,
                    tbs: h.tbs,
                    signature: h.signature,
                    signature_oid: h.signature_oid,
                    issuer: h.issuer,
                    subject: h.subject,
                    serial: h.serial,
                    spki: k.spki,
                    key_oid: k.oid,
                    key_raw: k.raw,
                    key_whole: k.whole,
                },
            ),
        },
    }
}

fn read_core(der: &[u8]) -> (r: Result<CertCore, String>)
    ensures
        r matches Ok(c) ==> same_certificate(c.der@, der@),
        match cert_core(der@) {
            Ok(c) => r is Ok && r->Ok_0@ == c,
            Err(t) => r is Err && r->Err_0@ == t,
        },
{
    let h: CertHead = match read_head(der) {
        Err(t) => {
            return Err(t);
        },
        Ok(h) => h,
    };
    let k: CertKey = match read_key(der) {
        Err(t) => {
            return Err(t);
        },
        Ok(k) => k,
    };
    Ok(
        CertCore {
            der: h.der,
            tbs: h.tbs,
            signature: h.signature,
            signature_oid: h.signature_oid,
            issuer: h.issuer,
            subject: h.subject,
            serial: h.serial,
            spki: k.spki,
            key_oid: k.oid,
            key_raw: k.raw,
            key_whole: k.whole,
        },
    )
}

/// Subject and validity of the certificate in the bytes, or why they hold none.
pub uninterp spec fn cert_subject(der: Seq<u8>) -> Result<SubjectView, Seq<char>>;

/// Reads subject and validity of a certificate: `x509_cert::Certificate::from_der`,
/// the times as seconds since the Unix epoch, the name as text and by its parts.
#[verifier::external_body]
fn read_subject(der: &[u8]) -> (r: Result<CertSubject, String>)
    ensures
        match r {
            Ok(c) => cert_subject(der@) == Ok::<SubjectView, Seq<char>>(c@),
            Err(t) => cert_subject(der@) == Err::<SubjectView, Seq<char>>(t@),
        },
{
    let t = x509_cert::Certificate::from_der(der).map_err(|e| e.to_string())?.tbs_certificate;
    Ok(CertSubject {
        not_before: t.validity.not_before.to_unix_duration().as_secs(),
        not_after: t.validity.not_after.to_unix_duration().as_secs(),
        text: t.subject.to_string(),
        rdns: rdns_of(&t.subject),
    })
}

/// A distinguished name of the `x509_cert` crate.
#[verifier::external_type_specification]
#[verifier::external_body]
pub struct ExRdnSequence(x509_cert::name::RdnSequence);

/// Takes a distinguished name over: types and raw values of its attributes, part
/// by part. Nothing is claimed of it here: its callers name what they read.
#[verifier::external_body]
fn rdns_of(name: &x509_cert::name::RdnSequence) -> Vec<Vec<(Vec<u8>, Vec<u8>)>> {
    name.0.iter().map(|r| r.0.iter().map(|a| (a.oid.as_bytes().to_vec(), a.value.value().to_vec())).collect()).collect()
}

/// A general name of the `x509_cert` crate.
#[verifier::external_type_specification]
#[verifier::external_body]
pub struct ExGeneralName(X509Name);

/// Takes a general name over, variant by variant. Nothing is claimed of it here:
/// its callers name what they read.
#[verifier::external_body]
fn name_of(name: &X509Name) -> GeneralName {
    match name {
        X509Name::DirectoryName(n) => GeneralName::Directory(rdns_of(n)),
        X509Name::DnsName(s) => GeneralName::Dns(s.to_string()),
        X509Name::Rfc822Name(s) => GeneralName::Email(s.to_string()),
        X509Name::IpAddress(b) => GeneralName::Ip(b.as_bytes().to_vec()),
        X509Name::UniformResourceIdentifier(s) => GeneralName::Uri(s.to_string()),
        X509Name::OtherName(_) => GeneralName::Other,
        X509Name::EdiPartyName(_) => GeneralName::Other,
        X509Name::RegisteredId(_) => GeneralName::Other,
    }
}

/// The basic constraints of the certificate in the bytes, where it has that
/// extension once and well-formed.
pub uninterp spec fn cert_basic_constraints(der: Seq<u8>) -> Option<(bool, Option<u8>)>;

/// Reads the `BasicConstraints` extension with `TbsCertificate::get`.
#[verifier::external_body]
fn read_basic_constraints(der: &[u8]) -> (r: Option<(bool, Option<u8>)>)
    ensures
        r == cert_basic_constraints(der@),
{
    let t = x509_cert::Certificate::from_der(der).ok()?.tbs_certificate;
    let (_, bc) = t.get::<pkix::BasicConstraints>().ok()??;
    Some((bc.ca, bc.path_len_constraint))
}

/// Whether the key usage of the certificate in the bytes, where it has that
/// extension once and well-formed, includes `keyCertSign`.
pub uninterp spec fn cert_key_cert_sign(der: Seq<u8>) -> Option<bool>;

/// Reads the `KeyUsage` extension with `TbsCertificate::get`.
#[verifier::external_body]
fn read_key_cert_sign(der: &[u8]) -> (r: Option<bool>)
    ensures
        r == cert_key_cert_sign(der@),
{
    let t = x509_cert::Certificate::from_der(der).ok()?.tbs_certificate;
    Some(t.get::<pkix::KeyUsage>().ok()??.1.key_cert_sign())
}

/// The extended key usages of the certificate in the bytes, where it has that
/// extension once and well-formed.
pub uninterp spec fn cert_extended_key_usage(der: Seq<u8>) -> Option<Seq<Seq<u8>>>;

/// Reads the `ExtendedKeyUsage` extension with `TbsCertificate::get`.
#[verifier::external_body]
fn read_extended_key_usage(der: &[u8]) -> (r: Option<Vec<Vec<u8>>>)
    ensures
        opt_blobs(r) == cert_extended_key_usage(der@),
{
    let t = x509_cert::Certificate::from_der(der).ok()?.tbs_certificate;
    let (_, eku) = t.get::<pkix::ExtendedKeyUsage>().ok()??;
    Some(eku.0.iter().map(|oid| oid.as_bytes().to_vec()).collect())
}

/// The name constraints of the certificate in the bytes, where it has that
/// extension once and well-formed.
pub uninterp spec fn cert_name_constraints(der: Seq<u8>) -> Option<ConstraintsView>;

/// Reads the `NameConstraints` extension with `TbsCertificate::get`.
#[verifier::external_body]
fn read_name_constraints(der: &[u8]) -> (r: Option<NameConstraints>)
    ensures
        opt_constraints(r) == cert_name_constraints(der@),
{
    let t = x509_cert::Certificate::from_der(der).ok()?.tbs_certificate;
    let (_, nc) = t.get::<pkix::NameConstraints>().ok()??;
    Some(NameConstraints {
        permitted: nc.permitted_subtrees.map(|v| v.iter().map(|s| name_of(&s.base)).collect()),
        excluded: nc.excluded_subtrees.map(|v| v.iter().map(|s| name_of(&s.base)).collect()),
    })
}

/// The subject alternative names of the certificate in the bytes, where it has
/// that extension once and well-formed.
pub uninterp spec fn cert_alt_names(der: Seq<u8>) -> Option<Seq<NameView>>;

/// Reads the `SubjectAltName` extension with `TbsCertificate::get`.
#[verifier::external_body]
fn read_alt_names(der: &[u8]) -> (r: Option<Vec<GeneralName>>)
    ensures
        opt_names(r) == cert_alt_names(der@),
{
    let t = x509_cert::Certificate::from_der(der).ok()?.tbs_certificate;
    let (_, san) = t.get::<pkix::SubjectAltName>().ok()??;
    Some(san.0.iter().map(name_of).collect())
}

/// The certificate policies of the certificate in the bytes, where it has that
/// extension once and well-formed.
pub uninterp spec fn cert_policies(der: Seq<u8>) -> Option<Seq<Seq<u8>>>;

/// Reads the `CertificatePolicies` extension with `TbsCertificate::get`.
#[verifier::external_body]
fn read_policies(der: &[u8]) -> (r: Option<Vec<Vec<u8>>>)
    ensures
        opt_blobs(r) == cert_policies(der@),
{
    let t = x509_cert::Certificate::from_der(der).ok()?.tbs_certificate;
    let (_, ps) = t.get::<pkix::CertificatePolicies>().ok()??;
    Some(ps.0.iter().map(|p| p.policy_identifier.as_bytes().to_vec()).collect())
}

/// The policy mappings of the certificate in the bytes, where it has that
/// extension once and well-formed: issuer domain policy first.
pub uninterp spec fn cert_policy_mappings(der: Seq<u8>) -> Option<Seq<(Seq<u8>, Seq<u8>)>>;

/// Reads the `PolicyMappings` extension with `TbsCertificate::get`.
#[verifier::external_body]
fn read_policy_mappings(der: &[u8]) -> (r: Option<Vec<(Vec<u8>, Vec<u8>)>>)
    ensures
        opt_pairs(r) == cert_policy_mappings(der@),
{
    let t = x509_cert::Certificate::from_der(der).ok()?.tbs_certificate;
    let (_, ms) = t.get::<pkix::PolicyMappings>().ok()??;
    let pair = |m: &pkix::PolicyMapping| {
        (m.issuer_domain_policy.as_bytes().to_vec(), m.subject_domain_policy.as_bytes().to_vec())
    };
    Some(ms.0.iter().map(pair).collect())
}

/// The policy constraints of the certificate in the bytes, where it has that
/// extension once and well-formed: requireExplicitPolicy, inhibitPolicyMapping.
pub uninterp spec fn cert_policy_constraints(der: Seq<u8>) -> Option<(Option<u32>, Option<u32>)>;

/// Reads the `PolicyConstraints` extension with `TbsCertificate::get`.
#[verifier::external_body]
fn read_policy_constraints(der: &[u8]) -> (r: Option<(Option<u32>, Option<u32>)>)
    ensures
        r == cert_policy_constraints(der@),
{
    let t = x509_cert::Certificate::from_der(der).ok()?.tbs_certificate;
    let (_, pc) = t.get::<pkix::PolicyConstraints>().ok()??;
    Some((pc.require_explicit_policy, pc.inhibit_policy_mapping))
}

/// The inhibitAnyPolicy extension of the certificate in the bytes, where it has
/// it once and well-formed.
pub uninterp spec fn cert_inhibit_any(der: Seq<u8>) -> Option<u32>;

/// Reads the `InhibitAnyPolicy` extension with `TbsCertificate::get`.
#[verifier::external_body]
fn read_inhibit_any(der: &[u8]) -> (r: Option<u32>)
    ensures
        r == cert_inhibit_any(der@),
{
    let t = x509_cert::Certificate::from_der(der).ok()?.tbs_certificate;
    let (_, v) = t.get::<pkix::InhibitAnyPolicy>().ok()??;
    Some(v.0)
}

/// The authority information access of the certificate in the bytes, where it has
/// that extension once and well-formed: methods and locations.
pub uninterp spec fn cert_access(der: Seq<u8>) -> Option<Seq<(Seq<u8>, NameView)>>;

/// Reads the `AuthorityInfoAccessSyntax` extension with `TbsCertificate::get`.
#[verifier::external_body]
fn read_access(der: &[u8]) -> (r: Option<Vec<(Vec<u8>, GeneralName)>>)
    ensures
        opt_access(r) == cert_access(der@),
{
    let t = x509_cert::Certificate::from_der(der).ok()?.tbs_certificate;
    let (_, aia) = t.get::<pkix::AuthorityInfoAccessSyntax>().ok()??;
    Some(aia.0.iter().map(|d| (d.access_method.as_bytes().to_vec(), name_of(&d.access_location))).collect())
}

/// The full names of the CRL distribution points of the certificate in the bytes,
/// where it has that extension once and well-formed: an empty list for a point
/// that has none.
pub uninterp spec fn cert_crl_points(der: Seq<u8>) -> Option<Seq<Seq<NameView>>>;

/// Reads the `CrlDistributionPoints` extension with `TbsCertificate::get`.
#[verifier::external_body]
fn read_crl_points(der: &[u8]) -> (r: Option<Vec<Vec<GeneralName>>>)
    ensures
        opt_name_lists(r) == cert_crl_points(der@),
{
    let t = x509_cert::Certificate::from_der(der).ok()?.tbs_certificate;
    let (_, cdp) = t.get::<pkix::CrlDistributionPoints>().ok()??;
    let names = |p: &pkix::crl::dp::DistributionPoint| match &p.distribution_point {
        Some(X509PointName::FullName(names)) => names.iter().map(name_of).collect(),
        Some(X509PointName::NameRelativeToCRLIssuer(_)) => Vec::new(),
        None => Vec::new(),
    };
    Some(cdp.0.iter().map(names).collect())
}

/// What the certificate in the bytes says of policies.
pub open spec fn policy_of(der: Seq<u8>, core: CoreView) -> PolicyView {
    PolicyView {
        policies: cert_policies(der),
        mappings: cert_policy_mappings(der),
        require_explicit: match cert_policy_constraints(der) {
            Some((e, _)) => e,
            None => None,
        },
        inhibit_mapping: match cert_policy_constraints(der) {
            Some((_, m)) => m,
            None => None,
        },
        inhibit_any: cert_inhibit_any(der),
        self_issued: core.subject == core.issuer,
    }
}

/// The certificate in the bytes, or why they hold none.
pub open spec fn certificate_of(der: Seq<u8>) -> Result<CertView, Seq<char>> {
    match cert_core(der) {
        Err(t) => Err(t),
        Ok(core) => match cert_subject(der) {
            Err(t) => Err(t),
            Ok(subject) => Ok(
                CertView {
                    core,
                    subject,
                    basic_constraints: cert_basic_constraints(der),
                    key_cert_sign: cert_key_cert_sign(der),
                    extended_key_usage: cert_extended_key_usage(der),
                    name_constraints: cert_name_constraints(der),
                    alt_names: cert_alt_names(der),
                    policy: policy_of(der, core),
                    access: cert_access(der),
                    crl_points: cert_crl_points(der),
                },
            ),
        },
    }
}

/// The DER of the certificate in the bytes, encoded anew; the bytes themselves where they
/// hold none.
pub open spec fn encoded_anew(der: Seq<u8>) -> Seq<u8> {
    match cert_head(der) {
        Ok(h) => h.der,
        Err(_) => der,
    }
}

/// The DER of the certificates of a list, each encoded anew.
pub open spec fn all_encoded_anew(ders: Seq<Seq<u8>>) -> Seq<Seq<u8>> {
    Seq::new(ders.len(), |i: int| encoded_anew(ders[i]))
}

/// A certificate that is encoded anew reads as itself.
pub open spec fn reads_back(der: Seq<u8>) -> bool {
    certificate_of(der) is Ok ==> certificate_of(encoded_anew(der)) == certificate_of(der)
}

impl Certificate {
    /// Reads a certificate, or says why the bytes hold none.
    pub fn from_der(der: &[u8]) -> (r: Result<Certificate, String>)
        ensures
            reads_back(der@),
            match certificate_of(der@) {
                Ok(c) => r is Ok && r->Ok_0@ == c,
                Err(t) => r is Err && r->Err_0@ == t,
            },
    {
        let core: CertCore = match read_core(der) {
            Err(t) => {
                return Err(t);
            },
            Ok(c) => c,
        };
        let subject: CertSubject = match read_subject(der) {
            Err(t) => {
                return Err(t);
            },
            Ok(c) => c,
        };
        let (require_explicit, inhibit_mapping): (Option<u32>, Option<u32>) = match read_policy_constraints(der) {
            Some(c) => c,
            None => (None, None),
        };
        let policy: PolicyExtensions = PolicyExtensions {
            policies: read_policies(der),
            mappings: read_policy_mappings(der),
            require_explicit,
            inhibit_mapping,
            inhibit_any: read_inhibit_any(der),
            self_issued: bytes_eq(&core.subject, &core.issuer),
        };
        Ok(
            Certificate {
                core,
                subject,
                basic_constraints: read_basic_constraints(der),
                key_cert_sign: read_key_cert_sign(der),
                extended_key_usage: read_extended_key_usage(der),
                name_constraints: read_name_constraints(der),
                alt_names: read_alt_names(der),
                policy,
                access: read_access(der),
                crl_points: read_crl_points(der),
            },
        )
    }
}

/// The certificates in a list of byte strings; what holds none is dropped.
pub open spec fn certificates_of(ders: Seq<Seq<u8>>) -> Seq<CertView>
    decreases ders.len(),
{
    if ders.len() == 0 {
        Seq::empty()
    } else {
        match certificate_of(ders.last()) {
            Ok(c) => certificates_of(ders.drop_last()).push(c),
            Err(_) => certificates_of(ders.drop_last()),
        }
    }
}

/// Reads the certificates of a list, dropping what holds none.
pub fn parse_certificates(ders: &Vec<Vec<u8>>) -> (r: Vec<Certificate>)
    ensures
        cert_views(r@) == certificates_of(blobs(ders@)),
{
    let mut out: Vec<Certificate> = Vec::new();
    let mut i: usize = 0;
    proof {
        assert(blobs(ders@).take(0) =~= Seq::empty());
        assert(cert_views(out@) =~= Seq::empty());
    }
    while i < ders.len()
        invariant
            i <= ders.len(),
            cert_views(out@) == certificates_of(blobs(ders@).take(i as int)),
        decreases ders.len() - i,
    {
        proof {
            let t = blobs(ders@).take(i + 1);
            assert(t.drop_last() =~= blobs(ders@).take(i as int));
            assert(t.last() == ders@[i as int]@);
        }
        match Certificate::from_der(&ders[i]) {
            Ok(c) => {
                let ghost before = cert_views(out@);
                let ghost v = c@;
                out.push(c);
                assert(cert_views(out@) =~= before.push(v));
            },
            Err(_) => {},
        }
        i += 1;
    }
    assert(blobs(ders@).take(i as int) =~= blobs(ders@));
    out
}

/// The certificates of all byte strings of a list, or why the first that holds
/// none does not.
pub open spec fn all_certificates(ders: Seq<Seq<u8>>) -> Result<Seq<CertView>, Seq<char>>
    decreases ders.len(),
{
    if ders.len() == 0 {
        Ok(Seq::empty())
    } else {
        match all_certificates(ders.drop_last()) {
            Err(t) => Err(t),
            Ok(v) => match certificate_of(ders.last()) {
                Err(t) => Err(t),
                Ok(c) => Ok(v.push(c)),
            },
        }
    }
}

proof fn lemma_all_err(ders: Seq<Seq<u8>>, i: int)
    requires
        0 <= i <= ders.len(),
        all_certificates(ders.take(i)) is Err,
    ensures
        all_certificates(ders) is Err,
        all_certificates(ders)->Err_0 == all_certificates(ders.take(i))->Err_0,
    decreases ders.len() - i,
{
    if i < ders.len() {
        assert(ders.take(i + 1).drop_last() =~= ders.take(i));
        lemma_all_err(ders, i + 1);
    } else {
        assert(ders.take(i) =~= ders);
    }
}

/// What `all_certificates` reads: each certificate of the list, if none is malformed.
pub proof fn lemma_all_certificates(ders: Seq<Seq<u8>>)
    ensures
        (forall|i: int| 0 <= i < ders.len() ==> certificate_of(#[trigger] ders[i]) is Ok) <==> all_certificates(
            ders,
        ) is Ok,
        all_certificates(ders) matches Ok(v) ==> v.len() == ders.len() && forall|i: int|
            0 <= i < ders.len() ==> certificate_of(#[trigger] ders[i]) == Ok::<CertView, Seq<char>>(v[i]),
    decreases ders.len(),
{
    if ders.len() > 0 {
        let t = ders.drop_last();
        lemma_all_certificates(t);
        assert forall|i: int| 0 <= i < t.len() implies t[i] == #[trigger] ders[i] by {}
        if all_certificates(ders) is Ok {
            assert forall|i: int| 0 <= i < ders.len() implies certificate_of(#[trigger] ders[i]) == Ok::<
                CertView,
                Seq<char>,
            >(all_certificates(ders)->Ok_0[i]) by {
                if i < t.len() {
                    assert(certificate_of(t[i]) is Ok);
                }
            }
        }
        if forall|i: int| 0 <= i < ders.len() ==> certificate_of(#[trigger] ders[i]) is Ok {
            assert forall|i: int| 0 <= i < t.len() implies certificate_of(#[trigger] t[i]) is Ok by {
                assert(certificate_of(ders[i]) is Ok);
            }
            assert(certificate_of(ders[ders.len() - 1]) is Ok);
        }
    }
}

/// Reads the certificates of a list, or says why the first that is none is not.
pub fn read_all(ders: &Vec<Vec<u8>>) -> (r: Result<Vec<Certificate>, String>)
    ensures
        r is Ok ==> forall|i: int| 0 <= i < ders@.len() ==> reads_back(#[trigger] blobs(ders@)[i]),
        match all_certificates(blobs(ders@)) {
            Ok(v) => r is Ok && cert_views(r->Ok_0@) == v,
            Err(t) => r is Err && r->Err_0@ == t,
        },
{
    let mut out: Vec<Certificate> = Vec::new();
    let mut i: usize = 0;
    proof {
        assert(blobs(ders@).take(0) =~= Seq::empty());
        assert(cert_views(out@) =~= Seq::empty());
    }
    while i < ders.len()
        invariant
            i <= ders.len(),
            all_certificates(blobs(ders@).take(i as int)) == Ok::<Seq<CertView>, Seq<char>>(cert_views(out@)),
            forall|k: int| 0 <= k < i ==> reads_back(#[trigger] blobs(ders@)[k]),
        decreases ders.len() - i,
    {
        proof {
            let t = blobs(ders@).take(i + 1);
            assert(t.drop_last() =~= blobs(ders@).take(i as int));
            assert(t.last() == ders@[i as int]@);
        }
        match Certificate::from_der(&ders[i]) {
            Err(t) => {
                proof {
                    lemma_all_err(blobs(ders@), i + 1);
                }
                return Err(t);
            },
            Ok(c) => {
                let ghost before = cert_views(out@);
                let ghost v = c@;
                out.push(c);
                assert(cert_views(out@) =~= before.push(v));
            },
        }
        i += 1;
    }
    assert(blobs(ders@).take(i as int) =~= blobs(ders@));
    Ok(out)
}

} // verus!
