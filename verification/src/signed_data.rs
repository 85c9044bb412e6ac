//! CMS (PKCS#7) signed data: reading it and verifying a detached signature.
use cms::content_info::ContentInfo;
use cms::signed_data::SignedData;
use cms::signed_data::SignerIdentifier;
use cms::cert::CertificateChoices;
use der::{Decode, Encode};
use vstd::prelude::*;

use crate::certificate::{all_certificates, cert_views, opt_bytes, read_all, CertView, Certificate};
use crate::digest::{sha256, sha256_digest, sha384, sha384_digest, sha512, sha512_digest};
use crate::error::{unverified, Error, ErrorView};
use crate::oids::{
    ec_public_key_oid, ed25519_oid, is_ec_public_key, is_ed25519, is_message_digest, is_rsa_encryption, is_sha256,
    is_sha384, is_sha512, is_time_stamp_token, message_digest_oid, rsa_encryption_oid, sha256_oid, sha384_oid,
    sha512_oid, time_stamp_token_oid,
};
use crate::keys::{ecdsa_holds, ed25519_holds, rsa_sha256_holds, verify_ecdsa, verify_ed25519, verify_rsa_sha256};
use crate::util::{blobs, bytes_eq, to_vec};

verus! {

// ---------------------------------------------------------------------------
// Signed data

/// The identity, the digest algorithm and the signature of a signer.
#[derive(Debug)]
pub struct SignerHead {
    /// Issuer and serial number of the signer's certificate in DER, where the
    /// signer is identified by them.
    pub issuer_and_serial: Option<(Vec<u8>, Vec<u8>)>,
    pub digest_oid: Vec<u8>,
    pub signature: Vec<u8>,
    /// How many signers the signed data has.
    pub count: usize,
}

/// A signer's head as a mathematical value.
pub struct HeadView {
    pub issuer_and_serial: Option<(Seq<u8>, Seq<u8>)>,
    pub digest_oid: Seq<u8>,
    pub signature: Seq<u8>,
    pub count: usize,
}

impl SignerHead {
    pub open spec fn view(&self) -> HeadView {
        HeadView {
            issuer_and_serial: match self.issuer_and_serial {
                Some((i, s)) => Some((i@, s@)),
                None => None,
            },
            digest_oid: self.digest_oid@,
            signature: self.signature@,
            count: self.count,
        }
    }
}

/// The views of attributes: types, and first values in DER.
pub open spec fn attribute_views(v: Seq<(Vec<u8>, Option<Vec<u8>>)>) -> Seq<(Seq<u8>, Option<Seq<u8>>)> {
    Seq::new(v.len(), |i: int| (v[i].0@, opt_bytes(v[i].1)))
}

/// The value of an attribute, read as an octet string.
#[derive(Debug)]
pub enum AttributeValue {
    /// The attribute has no value.
    Missing,
    /// The octets of its first value.
    Octets(Vec<u8>),
    /// Why its first value is no octet string.
    Malformed(String),
}

/// An attribute value as a mathematical value.
pub enum ValueView {
    Missing,
    Octets(Seq<u8>),
    Malformed(Seq<char>),
}

impl AttributeValue {
    pub open spec fn view(&self) -> ValueView {
        match *self {
            AttributeValue::Missing => ValueView::Missing,
            AttributeValue::Octets(b) => ValueView::Octets(b@),
            AttributeValue::Malformed(t) => ValueView::Malformed(t@),
        }
    }
}

/// The signed attributes of a signer.
#[derive(Debug)]
pub struct SignedAttributes {
    /// The attributes in DER, as they are signed.
    pub der: Vec<u8>,
    /// The `messageDigest` attributes among them, in their order.
    pub digests: Vec<AttributeValue>,
}

/// Signed attributes as a mathematical value.
pub struct AttributesView {
    pub der: Seq<u8>,
    pub digests: Seq<ValueView>,
}

/// The views of attribute values.
pub open spec fn value_views(v: Seq<AttributeValue>) -> Seq<ValueView> {
    Seq::new(v.len(), |i: int| v[i]@)
}

impl SignedAttributes {
    pub open spec fn view(&self) -> AttributesView {
        AttributesView { der: self.der@, digests: value_views(self.digests@) }
    }
}

/// A CMS signed-data structure: its first signer and its certificates.
#[derive(Debug)]
pub struct Cms {
    pub signer: Option<SignerHead>,
    pub signed: Option<SignedAttributes>,
    pub certs: Option<Vec<Certificate>>,
}

/// Signed data as a mathematical value.
pub struct CmsView {
    pub signer: Option<HeadView>,
    pub signed: Option<AttributesView>,
    pub certs: Option<Seq<CertView>>,
}

/// The view of an optional signer.
pub open spec fn opt_head(o: Option<SignerHead>) -> Option<HeadView> {
    match o {
        Some(h) => Some(h@),
        None => None,
    }
}

/// The view of an optional list of certificates.
pub open spec fn opt_certs(o: Option<Vec<Certificate>>) -> Option<Seq<CertView>> {
    match o {
        Some(v) => Some(cert_views(v@)),
        None => None,
    }
}

impl Cms {
    pub open spec fn view(&self) -> CmsView {
        CmsView {
            signer: opt_head(self.signer),
            signed: match self.signed {
                Some(a) => Some(a@),
                None => None,
            },
            certs: opt_certs(self.certs),
        }
    }
}

// ---------------------------------------------------------------------------
// Reading the DER

/// The signer at an index of the signed data in the bytes, where it has one, or why they
/// hold no signed data.
pub uninterp spec fn signer_at(der: Seq<u8>, index: usize) -> Result<Option<HeadView>, Seq<char>>;

/// Reads the signer at an index of signed data: `ContentInfo::from_der` and `decode_as`
/// for `SignedData`, both of the `cms` crate.
#[verifier::external_body]
fn read_signer_at(der: &[u8], index: usize) -> (r: Result<Option<SignerHead>, String>)
    ensures
        match r {
            Ok(h) => signer_at(der@, index) == Ok::<Option<HeadView>, Seq<char>>(opt_head(h)),
            Err(t) => signer_at(der@, index) == Err::<Option<HeadView>, Seq<char>>(t@),
        },
{
    let read = || -> der::Result<Option<SignerHead>> {
        let sd = ContentInfo::from_der(der)?.content.decode_as::<SignedData>()?;
        let Some(si) = sd.signer_infos.0.get(index) else { return Ok(None) };
        let issuer_and_serial = match &si.sid {
            SignerIdentifier::IssuerAndSerialNumber(i) => Some((i.issuer.to_der()?, i.serial_number.to_der()?)),
            SignerIdentifier::SubjectKeyIdentifier(_) => None,
        };
        let (digest_oid, signature) = (si.digest_alg.oid.as_bytes().to_vec(), si.signature.as_bytes().to_vec());
        Ok(Some(SignerHead { issuer_and_serial, digest_oid, signature, count: sd.signer_infos.0.len() }))
    };
    read().map_err(|e| e.to_string())
}

/// The first signer of the signed data in the bytes, where it has one, or why they
/// hold no signed data.
pub open spec fn cms_signer(der: Seq<u8>) -> Result<Option<HeadView>, Seq<char>> {
    signer_at(der, 0)
}

/// Reads the first signer of signed data.
pub(crate) fn read_signer(der: &[u8]) -> (r: Result<Option<SignerHead>, String>)
    ensures
        match r {
            Ok(h) => cms_signer(der@) == Ok::<Option<HeadView>, Seq<char>>(opt_head(h)),
            Err(t) => cms_signer(der@) == Err::<Option<HeadView>, Seq<char>>(t@),
        },
{
    read_signer_at(der, 0)
}

/// The view of optional attributes.
pub open spec fn opt_attribute_list(o: Option<Vec<(Vec<u8>, Option<Vec<u8>>)>>) -> Option<
    Seq<(Seq<u8>, Option<Seq<u8>>)>,
> {
    match o {
        Some(v) => Some(attribute_views(v@)),
        None => None,
    }
}

/// The views of attributes: type and values of each.
pub open spec fn valued_views(v: Seq<(Vec<u8>, Vec<Vec<u8>>)>) -> Seq<(Seq<u8>, Seq<Seq<u8>>)> {
    Seq::new(v.len(), |i: int| (v[i].0@, blobs(v[i].1@)))
}

/// The view of optional attributes with their values.
pub open spec fn opt_valued(o: Option<Vec<(Vec<u8>, Vec<Vec<u8>>)>>) -> Option<Seq<(Seq<u8>, Seq<Seq<u8>>)>> {
    match o {
        Some(v) => Some(valued_views(v@)),
        None => None,
    }
}

/// Type and first value of each attribute.
pub open spec fn first_values(l: Seq<(Seq<u8>, Seq<Seq<u8>>)>) -> Seq<(Seq<u8>, Option<Seq<u8>>)> {
    Seq::new(
        l.len(),
        |i: int|
            (
                l[i].0,
                if l[i].1.len() == 0 {
                    None
                } else {
                    Some(l[i].1[0])
                },
            ),
    )
}

/// Type and first value of each attribute, where attributes were read.
pub open spec fn firsts_read(r: Result<Option<Seq<(Seq<u8>, Seq<Seq<u8>>)>>, Seq<char>>) -> Result<
    Option<Seq<(Seq<u8>, Option<Seq<u8>>)>>,
    Seq<char>,
> {
    match r {
        Err(t) => Err(t),
        Ok(None) => Ok(None),
        Ok(Some(l)) => Ok(Some(first_values(l))),
    }
}

/// Takes type and first value of each attribute.
fn take_first_values(l: &Vec<(Vec<u8>, Vec<Vec<u8>>)>) -> (r: Vec<(Vec<u8>, Option<Vec<u8>>)>)
    ensures
        attribute_views(r@) == first_values(valued_views(l@)),
{
    let mut r: Vec<(Vec<u8>, Option<Vec<u8>>)> = Vec::new();
    let mut i: usize = 0;
    while i < l.len()
        invariant
            i <= l.len(),
            r.len() == i,
            forall|k: int|
                0 <= k < i ==> ((#[trigger] r@[k]).0@, opt_bytes(r@[k].1)) == first_values(valued_views(l@))[k],
        decreases l.len() - i,
    {
        let first: Option<Vec<u8>> = if l[i].1.len() == 0 {
            None
        } else {
            Some(to_vec(&l[i].1[0]))
        };
        r.push((to_vec(&l[i].0), first));
        i += 1;
    }
    assert(attribute_views(r@) =~= first_values(valued_views(l@)));
    r
}

/// The DER of the signed attributes of the signer at an index in the bytes, where it has
/// any, or why the bytes hold no signed data.
pub uninterp spec fn signed_der_at(der: Seq<u8>, index: usize) -> Result<Option<Seq<u8>>, Seq<char>>;

/// Reads the DER of the signed attributes of the signer at an index:
/// `ContentInfo::from_der` and `decode_as` for `SignedData`, both of the `cms` crate.
#[verifier::external_body]
fn read_signed_der_at(der: &[u8], index: usize) -> (r: Result<Option<Vec<u8>>, String>)
    ensures
        match r {
            Ok(a) => signed_der_at(der@, index) == Ok::<Option<Seq<u8>>, Seq<char>>(opt_bytes(a)),
            Err(t) => signed_der_at(der@, index) == Err::<Option<Seq<u8>>, Seq<char>>(t@),
        },
{
    let sd = ContentInfo::from_der(der).and_then(|c| c.content.decode_as::<SignedData>()).map_err(|e| e.to_string())?;
    let attrs = sd.signer_infos.0.get(index).and_then(|si| si.signed_attrs.as_ref());
    attrs.map(Encode::to_der).transpose().map_err(|e| e.to_string())
}

/// The DER of the signed attributes of the first signer in the bytes, where it has
/// any, or why the bytes hold no signed data.
pub open spec fn cms_signed_der(der: Seq<u8>) -> Result<Option<Seq<u8>>, Seq<char>> {
    signed_der_at(der, 0)
}

/// The signed attributes of the signer at an index in the bytes, where it has any: type
/// and values of each; or why the bytes hold no signed data.
pub uninterp spec fn signed_values_at(der: Seq<u8>, index: usize) -> Result<
    Option<Seq<(Seq<u8>, Seq<Seq<u8>>)>>,
    Seq<char>,
>;

/// Reads the signed attributes of the signer at an index: `ContentInfo::from_der` and
/// `decode_as` for `SignedData`, both of the `cms` crate.
#[verifier::external_body]
fn read_signed_values_at(der: &[u8], index: usize) -> (r: Result<Option<Vec<(Vec<u8>, Vec<Vec<u8>>)>>, String>)
    ensures
        match r {
            Ok(a) => signed_values_at(der@, index) == Ok::<Option<Seq<(Seq<u8>, Seq<Seq<u8>>)>>, Seq<char>>(
                opt_valued(a),
            ),
            Err(t) => signed_values_at(der@, index) == Err::<Option<Seq<(Seq<u8>, Seq<Seq<u8>>)>>, Seq<char>>(t@),
        },
{
    let sd = ContentInfo::from_der(der).and_then(|c| c.content.decode_as::<SignedData>()).map_err(|e| e.to_string())?;
    let attrs = sd.signer_infos.0.get(index).and_then(|si| si.signed_attrs.as_ref());
    let pair = |a: &x509_cert::attr::Attribute| -> der::Result<(Vec<u8>, Vec<Vec<u8>>)> {
        Ok((a.oid.as_bytes().to_vec(), a.values.iter().map(Encode::to_der).collect::<der::Result<_>>()?))
    };
    attrs.map(|v| v.iter().map(pair).collect()).transpose().map_err(|e: der::Error| e.to_string())
}

/// The signed attributes of the first signer in the bytes, where it has any: type and
/// first value of each; or why the bytes hold no signed data.
pub open spec fn cms_signed_list(der: Seq<u8>) -> Result<Option<Seq<(Seq<u8>, Option<Seq<u8>>)>>, Seq<char>> {
    firsts_read(signed_values_at(der, 0))
}

/// The signed attributes of the first signer in the bytes, where it has any: their
/// DER, and type and first value of each; or why the bytes hold no signed data.
pub open spec fn cms_signed_attributes(der: Seq<u8>) -> Result<
    Option<(Seq<u8>, Seq<(Seq<u8>, Option<Seq<u8>>)>)>,
    Seq<char>,
> {
    match cms_signed_der(der) {
        Err(t) => Err(t),
        Ok(d) => match cms_signed_list(der) {
            Err(t) => Err(t),
            Ok(l) => Ok(
                match (d, l) {
                    (Some(a), Some(b)) => Some((a, b)),
                    _ => None,
                },
            ),
        },
    }
}

/// The view of optional attributes and their DER.
pub open spec fn opt_attributes(o: Option<(Vec<u8>, Vec<(Vec<u8>, Option<Vec<u8>>)>)>) -> Option<
    (Seq<u8>, Seq<(Seq<u8>, Option<Seq<u8>>)>),
> {
    match o {
        Some((d, v)) => Some((d@, attribute_views(v@))),
        None => None,
    }
}

fn read_signed_attributes(der: &[u8]) -> (r: Result<Option<(Vec<u8>, Vec<(Vec<u8>, Option<Vec<u8>>)>)>, String>)
    ensures
        match cms_signed_attributes(der@) {
            Ok(a) => r is Ok && opt_attributes(r->Ok_0) == a,
            Err(t) => r is Err && r->Err_0@ == t,
        },
{
    let d: Option<Vec<u8>> = match read_signed_der_at(der, 0) {
        Err(t) => {
            return Err(t);
        },
        Ok(d) => d,
    };
    let l: Option<Vec<(Vec<u8>, Option<Vec<u8>>)>> = match read_signed_values_at(der, 0) {
        Err(t) => {
            return Err(t);
        },
        Ok(None) => None,
        Ok(Some(l)) => Some(take_first_values(&l)),
    };
    match (d, l) {
        (Some(a), Some(b)) => Ok(Some((a, b))),
        _ => Ok(None),
    }
}

/// The unsigned attributes of the signer at an index in the bytes, where it has any: type
/// and values of each; or why the bytes hold no signed data.
pub uninterp spec fn unsigned_values_at(der: Seq<u8>, index: usize) -> Result<
    Option<Seq<(Seq<u8>, Seq<Seq<u8>>)>>,
    Seq<char>,
>;

/// Reads the unsigned attributes of the signer at an index: `ContentInfo::from_der` and
/// `decode_as` for `SignedData`, both of the `cms` crate.
#[verifier::external_body]
fn read_unsigned_values_at(der: &[u8], index: usize) -> (r: Result<Option<Vec<(Vec<u8>, Vec<Vec<u8>>)>>, String>)
    ensures
        match r {
            Ok(a) => unsigned_values_at(der@, index) == Ok::<Option<Seq<(Seq<u8>, Seq<Seq<u8>>)>>, Seq<char>>(
                opt_valued(a),
            ),
            Err(t) => unsigned_values_at(der@, index) == Err::<Option<Seq<(Seq<u8>, Seq<Seq<u8>>)>>, Seq<char>>(t@),
        },
{
    let sd = ContentInfo::from_der(der).and_then(|c| c.content.decode_as::<SignedData>()).map_err(|e| e.to_string())?;
    let attrs = sd.signer_infos.0.get(index).and_then(|si| si.unsigned_attrs.as_ref());
    let pair = |a: &x509_cert::attr::Attribute| -> der::Result<(Vec<u8>, Vec<Vec<u8>>)> {
        Ok((a.oid.as_bytes().to_vec(), a.values.iter().map(Encode::to_der).collect::<der::Result<_>>()?))
    };
    attrs.map(|v| v.iter().map(pair).collect()).transpose().map_err(|e: der::Error| e.to_string())
}

/// The unsigned attributes of the first signer in the bytes, where it has any: type
/// and first value of each; or why the bytes hold no signed data.
pub open spec fn cms_unsigned_attributes(der: Seq<u8>) -> Result<
    Option<Seq<(Seq<u8>, Option<Seq<u8>>)>>,
    Seq<char>,
> {
    firsts_read(unsigned_values_at(der, 0))
}

/// Reads the unsigned attributes of the first signer.
fn read_unsigned_attributes(der: &[u8]) -> (r: Result<Option<Vec<(Vec<u8>, Option<Vec<u8>>)>>, String>)
    ensures
        match r {
            Ok(a) => cms_unsigned_attributes(der@) == Ok::<Option<Seq<(Seq<u8>, Option<Seq<u8>>)>>, Seq<char>>(
                opt_attribute_list(a),
            ),
            Err(t) => cms_unsigned_attributes(der@) == Err::<Option<Seq<(Seq<u8>, Option<Seq<u8>>)>>, Seq<char>>(t@),
        },
{
    match read_unsigned_values_at(der, 0) {
        Err(t) => Err(t),
        Ok(None) => Ok(None),
        Ok(Some(l)) => Ok(Some(take_first_values(&l))),
    }
}

/// The view of an optional list of byte strings.
pub open spec fn opt_list(o: Option<Vec<Vec<u8>>>) -> Option<Seq<Seq<u8>>> {
    match o {
        Some(v) => Some(blobs(v@)),
        None => None,
    }
}

/// The views of the entries of a certificate set.
pub open spec fn choice_views(v: Seq<Option<Vec<u8>>>) -> Seq<Option<Seq<u8>>> {
    Seq::new(v.len(), |i: int| opt_bytes(v[i]))
}

/// The view of an optional certificate set.
pub open spec fn opt_choices(o: Option<Vec<Option<Vec<u8>>>>) -> Option<Seq<Option<Seq<u8>>>> {
    match o {
        Some(v) => Some(choice_views(v@)),
        None => None,
    }
}

/// The certificate set of the signed data in the bytes, where it has one: the DER of each
/// X.509 certificate, and nothing for a certificate of another format; or why the bytes
/// hold no signed data.
pub uninterp spec fn cms_choices(der: Seq<u8>) -> Result<Option<Seq<Option<Seq<u8>>>>, Seq<char>>;

/// Reads the certificate set of signed data: `ContentInfo::from_der` and `decode_as` for
/// `SignedData`, both of the `cms` crate, with one entry for each `CertificateChoices`.
#[verifier::external_body]
fn read_choices(der: &[u8]) -> (r: Result<Option<Vec<Option<Vec<u8>>>>, String>)
    ensures
        match r {
            Ok(c) => cms_choices(der@) == Ok::<Option<Seq<Option<Seq<u8>>>>, Seq<char>>(opt_choices(c)),
            Err(t) => cms_choices(der@) == Err::<Option<Seq<Option<Seq<u8>>>>, Seq<char>>(t@),
        },
{
    let one = |c: &CertificateChoices| -> der::Result<Option<Vec<u8>>> {
        match c {
            CertificateChoices::Certificate(c) => c.to_der().map(Some),
            CertificateChoices::Other(_) => Ok(None),
        }
    };
    let sd = ContentInfo::from_der(der).and_then(|c| c.content.decode_as::<SignedData>()).map_err(|e| e.to_string())?;
    sd.certificates.map(|set| set.0.iter().map(one).collect()).transpose().map_err(|e: der::Error| e.to_string())
}

/// The X.509 certificates of a certificate set; those of other formats are left out.
pub open spec fn plain_certificates(choices: Seq<Option<Seq<u8>>>) -> Seq<Seq<u8>>
    decreases choices.len(),
{
    if choices.len() == 0 {
        Seq::empty()
    } else {
        match choices.last() {
            Some(der) => plain_certificates(choices.drop_last()).push(der),
            None => plain_certificates(choices.drop_last()),
        }
    }
}

/// The X.509 certificates of the signed data in the bytes in DER, where it has a
/// certificate set, or why the bytes hold no signed data.
pub open spec fn cms_certificates(der: Seq<u8>) -> Result<Option<Seq<Seq<u8>>>, Seq<char>> {
    match cms_choices(der) {
        Err(t) => Err(t),
        Ok(None) => Ok(None),
        Ok(Some(choices)) => Ok(Some(plain_certificates(choices))),
    }
}

/// Takes the X.509 certificates out of a certificate set.
pub fn select_certificates(choices: Vec<Option<Vec<u8>>>) -> (r: Vec<Vec<u8>>)
    ensures
        blobs(r@) == plain_certificates(choice_views(choices@)),
{
    let ghost v = choice_views(choices@);
    let mut out: Vec<Vec<u8>> = Vec::new();
    let mut i: usize = 0;
    proof {
        assert(v.take(0) =~= Seq::empty());
        assert(blobs(out@) =~= Seq::empty());
    }
    while i < choices.len()
        invariant
            i <= choices.len(),
            v == choice_views(choices@),
            blobs(out@) == plain_certificates(v.take(i as int)),
        decreases choices.len() - i,
    {
        proof {
            let t = v.take(i + 1);
            assert(t.drop_last() =~= v.take(i as int));
            assert(t.last() == opt_bytes(choices@[i as int]));
        }
        if let Some(der) = &choices[i] {
            let ghost before = blobs(out@);
            out.push(to_vec(der));
            assert(blobs(out@) =~= before.push(der@));
        }
        i += 1;
    }
    assert(v.take(i as int) =~= v);
    out
}

/// Reads the X.509 certificates of signed data.
pub fn read_certificates(der: &[u8]) -> (r: Result<Option<Vec<Vec<u8>>>, String>)
    ensures
        match r {
            Ok(c) => cms_certificates(der@) == Ok::<Option<Seq<Seq<u8>>>, Seq<char>>(opt_list(c)),
            Err(t) => cms_certificates(der@) == Err::<Option<Seq<Seq<u8>>>, Seq<char>>(t@),
        },
{
    match read_choices(der) {
        Err(t) => Err(t),
        Ok(None) => Ok(None),
        Ok(Some(choices)) => Ok(Some(select_certificates(choices))),
    }
}

/// The octets of the octet string in the bytes, or why they hold none.
pub uninterp spec fn octets_of(der: Seq<u8>) -> Result<Seq<u8>, Seq<char>>;

/// Reads an octet string: `der::Any::from_der` and `decode_as` for `OctetString`.
#[verifier::external_body]
pub(crate) fn read_octets(der: &[u8]) -> (r: Result<Vec<u8>, String>)
    ensures
        match r {
            Ok(b) => octets_of(der@) == Ok::<Seq<u8>, Seq<char>>(b@),
            Err(t) => octets_of(der@) == Err::<Seq<u8>, Seq<char>>(t@),
        },
{
    let octets = der::Any::from_der(der).and_then(|a| a.decode_as::<der::asn1::OctetString>());
    octets.map(|o| o.as_bytes().to_vec()).map_err(|e| e.to_string())
}

/// Whether the bytes hold a content info, or why they do not.
pub uninterp spec fn content_info(der: Seq<u8>) -> Result<(), Seq<char>>;

/// Checks that the bytes hold a content info: `cms::content_info::ContentInfo::from_der`.
#[verifier::external_body]
pub(crate) fn check_content_info(der: &[u8]) -> (r: Result<(), String>)
    ensures
        match r {
            Ok(_) => content_info(der@) == Ok::<(), Seq<char>>(()),
            Err(t) => content_info(der@) == Err::<(), Seq<char>>(t@),
        },
{
    ContentInfo::from_der(der).map(|_| ()).map_err(|e| e.to_string())
}

/// The value of an attribute, read as an octet string.
pub open spec fn octet_value(value: Option<Seq<u8>>) -> ValueView {
    match value {
        None => ValueView::Missing,
        Some(der) => match octets_of(der) {
            Ok(b) => ValueView::Octets(b),
            Err(t) => ValueView::Malformed(t),
        },
    }
}

/// The `messageDigest` attributes of a list.
pub open spec fn digests_among(list: Seq<(Seq<u8>, Option<Seq<u8>>)>) -> Seq<ValueView>
    decreases list.len(),
{
    if list.len() == 0 {
        Seq::empty()
    } else {
        let r = digests_among(list.drop_last());
        if list.last().0 == message_digest_oid() {
            r.push(octet_value(list.last().1))
        } else {
            r
        }
    }
}

/// The signed data in the bytes, or why they hold none.
pub open spec fn cms_of(der: Seq<u8>) -> Result<CmsView, Seq<char>> {
    match cms_signer(der) {
        Err(t) => Err(t),
        Ok(signer) => match cms_signed_attributes(der) {
            Err(t) => Err(t),
            Ok(attrs) => match cms_certificates(der) {
                Err(t) => Err(t),
                Ok(list) => {
                    let signed = match attrs {
                        Some((d, l)) => Some(AttributesView { der: d, digests: digests_among(l) }),
                        None => None,
                    };
                    match list {
                        None => Ok(CmsView { signer, signed, certs: None }),
                        Some(ders) => match all_certificates(ders) {
                            Err(t) => Err(t),
                            Ok(c) => Ok(CmsView { signer, signed, certs: Some(c) }),
                        },
                    }
                },
            },
        },
    }
}

fn message_digests(list: &Vec<(Vec<u8>, Option<Vec<u8>>)>) -> (r: Vec<AttributeValue>)
    ensures
        value_views(r@) == digests_among(attribute_views(list@)),
{
    let mut out: Vec<AttributeValue> = Vec::new();
    let ghost v = attribute_views(list@);
    let mut i: usize = 0;
    proof {
        assert(v.take(0) =~= Seq::empty());
        assert(value_views(out@) =~= Seq::empty());
    }
    while i < list.len()
        invariant
            i <= list.len(),
            v == attribute_views(list@),
            value_views(out@) == digests_among(v.take(i as int)),
        decreases list.len() - i,
    {
        proof {
            let t = v.take(i + 1);
            assert(t.drop_last() =~= v.take(i as int));
            assert(t.last() == (list@[i as int].0@, opt_bytes(list@[i as int].1)));
        }
        if is_message_digest(&list[i].0) {
            let value: AttributeValue = match &list[i].1 {
                None => AttributeValue::Missing,
                Some(d) => match read_octets(d) {
                    Ok(b) => AttributeValue::Octets(b),
                    Err(t) => AttributeValue::Malformed(t),
                },
            };
            let ghost before = value_views(out@);
            let ghost x = value@;
            out.push(value);
            assert(value_views(out@) =~= before.push(x));
        }
        i += 1;
    }
    assert(v.take(i as int) =~= v);
    out
}

impl Cms {
    /// Reads signed data, or says why the bytes hold none.
    pub fn from_der(der: &[u8]) -> (r: Result<Cms, String>)
        ensures
            match cms_of(der@) {
                Ok(c) => r is Ok && r->Ok_0@ == c,
                Err(t) => r is Err && r->Err_0@ == t,
            },
    {
        let signer: Option<SignerHead> = match read_signer(der) {
            Err(t) => {
                return Err(t);
            },
            Ok(s) => s,
        };
        let signed: Option<SignedAttributes> = match read_signed_attributes(der) {
            Err(t) => {
                return Err(t);
            },
            Ok(None) => None,
            Ok(Some((d, list))) => Some(SignedAttributes { digests: message_digests(&list), der: d }),
        };
        match read_certificates(der) {
            Err(t) => Err(t),
            Ok(None) => Ok(Cms { signer, signed, certs: None }),
            Ok(Some(ders)) => match read_all(&ders) {
                Err(t) => Err(t),
                Ok(c) => Ok(Cms { signer, signed, certs: Some(c) }),
            },
        }
    }
}

// ---------------------------------------------------------------------------
// Verification

/// The digest of the data under the algorithm `oid`.
pub open spec fn digest_of(oid: Seq<u8>, data: Seq<u8>) -> Result<Seq<u8>, ErrorView> {
    if oid == sha256_oid() {
        Ok(sha256(data))
    } else if oid == sha384_oid() {
        Ok(sha384(data))
    } else if oid == sha512_oid() {
        Ok(sha512(data))
    } else {
        Err(ErrorView::Verification("unsupported digest algorithm"@))
    }
}

/// Hash `data` with the digest named by `oid` (SHA-256/384/512).
pub fn digest_data(oid: &[u8], data: &[u8]) -> (r: Result<Vec<u8>, Error>)
    ensures
        crate::error::bytes_result(r) == digest_of(oid@, data@),
{
    if is_sha256(oid) {
        Ok(sha256_digest(data))
    } else if is_sha384(oid) {
        Ok(sha384_digest(data))
    } else if is_sha512(oid) {
        Ok(sha512_digest(data))
    } else {
        Err(unverified("unsupported digest algorithm"))
    }
}

/// The first certificate of a list with the given issuer and serial number.
pub open spec fn cert_index(certs: Seq<CertView>, issuer: Seq<u8>, serial: Seq<u8>, i: int) -> Option<int>
    decreases certs.len() - i,
{
    if i < 0 || i >= certs.len() {
        None
    } else if certs[i].core.issuer == issuer && certs[i].core.serial == serial {
        Some(i)
    } else {
        cert_index(certs, issuer, serial, i + 1)
    }
}

/// The index of the signer's certificate.
pub open spec fn signer_index(head: HeadView, certs: Option<Seq<CertView>>) -> Result<int, ErrorView> {
    match head.issuer_and_serial {
        None => Err(ErrorView::Verification("SubjectKeyIdentifier signer id not supported"@)),
        Some((issuer, serial)) => match certs {
            None => Err(ErrorView::Verification("no certificates embedded"@)),
            Some(list) => match cert_index(list, issuer, serial, 0) {
                None => Err(ErrorView::Verification("signer certificate not found in CMS"@)),
                Some(i) => Ok(i),
            },
        },
    }
}

/// Finds the signer's certificate by issuer and serial number.
pub fn find_signer_cert(head: &SignerHead, certs: &Option<Vec<Certificate>>) -> (r: Result<usize, Error>)
    ensures
        match signer_index(head@, opt_certs(*certs)) {
            Ok(i) => r is Ok && r->Ok_0 == i && certs is Some && 0 <= i < certs->0@.len(),
            Err(e) => r is Err && r->Err_0@ == e,
        },
{
    match &head.issuer_and_serial {
        None => Err(unverified("SubjectKeyIdentifier signer id not supported")),
        Some((issuer, serial)) => match certs {
            None => Err(unverified("no certificates embedded")),
            Some(list) => {
                let mut i: usize = 0;
                while i < list.len()
                    invariant
                        i <= list.len(),
                        head@.issuer_and_serial == Some((issuer@, serial@)),
                        *certs == Some(*list),
                        cert_index(cert_views(list@), issuer@, serial@, 0) == cert_index(
                            cert_views(list@),
                            issuer@,
                            serial@,
                            i as int,
                        ),
                    decreases list.len() - i,
                {
                    assert(cert_views(list@)[i as int] == list@[i as int]@);
                    if bytes_eq(&list[i].core.issuer, issuer) && bytes_eq(&list[i].core.serial, serial) {
                        return Ok(i);
                    }
                    i += 1;
                }
                Err(unverified("signer certificate not found in CMS"))
            },
        },
    }
}

/// The last of the digest attributes, none of which may be without a value or
/// malformed.
pub open spec fn found_digest(digests: Seq<ValueView>) -> Result<Option<Seq<u8>>, ErrorView>
    decreases digests.len(),
{
    if digests.len() == 0 {
        Ok(None)
    } else {
        match found_digest(digests.drop_last()) {
            Err(e) => Err(e),
            Ok(_) => match digests.last() {
                ValueView::Missing => Err(ErrorView::Verification("empty messageDigest"@)),
                ValueView::Malformed(t) => Err(ErrorView::Crypto(t)),
                ValueView::Octets(b) => Ok(Some(b)),
            },
        }
    }
}

/// Whether a signature over the signed attributes holds under the key of `cert`:
/// RSA over SHA-256, ECDSA or Ed25519, according to the key.
pub open spec fn attributes_signed(cert: CertView, msg: Seq<u8>, sig: Seq<u8>) -> Result<bool, ErrorView> {
    if cert.core.key_oid == rsa_encryption_oid() {
        match rsa_sha256_holds(cert.core.spki, msg, sig) {
            Ok(b) => Ok(b),
            Err(t) => Err(ErrorView::Crypto(t)),
        }
    } else if cert.core.key_oid == ec_public_key_oid() {
        Ok(ecdsa_holds(cert.core.spki, msg, sig))
    } else if cert.core.key_oid == ed25519_oid() {
        Ok(ed25519_holds(cert.core.spki, msg, sig) == Some(true))
    } else {
        Err(ErrorView::Verification("unsupported signer key algorithm"@))
    }
}

/// Signed data holds over the data: the digest in the signed attributes is that of
/// the data, and the signer's signature over the signed attributes holds. The
/// result is the subject of the signer's certificate.
pub open spec fn cms_verdict(c: CmsView, data: Seq<u8>) -> Result<Seq<char>, ErrorView> {
    match c.signer {
        None => Err(ErrorView::Verification("no SignerInfo present"@)),
        Some(head) => match c.signed {
            None => Err(ErrorView::Verification("signer has no signed attributes"@)),
            Some(attrs) => match digest_of(head.digest_oid, data) {
                Err(e) => Err(e),
                Ok(want) => match found_digest(attrs.digests) {
                    Err(e) => Err(e),
                    Ok(None) => Err(ErrorView::Verification("no messageDigest attribute"@)),
                    Ok(Some(d)) => if d != want {
                        Err(ErrorView::Verification("messageDigest mismatch"@))
                    } else {
                        match signer_index(head, c.certs) {
                            Err(e) => Err(e),
                            Ok(i) => {
                                let cert = c.certs->0[i];
                                match attributes_signed(cert, attrs.der, head.signature) {
                                    Err(e) => Err(e),
                                    Ok(false) => Err(ErrorView::Verification("signature invalid"@)),
                                    Ok(true) => Ok(cert.subject.text),
                                }
                            },
                        }
                    },
                },
            },
        },
    }
}

/// The view of a result that carries text.
pub open spec fn text_result(r: Result<String, Error>) -> Result<Seq<char>, ErrorView> {
    match r {
        Ok(s) => Ok(s@),
        Err(e) => Err(e@),
    }
}

proof fn lemma_digest_err(v: Seq<ValueView>, i: int)
    requires
        0 <= i <= v.len(),
        found_digest(v.take(i)) is Err,
    ensures
        found_digest(v) is Err,
        found_digest(v)->Err_0 == found_digest(v.take(i))->Err_0,
    decreases v.len() - i,
{
    if i < v.len() {
        assert(v.take(i + 1).drop_last() =~= v.take(i));
        lemma_digest_err(v, i + 1);
    } else {
        assert(v.take(i) =~= v);
    }
}

fn find_digest(digests: &Vec<AttributeValue>) -> (r: Result<Option<Vec<u8>>, Error>)
    ensures
        match found_digest(value_views(digests@)) {
            Ok(d) => r is Ok && opt_bytes(r->Ok_0) == d,
            Err(e) => r is Err && r->Err_0@ == e,
        },
{
    let ghost v = value_views(digests@);
    let mut found: Option<Vec<u8>> = None;
    let mut i: usize = 0;
    assert(v.take(0) =~= Seq::empty());
    while i < digests.len()
        invariant
            i <= digests.len(),
            v == value_views(digests@),
            found_digest(v.take(i as int)) == Ok::<Option<Seq<u8>>, ErrorView>(opt_bytes(found)),
        decreases digests.len() - i,
    {
        proof {
            let t = v.take(i + 1);
            assert(t.drop_last() =~= v.take(i as int));
            assert(t.last() == digests@[i as int]@);
        }
        match &digests[i] {
            AttributeValue::Missing => {
                proof {
                    lemma_digest_err(v, i + 1);
                }
                return Err(unverified("empty messageDigest"));
            },
            AttributeValue::Malformed(t) => {
                proof {
                    lemma_digest_err(v, i + 1);
                }
                return Err(Error::Crypto(t.clone()));
            },
            AttributeValue::Octets(b) => {
                found = Some(to_vec(b));
            },
        }
        i += 1;
    }
    assert(v.take(i as int) =~= v);
    Ok(found)
}

/// Verify that signed data holds over `data`. Does **not** validate the
/// certificate chain / trust.
pub fn verify_signed_data(c: &Cms, data: &[u8]) -> (r: Result<String, Error>)
    ensures
        text_result(r) == cms_verdict(c@, data@),
{
    let head: &SignerHead = match &c.signer {
        None => {
            return Err(unverified("no SignerInfo present"));
        },
        Some(h) => h,
    };
    let attrs: &SignedAttributes = match &c.signed {
        None => {
            return Err(unverified("signer has no signed attributes"));
        },
        Some(a) => a,
    };
    let want: Vec<u8> = match digest_data(&head.digest_oid, data) {
        Err(e) => {
            return Err(e);
        },
        Ok(d) => d,
    };
    match find_digest(&attrs.digests) {
        Err(e) => {
            return Err(e);
        },
        Ok(None) => {
            return Err(unverified("no messageDigest attribute"));
        },
        Ok(Some(d)) => {
            if !bytes_eq(&d, &want) {
                return Err(unverified("messageDigest mismatch"));
            }
        },
    }
    let i: usize = match find_signer_cert(head, &c.certs) {
        Err(e) => {
            return Err(e);
        },
        Ok(i) => i,
    };
    match &c.certs {
        None => Err(unverified("no certificates embedded")),
        Some(list) => {
            let cert: &Certificate = &list[i];
            assert(cert_views(list@)[i as int] == cert@);
            let spki: &Vec<u8> = &cert.core.spki;
            let holds: bool = if is_rsa_encryption(&cert.core.key_oid) {
                match verify_rsa_sha256(spki, &attrs.der, &head.signature) {
                    Err(t) => {
                        return Err(Error::Crypto(t));
                    },
                    Ok(b) => b,
                }
            } else if is_ec_public_key(&cert.core.key_oid) {
                verify_ecdsa(spki, &attrs.der, &head.signature)
            } else if is_ed25519(&cert.core.key_oid) {
                verify_ed25519(spki, &attrs.der, &head.signature)
            } else {
                return Err(unverified("unsupported signer key algorithm"));
            };
            if !holds {
                return Err(unverified("signature invalid"));
            }
            Ok(cert.subject.text.clone())
        },
    }
}

/// The verdict on a detached CMS, given in DER, over the data.
pub open spec fn detached_verdict(der: Seq<u8>, data: Seq<u8>) -> Result<Seq<char>, ErrorView> {
    match cms_of(der) {
        Err(t) => Err(ErrorView::Crypto(t)),
        Ok(c) => cms_verdict(c, data),
    }
}

/// Verify a detached CMS `der` (a ContentInfo) against `data`, and return the
/// subject of the signer's certificate.
///
/// Checks that the embedded `messageDigest` attribute matches the digest of `data`
/// and that the signer's signature over the signed attributes is valid.
/// Does **not** validate the certificate chain / trust.
pub fn cms_verify(der: &[u8], data: &[u8]) -> (r: Result<String, Error>)
    ensures
        text_result(r) == detached_verdict(der@, data@),
{
    match Cms::from_der(der) {
        Err(t) => Err(Error::Crypto(t)),
        Ok(c) => verify_signed_data(&c, data),
    }
}

/// The signer's certificate and all certificates of signed data.
pub open spec fn signer_and_pool(c: CmsView) -> Result<(CertView, Seq<CertView>), ErrorView> {
    match c.signer {
        None => Err(ErrorView::Verification("no SignerInfo present"@)),
        Some(head) => match signer_index(head, c.certs) {
            Err(e) => Err(e),
            Ok(i) => Ok((c.certs->0[i], c.certs->0)),
        },
    }
}

/// Extract the index of the signer certificate (matched by SignerIdentifier) among
/// the certificates embedded in a signature CMS, for chain validation.
pub fn signer_certificate_and_pool(c: &Cms) -> (r: Result<(usize, &Vec<Certificate>), Error>)
    ensures
        match signer_and_pool(c@) {
            Ok((leaf, pool)) => r matches Ok((i, v)) && i < v@.len() && v@[i as int]@ == leaf && cert_views(v@) == pool,
            Err(e) => r is Err && r->Err_0@ == e,
        },
{
    match &c.signer {
        None => Err(unverified("no SignerInfo present")),
        Some(head) => match find_signer_cert(head, &c.certs) {
            Err(e) => Err(e),
            Ok(i) => match &c.certs {
                None => Err(unverified("no certificates embedded")),
                Some(list) => {
                    assert(cert_views(list@)[i as int] == list@[i as int]@);
                    Ok((i, list))
                },
            },
        },
    }
}

// ---------------------------------------------------------------------------
// Signature timestamps

/// The first `id-aa-timeStampToken` attribute with a value, from index `i` on.
pub open spec fn token_among(list: Seq<(Seq<u8>, Option<Seq<u8>>)>, i: int) -> Option<Seq<u8>>
    decreases list.len() - i,
{
    if i < 0 || i >= list.len() {
        None
    } else if list[i].0 == time_stamp_token_oid() && list[i].1 is Some {
        list[i].1
    } else {
        token_among(list, i + 1)
    }
}

/// The timestamp token of a signature, where it has one.
pub open spec fn timestamp_token(cms: Seq<u8>) -> Result<Option<Seq<u8>>, ErrorView> {
    match cms_unsigned_attributes(cms) {
        Err(t) => Err(ErrorView::Crypto(t)),
        Ok(None) => Ok(None),
        Ok(Some(list)) => Ok(token_among(list, 0)),
    }
}

/// Return the DER of the `id-aa-timeStampToken` unsigned attribute, if present.
pub fn extract_timestamp_token(cms_der: &[u8]) -> (r: Result<Option<Vec<u8>>, Error>)
    ensures
        match timestamp_token(cms_der@) {
            Ok(t) => r is Ok && opt_bytes(r->Ok_0) == t,
            Err(e) => r is Err && r->Err_0@ == e,
        },
{
    match read_unsigned_attributes(cms_der) {
        Err(t) => Err(Error::Crypto(t)),
        Ok(None) => Ok(None),
        Ok(Some(list)) => {
            let ghost v = attribute_views(list@);
            let mut i: usize = 0;
            while i < list.len()
                invariant
                    i <= list.len(),
                    v == attribute_views(list@),
                    timestamp_token(cms_der@) == Ok::<Option<Seq<u8>>, ErrorView>(token_among(v, 0)),
                    token_among(v, 0) == token_among(v, i as int),
                decreases list.len() - i,
            {
                assert(v[i as int] == (list@[i as int].0@, opt_bytes(list@[i as int].1)));
                if is_time_stamp_token(&list[i].0) {
                    if let Some(value) = &list[i].1 {
                        return Ok(Some(to_vec(value)));
                    }
                }
                i += 1;
            }
            Ok(None)
        },
    }
}

} // verus!
