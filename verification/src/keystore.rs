//! What a PKCS#12 keystore holds: the certificates in its bags, and whether their issuers
//! lead to an end.
use cbc::cipher::block_padding::Pkcs7;
use cbc::cipher::{BlockDecryptMut, KeyIvInit};
use cms::content_info::ContentInfo;
use der::{Decode, Encode, Reader};
use p12_keystore::Certificate as P12Certificate;
use vstd::prelude::*;

use crate::certificate::opt_bytes;
use crate::der_reader::{read_value, value_at};
use crate::signed_data::{octets_of, read_octets, valued_views};
use crate::signer::data_oid;
use crate::text::chars_of;
use crate::util::{be_value, blobs, bytes_eq, occurs_at, to_vec};

verus! {

// ---------------------------------------------------------------------------
// Safes

/// The views of pairs of byte strings.
pub open spec fn pair_views(v: Seq<(Vec<u8>, Vec<u8>)>) -> Seq<(Seq<u8>, Seq<u8>)> {
    Seq::new(v.len(), |i: int| (v[i].0@, v[i].1@))
}

/// The safes in a keystore, each with its content type and its content in DER, where the
/// bytes hold a keystore.
pub uninterp spec fn pfx_safes(p12: Seq<u8>) -> Option<Seq<(Seq<u8>, Seq<u8>)>>;

/// Reads the safes of a keystore: `pkcs12::pfx::Pfx::from_der`, and the content infos in
/// the octets that it holds.
#[verifier::external_body]
fn read_safes(p12: &[u8]) -> (r: Option<Vec<(Vec<u8>, Vec<u8>)>>)
    ensures
        match r {
            Some(v) => pfx_safes(p12@) == Some(pair_views(v@)),
            None => pfx_safes(p12@) is None,
        },
{
    let pfx = pkcs12::pfx::Pfx::from_der(p12).ok()?;
    let octets = der::asn1::OctetString::from_der(&pfx.auth_safe.content.to_der().ok()?).ok()?;
    let safes = Vec::<ContentInfo>::from_der(octets.as_bytes()).ok()?;
    safes.iter().map(|s| Some((s.content_type.as_bytes().to_vec(), s.content.to_der().ok()?))).collect()
}

/// What an encrypted safe is: the identifier of its algorithm, the parameters in DER and
/// the encrypted bytes, where there are such.
#[derive(Debug)]
pub struct Sealed {
    pub oid: Vec<u8>,
    pub parameters: Option<Vec<u8>>,
    pub data: Option<Vec<u8>>,
}

/// An encrypted safe as a mathematical value.
pub struct SealedView {
    pub oid: Seq<u8>,
    pub parameters: Option<Seq<u8>>,
    pub data: Option<Seq<u8>>,
}

impl Sealed {
    pub open spec fn view(&self) -> SealedView {
        SealedView { oid: self.oid@, parameters: opt_bytes(self.parameters), data: opt_bytes(self.data) }
    }
}

/// The encrypted safe in the bytes, where they hold one.
pub uninterp spec fn sealed_safe(content: Seq<u8>) -> Option<SealedView>;

/// Reads an encrypted safe: `cms::encrypted_data::EncryptedData::from_der`.
#[verifier::external_body]
fn read_sealed(content: &[u8]) -> (r: Option<Sealed>)
    ensures
        match r {
            Some(v) => sealed_safe(content@) == Some(v@),
            None => sealed_safe(content@) is None,
        },
{
    let info = cms::encrypted_data::EncryptedData::from_der(content).ok()?.enc_content_info;
    let parameters = info.content_enc_alg.parameters.map(|p| p.to_der()).transpose().ok()?;
    let data = info.encrypted_content.map(|o| o.as_bytes().to_vec());
    Some(Sealed { oid: info.content_enc_alg.oid.as_bytes().to_vec(), parameters, data })
}

/// How much of memory, in blocks of 128 bytes, a key derivation by scrypt may take.
pub const MAX_BLOCKS: u64 = 0x40_0000;

/// The identifier of scrypt (1.3.6.1.4.1.11591.4.11) as a DER value.
pub open spec fn scrypt_mark() -> Seq<u8> {
    seq![0x06u8, 0x09u8, 0x2bu8, 0x06u8, 0x01u8, 0x04u8, 0x01u8, 0xdau8, 0x47u8, 0x04u8, 0x0bu8]
}

/// The number of at most four bytes at index `i`, and where it ends.
pub open spec fn number_at(s: Seq<u8>, i: int) -> Option<(nat, int)> {
    match value_at(s, i) {
        None => None,
        Some((tag, a, b)) => if tag != 0x02 || b - a > 4 {
            None
        } else {
            Some((be_value(s.subrange(a, b)), b))
        },
    }
}

/// The parameters of scrypt at index `i`: the cost, the block size and the
/// parallelization, which stand behind the salt.
pub open spec fn scrypt_numbers(s: Seq<u8>, i: int) -> Option<(nat, nat, nat)> {
    match value_at(s, i) {
        None => None,
        Some((tag, a, _)) => match value_at(s, a) {
            None => None,
            Some((_, _, salt_end)) => match number_at(s, salt_end) {
                None => None,
                Some((n, n_end)) => match number_at(s, n_end) {
                    None => None,
                    Some((r, r_end)) => match number_at(s, r_end) {
                        None => None,
                        Some((p, _)) => Some((n, r, p)),
                    },
                },
            },
        },
    }
}

/// The parameters of scrypt at index `i` can be worked with: the cost is no zero, and the
/// memory that it takes is bounded.
pub open spec fn scrypt_fits(s: Seq<u8>, i: int) -> bool {
    scrypt_numbers(s, i) matches Some((n, r, p)) && n > 0 && n * r <= MAX_BLOCKS && r * p <= MAX_BLOCKS
}

/// Wherever the bytes name scrypt, its parameters can be worked with.
pub open spec fn derivations_fit(s: Seq<u8>) -> bool {
    forall|i: int| #[trigger] occurs_at(s, scrypt_mark(), i) ==> scrypt_fits(s, i + 11)
}

fn read_number(s: &[u8], i: usize) -> (r: Option<(u32, usize)>)
    ensures
        match number_at(s@, i as int) {
            None => r is None,
            Some((v, e)) => r matches Some((n, end)) && n == v && end == e && end <= s.len(),
        },
{
    match read_value(s, i) {
        None => None,
        Some(v) => {
            if v.tag != 0x02 || v.end - v.start > 4 {
                return None;
            }
            let mut n: u64 = 0;
            let mut j: usize = v.start;
            while j < v.end
                invariant
                    v.start <= j <= v.end <= s.len(),
                    v.end - v.start <= 4,
                    n == be_value(s@.subrange(v.start as int, j as int)),
                    j - v.start == 0 ==> n == 0,
                    j - v.start == 1 ==> n < 0x100,
                    j - v.start == 2 ==> n < 0x1_0000,
                    j - v.start == 3 ==> n < 0x100_0000,
                    j - v.start == 4 ==> n < 0x1_0000_0000,
                decreases v.end - j,
            {
                assert(s@.subrange(v.start as int, j + 1).drop_last() =~= s@.subrange(v.start as int, j as int));
                n = n * 256 + s[j] as u64;
                j += 1;
            }
            Some((n as u32, v.end))
        },
    }
}

fn has_fitting_scrypt(s: &[u8], i: usize) -> (r: bool)
    ensures
        r == scrypt_fits(s@, i as int),
{
    let salt: usize = match read_value(s, i) {
        None => {
            return false;
        },
        Some(v) => v.start,
    };
    let first: usize = match read_value(s, salt) {
        None => {
            return false;
        },
        Some(v) => v.end,
    };
    match read_number(s, first) {
        None => false,
        Some((n, second)) => match read_number(s, second) {
            None => false,
            Some((r, third)) => match read_number(s, third) {
                None => false,
                Some((p, _)) => {
                    assert(n * r <= 0xffff_ffff * 0xffff_ffff && r * p <= 0xffff_ffff * 0xffff_ffff) by (nonlinear_arith)
                        requires
                            n <= 0xffff_ffff,
                            r <= 0xffff_ffff,
                            p <= 0xffff_ffff,
                    ;
                    n > 0 && n as u64 * r as u64 <= MAX_BLOCKS && r as u64 * p as u64 <= MAX_BLOCKS
                },
            },
        },
    }
}

/// Whether the parameters of scrypt can be worked with, wherever the bytes name it.
pub fn has_fitting_derivations(s: &[u8]) -> (r: bool)
    ensures
        r == derivations_fit(s@),
{
    let mark: [u8; 11] = [0x06, 0x09, 0x2b, 0x06, 0x01, 0x04, 0x01, 0xda, 0x47, 0x04, 0x0b];
    assert(mark@ =~= scrypt_mark());
    let total: usize = s.len();
    let mut i: usize = 0;
    while i < total
        invariant
            i <= total,
            total == s@.len(),
            mark@ == scrypt_mark(),
            forall|k: int| 0 <= k < i && #[trigger] occurs_at(s@, scrypt_mark(), k) ==> scrypt_fits(s@, k + 11),
        decreases total - i,
    {
        if total - i >= 11 && bytes_eq(&s[i..i + 11], &mark) {
            assert(occurs_at(s@, scrypt_mark(), i as int));
            if !has_fitting_scrypt(s, i + 11) {
                return false;
            }
        }
        i += 1;
    }
    true
}

/// The plain bytes of data encrypted by PBES2 under a password, where the parameters can
/// be read and the password fits.
pub uninterp spec fn pbes2_plain(parameters: Seq<u8>, password: Seq<char>, data: Seq<u8>) -> Option<Seq<u8>>;

/// Decrypts data: `pkcs5::pbes2::Parameters::decrypt`. A key derivation by scrypt must
/// have parameters that can be worked with.
#[verifier::external_body]
fn decrypt_pbes2(parameters: &[u8], password: &str, data: &[u8]) -> (r: Option<Vec<u8>>)
    requires
        derivations_fit(parameters@),
    ensures
        opt_bytes(r) == pbes2_plain(parameters@, password@, data@),
{
    pkcs5::pbes2::Parameters::from_der(parameters).ok()?.decrypt(password.as_bytes(), data).ok()
}

/// The salt and the number of iterations in parameters of PBES1, where they can be read.
pub uninterp spec fn pbes1_parameters(parameters: Seq<u8>) -> Option<(Seq<u8>, u64)>;

/// Reads parameters of PBES1: an octet string and a number in a sequence, by
/// `der::SliceReader`.
#[verifier::external_body]
fn read_pbes1(parameters: &[u8]) -> (r: Option<(Vec<u8>, u64)>)
    ensures
        match r {
            Some((salt, n)) => pbes1_parameters(parameters@) == Some((salt@, n)),
            None => pbes1_parameters(parameters@) is None,
        },
{
    let mut reader = der::SliceReader::new(parameters).ok()?;
    let fields = |r: &mut der::NestedReader<'_, _>| Ok((der::asn1::OctetString::decode(r)?, u64::decode(r)?));
    let (salt, iterations) = reader.sequence(fields).ok()?;
    Some((salt.as_bytes().to_vec(), iterations))
}

/// What a key derivation is for.
#[derive(Debug, Clone, Copy, PartialEq, Eq, Structural)]
pub enum Derived {
    Key,
    Iv,
}

/// The bytes that the key derivation of PKCS#12 with SHA-1 gives, where the password can
/// be written in its alphabet.
pub uninterp spec fn derived(
    password: Seq<char>,
    salt: Seq<u8>,
    iterations: u64,
    purpose: Derived,
    size: nat,
) -> Option<Seq<u8>>;

/// Derives a key of a few bytes: `pkcs12::kdf::derive_key_utf8` with SHA-1.
#[verifier::external_body]
fn derive_key(password: &str, salt: &[u8], iterations: u64, purpose: Derived, size: usize) -> (r: Option<Vec<u8>>)
    requires
        size <= 32,
    ensures
        opt_bytes(r) == derived(password@, salt@, iterations, purpose, size as nat),
{
    let purpose = match purpose {
        Derived::Key => pkcs12::kdf::Pkcs12KeyType::EncryptionKey,
        Derived::Iv => pkcs12::kdf::Pkcs12KeyType::Iv,
    };
    pkcs12::kdf::derive_key_utf8::<sha1::Sha1>(password, salt, purpose, iterations as i32, size).ok()
}

/// The plain bytes of data encrypted by triple DES in CBC mode, where the padding fits.
pub uninterp spec fn tdes_plain(key: Seq<u8>, iv: Seq<u8>, data: Seq<u8>) -> Option<Seq<u8>>;

/// Decrypts data: `cbc::Decryptor` with `des::TdesEde3`.
#[verifier::external_body]
fn decrypt_tdes(key: &[u8], iv: &[u8], data: &[u8]) -> (r: Option<Vec<u8>>)
    ensures
        opt_bytes(r) == tdes_plain(key@, iv@, data@),
{
    let cipher = cbc::Decryptor::<des::TdesEde3>::new_from_slices(key, iv).ok()?;
    cipher.decrypt_padded_vec_mut::<Pkcs7>(data).ok()
}

/// The plain bytes of data encrypted by RC2 in CBC mode, where the padding fits.
pub uninterp spec fn rc2_plain(key: Seq<u8>, iv: Seq<u8>, data: Seq<u8>) -> Option<Seq<u8>>;

/// Decrypts data: `cbc::Decryptor` with `rc2::Rc2`.
#[verifier::external_body]
fn decrypt_rc2(key: &[u8], iv: &[u8], data: &[u8]) -> (r: Option<Vec<u8>>)
    ensures
        opt_bytes(r) == rc2_plain(key@, iv@, data@),
{
    let cipher = cbc::Decryptor::<rc2::Rc2>::new_from_slices(key, iv).ok()?;
    cipher.decrypt_padded_vec_mut::<Pkcs7>(data).ok()
}

/// The content type `encryptedData` (1.2.840.113549.1.7.6).
pub open spec fn encrypted_data_oid() -> Seq<u8> {
    seq![0x2au8, 0x86u8, 0x48u8, 0x86u8, 0xf7u8, 0x0du8, 0x01u8, 0x07u8, 0x06u8]
}

/// The identifier of PBES2 (1.2.840.113549.1.5.13).
pub open spec fn pbes2_oid() -> Seq<u8> {
    seq![0x2au8, 0x86u8, 0x48u8, 0x86u8, 0xf7u8, 0x0du8, 0x01u8, 0x05u8, 0x0du8]
}

/// The identifier of PBE with SHA-1 and three-key triple DES (1.2.840.113549.1.12.1.3).
pub open spec fn pbe_tdes_oid() -> Seq<u8> {
    seq![0x2au8, 0x86u8, 0x48u8, 0x86u8, 0xf7u8, 0x0du8, 0x01u8, 0x0cu8, 0x01u8, 0x03u8]
}

/// The identifier of PBE with SHA-1 and RC2 of forty bits (1.2.840.113549.1.12.1.6).
pub open spec fn pbe_rc2_oid() -> Seq<u8> {
    seq![0x2au8, 0x86u8, 0x48u8, 0x86u8, 0xf7u8, 0x0du8, 0x01u8, 0x0cu8, 0x01u8, 0x06u8]
}

/// The plain bytes of data encrypted by PBES1, by triple DES or by RC2.
pub open spec fn pbes1_plain(tdes: bool, parameters: Seq<u8>, password: Seq<char>, data: Seq<u8>) -> Option<Seq<u8>> {
    match pbes1_parameters(parameters) {
        None => None,
        Some((salt, n)) => {
            let size: nat = if tdes { 24 } else { 5 };
            match (derived(password, salt, n, Derived::Key, size), derived(password, salt, n, Derived::Iv, 8)) {
                (Some(key), Some(iv)) => if tdes {
                    tdes_plain(key, iv, data)
                } else {
                    rc2_plain(key, iv, data)
                },
                _ => None,
            }
        },
    }
}

fn decrypt_pbes1(tdes: bool, parameters: &[u8], password: &str, data: &[u8]) -> (r: Option<Vec<u8>>)
    ensures
        opt_bytes(r) == pbes1_plain(tdes, parameters@, password@, data@),
{
    match read_pbes1(parameters) {
        None => None,
        Some((salt, n)) => {
            let size: usize = if tdes { 24 } else { 5 };
            match (
                derive_key(password, &salt, n, Derived::Key, size),
                derive_key(password, &salt, n, Derived::Iv, 8),
            ) {
                (Some(key), Some(iv)) => if tdes {
                    decrypt_tdes(&key, &iv, data)
                } else {
                    decrypt_rc2(&key, &iv, data)
                },
                _ => None,
            }
        },
    }
}

/// The plain bytes of an encrypted safe.
pub open spec fn unsealed(s: SealedView, password: Seq<char>) -> Option<Seq<u8>> {
    match (s.data, s.parameters) {
        (None, _) => Some(Seq::empty()),
        (Some(_), None) => None,
        (Some(data), Some(parameters)) => if s.oid == pbes2_oid() {
            if derivations_fit(parameters) {
                pbes2_plain(parameters, password, data)
            } else {
                None
            }
        } else if s.oid == pbe_tdes_oid() {
            pbes1_plain(true, parameters, password, data)
        } else if s.oid == pbe_rc2_oid() {
            pbes1_plain(false, parameters, password, data)
        } else {
            None
        },
    }
}

fn unseal(s: &Sealed, password: &str) -> (r: Option<Vec<u8>>)
    ensures
        opt_bytes(r) == unsealed(s@, password@),
{
    let pbes2: [u8; 9] = [0x2a, 0x86, 0x48, 0x86, 0xf7, 0x0d, 0x01, 0x05, 0x0d];
    let tdes: [u8; 10] = [0x2a, 0x86, 0x48, 0x86, 0xf7, 0x0d, 0x01, 0x0c, 0x01, 0x03];
    let rc2: [u8; 10] = [0x2a, 0x86, 0x48, 0x86, 0xf7, 0x0d, 0x01, 0x0c, 0x01, 0x06];
    assert(pbes2@ =~= pbes2_oid());
    assert(tdes@ =~= pbe_tdes_oid());
    assert(rc2@ =~= pbe_rc2_oid());
    match (&s.data, &s.parameters) {
        (None, _) => {
            let empty: Vec<u8> = Vec::new();
            assert(empty@ =~= Seq::empty());
            Some(empty)
        },
        (Some(_), None) => None,
        (Some(data), Some(parameters)) => if bytes_eq(&s.oid, &pbes2) {
            if has_fitting_derivations(parameters) {
                decrypt_pbes2(parameters, password, data)
            } else {
                None
            }
        } else if bytes_eq(&s.oid, &tdes) {
            decrypt_pbes1(true, parameters, password, data)
        } else if bytes_eq(&s.oid, &rc2) {
            decrypt_pbes1(false, parameters, password, data)
        } else {
            None
        },
    }
}

/// The bags in a safe, in DER, under a password.
pub open spec fn safe_bytes(kind: Seq<u8>, content: Seq<u8>, password: Seq<char>) -> Option<Seq<u8>> {
    if kind == data_oid() {
        match octets_of(content) {
            Ok(b) => Some(b),
            Err(_) => None,
        }
    } else if kind == encrypted_data_oid() {
        match sealed_safe(content) {
            None => None,
            Some(s) => unsealed(s, password),
        }
    } else {
        None
    }
}

fn open_safe(kind: &[u8], content: &[u8], password: &str) -> (r: Option<Vec<u8>>)
    ensures
        opt_bytes(r) == safe_bytes(kind@, content@, password@),
{
    let data: [u8; 9] = [0x2a, 0x86, 0x48, 0x86, 0xf7, 0x0d, 0x01, 0x07, 0x01];
    let sealed: [u8; 9] = [0x2a, 0x86, 0x48, 0x86, 0xf7, 0x0d, 0x01, 0x07, 0x06];
    assert(data@ =~= data_oid());
    assert(sealed@ =~= encrypted_data_oid());
    if bytes_eq(kind, &data) {
        match read_octets(content) {
            Ok(b) => Some(b),
            Err(_) => None,
        }
    } else if bytes_eq(kind, &sealed) {
        match read_sealed(content) {
            None => None,
            Some(s) => unseal(&s, password),
        }
    } else {
        None
    }
}

// ---------------------------------------------------------------------------
// Bags

/// A bag: its kind, its value in DER, and its attributes, each with its values in DER.
#[derive(Debug)]
pub struct Bag {
    pub kind: Vec<u8>,
    pub value: Vec<u8>,
    pub attributes: Vec<(Vec<u8>, Vec<Vec<u8>>)>,
}

/// A bag as a mathematical value.
pub struct BagView {
    pub kind: Seq<u8>,
    pub value: Seq<u8>,
    pub attributes: Seq<(Seq<u8>, Seq<Seq<u8>>)>,
}

impl Bag {
    pub open spec fn view(&self) -> BagView {
        BagView { kind: self.kind@, value: self.value@, attributes: valued_views(self.attributes@) }
    }
}

/// The views of bags.
pub open spec fn bag_views(v: Seq<Bag>) -> Seq<BagView> {
    Seq::new(v.len(), |i: int| v[i]@)
}

/// The bags in the bytes, where they hold such.
pub uninterp spec fn bags_in(contents: Seq<u8>) -> Option<Seq<BagView>>;

/// Reads bags: `pkcs12::safe_bag::SafeContents::from_der`.
#[verifier::external_body]
fn read_bags(contents: &[u8]) -> (r: Option<Vec<Bag>>)
    ensures
        match r {
            Some(v) => bags_in(contents@) == Some(bag_views(v@)),
            None => bags_in(contents@) is None,
        },
{
    let bags = pkcs12::safe_bag::SafeContents::from_der(contents).ok()?;
    let ders = |a: &x509_cert::attr::Attribute| {
        Some((a.oid.as_bytes().to_vec(), a.values.iter().map(|v| v.to_der().ok()).collect::<Option<Vec<_>>>()?))
    };
    bags.into_iter().map(|b| {
        let attributes = b.bag_attributes.iter().flat_map(|s| s.iter()).map(ders).collect::<Option<Vec<_>>>()?;
        Some(Bag { kind: b.bag_id.as_bytes().to_vec(), value: b.bag_value, attributes })
    }).collect()
}

/// The type of the certificate in the value of a bag, and the certificate, where the value
/// holds one.
pub uninterp spec fn cert_in_bag(value: Seq<u8>) -> Option<(Seq<u8>, Seq<u8>)>;

/// Reads the certificate in the value of a bag: `der::asn1::ContextSpecific::from_der` for
/// `pkcs12::cert_type::CertBag`.
#[verifier::external_body]
fn read_cert_bag(value: &[u8]) -> (r: Option<(Vec<u8>, Vec<u8>)>)
    ensures
        match r {
            Some((t, c)) => cert_in_bag(value@) == Some((t@, c@)),
            None => cert_in_bag(value@) is None,
        },
{
    let bag = der::asn1::ContextSpecific::<pkcs12::cert_type::CertBag>::from_der(value).ok()?.value;
    Some((bag.cert_id.as_bytes().to_vec(), bag.cert_value.as_bytes().to_vec()))
}

/// The subject and the issuer of a certificate as the keystore compares them, where it can
/// be read.
pub uninterp spec fn store_names(cert: Seq<u8>) -> Option<(Seq<char>, Seq<char>)>;

/// Reads the names of a certificate: `p12_keystore::Certificate::from_der`.
#[verifier::external_body]
fn read_names(cert: &[u8]) -> (r: Option<(String, String)>)
    ensures
        match r {
            Some((s, i)) => store_names(cert@) == Some((s@, i@)),
            None => store_names(cert@) is None,
        },
{
    let cert = P12Certificate::from_der(cert).ok()?;
    Some((cert.subject().to_owned(), cert.issuer().to_owned()))
}

/// A certificate in a keystore: its names, the identifier of its key where it has one, and
/// whether it is marked as trusted.
#[derive(Debug)]
pub struct Held {
    pub subject: String,
    pub issuer: String,
    pub key_id: Option<Vec<u8>>,
    pub trusted: bool,
}

/// A certificate in a keystore as a mathematical value.
pub struct HeldView {
    pub subject: Seq<char>,
    pub issuer: Seq<char>,
    pub key_id: Option<Seq<u8>>,
    pub trusted: bool,
}

impl Held {
    pub open spec fn view(&self) -> HeldView {
        HeldView {
            subject: self.subject@,
            issuer: self.issuer@,
            key_id: opt_bytes(self.key_id),
            trusted: self.trusted,
        }
    }
}

/// The views of certificates in a keystore.
pub open spec fn held_views(v: Seq<Held>) -> Seq<HeldView> {
    Seq::new(v.len(), |i: int| v[i]@)
}

/// The first value of the first attribute with the identifier that has values.
pub open spec fn attribute_value(a: Seq<(Seq<u8>, Seq<Seq<u8>>)>, oid: Seq<u8>, i: int) -> Option<Seq<u8>>
    decreases a.len() - i,
{
    if i < 0 || i >= a.len() {
        None
    } else if a[i].0 == oid && a[i].1.len() > 0 {
        Some(a[i].1[0])
    } else {
        attribute_value(a, oid, i + 1)
    }
}

fn find_attribute(a: &Vec<(Vec<u8>, Vec<Vec<u8>>)>, oid: &[u8]) -> (r: Option<Vec<u8>>)
    ensures
        opt_bytes(r) == attribute_value(valued_views(a@), oid@, 0),
{
    let mut i: usize = 0;
    while i < a.len()
        invariant
            i <= a.len(),
            attribute_value(valued_views(a@), oid@, 0) == attribute_value(valued_views(a@), oid@, i as int),
        decreases a.len() - i,
    {
        assert(valued_views(a@)[i as int] == (a@[i as int].0@, blobs(a@[i as int].1@)));
        if bytes_eq(&a[i].0, oid) && a[i].1.len() > 0 {
            assert(blobs(a@[i as int].1@)[0] == a@[i as int].1@[0]@);
            return Some(to_vec(&a[i].1[0]));
        }
        i += 1;
    }
    None
}

/// The attribute `localKeyId` (1.2.840.113549.1.9.21).
pub open spec fn local_key_oid() -> Seq<u8> {
    seq![0x2au8, 0x86u8, 0x48u8, 0x86u8, 0xf7u8, 0x0du8, 0x01u8, 0x09u8, 0x15u8]
}

/// The attribute that marks a certificate as trusted (2.16.840.1.113894.746875.1.1).
pub open spec fn trusted_usage_oid() -> Seq<u8> {
    seq![0x60u8, 0x86u8, 0x48u8, 0x01u8, 0x86u8, 0xf9u8, 0x66u8, 0xadu8, 0xcau8, 0x7bu8, 0x01u8, 0x01u8]
}

/// `anyExtendedKeyUsage` (2.5.29.37.0) in DER.
pub open spec fn any_usage_der() -> Seq<u8> {
    seq![0x06u8, 0x04u8, 0x55u8, 0x1du8, 0x25u8, 0x00u8]
}

/// A bag with an encrypted key (1.2.840.113549.1.12.10.1.2).
pub open spec fn key_bag_oid() -> Seq<u8> {
    seq![0x2au8, 0x86u8, 0x48u8, 0x86u8, 0xf7u8, 0x0du8, 0x01u8, 0x0cu8, 0x0au8, 0x01u8, 0x02u8]
}

/// A bag with a certificate (1.2.840.113549.1.12.10.1.3).
pub open spec fn cert_bag_oid() -> Seq<u8> {
    seq![0x2au8, 0x86u8, 0x48u8, 0x86u8, 0xf7u8, 0x0du8, 0x01u8, 0x0cu8, 0x0au8, 0x01u8, 0x03u8]
}

/// The identifier of the key that a bag is for.
pub open spec fn bag_key_id(b: BagView) -> Option<Seq<u8>> {
    match attribute_value(b.attributes, local_key_oid(), 0) {
        None => None,
        Some(v) => match octets_of(v) {
            Ok(id) => Some(id),
            Err(_) => None,
        },
    }
}

fn read_key_id(b: &Bag) -> (r: Option<Vec<u8>>)
    ensures
        opt_bytes(r) == bag_key_id(b@),
{
    let oid: [u8; 9] = [0x2a, 0x86, 0x48, 0x86, 0xf7, 0x0d, 0x01, 0x09, 0x15];
    assert(oid@ =~= local_key_oid());
    match find_attribute(&b.attributes, &oid) {
        None => None,
        Some(v) => match read_octets(&v) {
            Ok(id) => Some(id),
            Err(_) => None,
        },
    }
}

/// What a keystore holds: the identifiers of its keys, and its certificates.
pub struct Contents {
    pub keys: Vec<Vec<u8>>,
    pub certs: Vec<Held>,
}

/// What a keystore holds as a mathematical value.
pub struct ContentsView {
    pub keys: Seq<Seq<u8>>,
    pub certs: Seq<HeldView>,
}

impl Contents {
    pub open spec fn view(&self) -> ContentsView {
        ContentsView { keys: blobs(self.keys@), certs: held_views(self.certs@) }
    }
}

/// What a keystore holds with one more bag, where the bag can be read.
pub open spec fn with_bag(c: ContentsView, b: BagView) -> Option<ContentsView> {
    if b.kind == cert_bag_oid() {
        match cert_in_bag(b.value) {
            None => None,
            Some((_, der)) => match store_names(der) {
                None => None,
                Some((subject, issuer)) => Some(
                    ContentsView {
                        keys: c.keys,
                        certs: c.certs.push(
                            HeldView {
                                subject,
                                issuer,
                                key_id: bag_key_id(b),
                                trusted: attribute_value(b.attributes, trusted_usage_oid(), 0) == Some(any_usage_der()),
                            },
                        ),
                    },
                ),
            },
        }
    } else if b.kind == key_bag_oid() {
        match bag_key_id(b) {
            None => Some(c),
            Some(id) => Some(ContentsView { keys: c.keys.push(id), certs: c.certs }),
        }
    } else {
        Some(c)
    }
}

fn add_bag(c: Contents, b: &Bag) -> (r: Option<Contents>)
    ensures
        match with_bag(c@, b@) {
            Some(v) => r is Some && r->0@ == v,
            None => r is None,
        },
{
    let cert: [u8; 11] = [0x2a, 0x86, 0x48, 0x86, 0xf7, 0x0d, 0x01, 0x0c, 0x0a, 0x01, 0x03];
    let key: [u8; 11] = [0x2a, 0x86, 0x48, 0x86, 0xf7, 0x0d, 0x01, 0x0c, 0x0a, 0x01, 0x02];
    let usage: [u8; 12] = [0x60, 0x86, 0x48, 0x01, 0x86, 0xf9, 0x66, 0xad, 0xca, 0x7b, 0x01, 0x01];
    let any: [u8; 6] = [0x06, 0x04, 0x55, 0x1d, 0x25, 0x00];
    assert(cert@ =~= cert_bag_oid());
    assert(key@ =~= key_bag_oid());
    assert(usage@ =~= trusted_usage_oid());
    assert(any@ =~= any_usage_der());
    let mut c: Contents = c;
    let ghost before = c@;
    if bytes_eq(&b.kind, &cert) {
        match read_cert_bag(&b.value) {
            None => None,
            Some((_, der)) => match read_names(&der) {
                None => None,
                Some((subject, issuer)) => {
                    let trusted: bool = match find_attribute(&b.attributes, &usage) {
                        None => false,
                        Some(v) => bytes_eq(&v, &any),
                    };
                    let held: Held = Held { subject, issuer, key_id: read_key_id(b), trusted };
                    let ghost view = held@;
                    c.certs.push(held);
                    assert(held_views(c.certs@) =~= before.certs.push(view));
                    Some(c)
                },
            },
        }
    } else if bytes_eq(&b.kind, &key) {
        match read_key_id(b) {
            None => Some(c),
            Some(id) => {
                let ghost view = id@;
                c.keys.push(id);
                assert(blobs(c.keys@) =~= before.keys.push(view));
                Some(c)
            },
        }
    } else {
        Some(c)
    }
}

/// What a keystore holds with further bags, from index `i` on.
pub open spec fn with_bags(c: ContentsView, bags: Seq<BagView>, i: int) -> Option<ContentsView>
    decreases bags.len() - i,
{
    if i < 0 || i >= bags.len() {
        Some(c)
    } else {
        match with_bag(c, bags[i]) {
            None => None,
            Some(d) => with_bags(d, bags, i + 1),
        }
    }
}

fn add_bags(c: Contents, bags: &Vec<Bag>) -> (r: Option<Contents>)
    ensures
        match with_bags(c@, bag_views(bags@), 0) {
            Some(v) => r is Some && r->0@ == v,
            None => r is None,
        },
{
    let ghost first = c@;
    let mut all: Contents = c;
    let mut i: usize = 0;
    while i < bags.len()
        invariant
            i <= bags.len(),
            first == c@,
            with_bags(first, bag_views(bags@), 0) == with_bags(all@, bag_views(bags@), i as int),
        decreases bags.len() - i,
    {
        assert(bag_views(bags@)[i as int] == bags@[i as int]@);
        match add_bag(all, &bags[i]) {
            None => {
                return None;
            },
            Some(d) => {
                all = d;
            },
        }
        i += 1;
    }
    Some(all)
}

/// What a keystore holds with further safes, from index `i` on, where all of it can be
/// read under the password.
pub open spec fn with_safes(
    c: ContentsView,
    safes: Seq<(Seq<u8>, Seq<u8>)>,
    password: Seq<char>,
    i: int,
) -> Option<ContentsView>
    decreases safes.len() - i,
{
    if i < 0 || i >= safes.len() {
        Some(c)
    } else {
        match safe_bytes(safes[i].0, safes[i].1, password) {
            None => None,
            Some(b) => match bags_in(b) {
                None => None,
                Some(bags) => match with_bags(c, bags, 0) {
                    None => None,
                    Some(d) => with_safes(d, safes, password, i + 1),
                },
            },
        }
    }
}

/// What a keystore holds, where all of it can be read under the password.
pub open spec fn contents_of(p12: Seq<u8>, password: Seq<char>) -> Option<ContentsView> {
    match pfx_safes(p12) {
        None => None,
        Some(safes) => with_safes(
            ContentsView { keys: Seq::empty(), certs: Seq::empty() },
            safes,
            password,
            0,
        ),
    }
}

fn read_contents(p12: &[u8], password: &str) -> (r: Option<Contents>)
    ensures
        match contents_of(p12@, password@) {
            Some(v) => r is Some && r->0@ == v,
            None => r is None,
        },
{
    let safes: Vec<(Vec<u8>, Vec<u8>)> = match read_safes(p12) {
        None => {
            return None;
        },
        Some(s) => s,
    };
    let mut c: Contents = Contents { keys: Vec::new(), certs: Vec::new() };
    assert(c@.keys =~= Seq::empty());
    assert(c@.certs =~= Seq::empty());
    let mut i: usize = 0;
    while i < safes.len()
        invariant
            i <= safes.len(),
            pfx_safes(p12@) == Some(pair_views(safes@)),
            contents_of(p12@, password@) == with_safes(c@, pair_views(safes@), password@, i as int),
        decreases safes.len() - i,
    {
        assert(pair_views(safes@)[i as int] == (safes@[i as int].0@, safes@[i as int].1@));
        match open_safe(&safes[i].0, &safes[i].1, password) {
            None => {
                return None;
            },
            Some(b) => match read_bags(&b) {
                None => {
                    return None;
                },
                Some(bags) => match add_bags(c, &bags) {
                    None => {
                        return None;
                    },
                    Some(d) => {
                        c = d;
                    },
                },
            },
        }
        i += 1;
    }
    Some(c)
}

/// The key derivations that the safes ask for can be worked with, from index `i` on, as
/// far as the safes can be read.
pub open spec fn safes_fit(safes: Seq<(Seq<u8>, Seq<u8>)>, password: Seq<char>, i: int) -> bool
    decreases safes.len() - i,
{
    if i < 0 || i >= safes.len() {
        true
    } else {
        match safe_bytes(safes[i].0, safes[i].1, password) {
            None => true,
            Some(b) => derivations_fit(b) && safes_fit(safes, password, i + 1),
        }
    }
}

/// The key derivations that a keystore asks for can be worked with: those of its safes,
/// and those of what the safes hold.
pub open spec fn store_fits(p12: Seq<u8>, password: Seq<char>) -> bool {
    derivations_fit(p12) && (pfx_safes(p12) matches Some(safes) ==> safes_fit(safes, password, 0))
}

/// Whether the key derivations that a keystore asks for can be worked with.
pub fn has_fitting_store(p12: &[u8], password: &str) -> (r: bool)
    ensures
        r == store_fits(p12@, password@),
{
    if !has_fitting_derivations(p12) {
        return false;
    }
    let safes: Vec<(Vec<u8>, Vec<u8>)> = match read_safes(p12) {
        None => {
            return true;
        },
        Some(s) => s,
    };
    let mut i: usize = 0;
    while i < safes.len()
        invariant
            i <= safes.len(),
            derivations_fit(p12@),
            pfx_safes(p12@) == Some(pair_views(safes@)),
            safes_fit(pair_views(safes@), password@, 0) == safes_fit(pair_views(safes@), password@, i as int),
        decreases safes.len() - i,
    {
        assert(pair_views(safes@)[i as int] == (safes@[i as int].0@, safes@[i as int].1@));
        match open_safe(&safes[i].0, &safes[i].1, password) {
            None => {
                return true;
            },
            Some(b) => {
                if !has_fitting_derivations(&b) {
                    return false;
                }
            },
        }
        i += 1;
    }
    true
}

// ---------------------------------------------------------------------------
// Issuers

/// The first certificate from index `i` on with the subject that is not marked as trusted.
pub open spec fn issuer_index(certs: Seq<HeldView>, name: Seq<char>, i: int) -> Option<int>
    decreases certs.len() - i,
{
    if i < 0 || i >= certs.len() {
        None
    } else if certs[i].subject == name && !certs[i].trusted {
        Some(i)
    } else {
        issuer_index(certs, name, i + 1)
    }
}

/// Whether following issuers from a name on comes to an end: to a name that no certificate
/// has, or to a certificate that issued itself, within `fuel` further certificates.
pub open spec fn issuers_end(certs: Seq<HeldView>, name: Seq<char>, fuel: nat) -> bool
    decreases fuel,
{
    match issuer_index(certs, name, 0) {
        None => true,
        Some(j) => certs[j].issuer == certs[j].subject || (fuel > 0 && issuers_end(
            certs,
            certs[j].issuer,
            (fuel - 1) as nat,
        )),
    }
}

/// Whether two texts are the same.
fn same_text(a: &str, b: &str) -> (r: bool)
    ensures
        r == (a@ == b@),
{
    let (x, y): (Vec<char>, Vec<char>) = (chars_of(a), chars_of(b));
    if x.len() != y.len() {
        return false;
    }
    let mut i: usize = 0;
    while i < x.len()
        invariant
            i <= x.len() == y.len(),
            x@ == a@,
            y@ == b@,
            forall|k: int| 0 <= k < i ==> x@[k] == y@[k],
        decreases x.len() - i,
    {
        if x[i] != y[i] {
            assert(a@[i as int] != b@[i as int]);
            return false;
        }
        i += 1;
    }
    assert(a@ =~= b@);
    true
}

fn find_issuer(certs: &Vec<Held>, name: &str) -> (r: Option<usize>)
    ensures
        match issuer_index(held_views(certs@), name@, 0) {
            Some(j) => r is Some && r->0 == j && r->0 < certs.len(),
            None => r is None,
        },
{
    let mut i: usize = 0;
    while i < certs.len()
        invariant
            i <= certs.len(),
            issuer_index(held_views(certs@), name@, 0) == issuer_index(held_views(certs@), name@, i as int),
        decreases certs.len() - i,
    {
        assert(held_views(certs@)[i as int] == certs@[i as int]@);
        if same_text(certs[i].subject.as_str(), name) && !certs[i].trusted {
            return Some(i);
        }
        i += 1;
    }
    None
}

fn follow_issuers(certs: &Vec<Held>, name: &str) -> (r: bool)
    ensures
        r == issuers_end(held_views(certs@), name@, certs@.len()),
{
    let mut next: Option<usize> = find_issuer(certs, name);
    let mut fuel: usize = certs.len();
    if let Some(k) = next {
        assert(held_views(certs@)[k as int] == certs@[k as int]@);
    }
    loop
        invariant
            next matches Some(j) ==> j < certs.len(),
            fuel <= certs.len(),
            issuers_end(held_views(certs@), name@, certs@.len()) == (match next {
                None => true,
                Some(j) => certs@[j as int].issuer@ == certs@[j as int].subject@ || (fuel > 0 && issuers_end(
                    held_views(certs@),
                    certs@[j as int].issuer@,
                    (fuel - 1) as nat,
                )),
            }),
        decreases fuel,
    {
        match next {
            None => {
                return true;
            },
            Some(j) => {
                if same_text(certs[j].issuer.as_str(), certs[j].subject.as_str()) {
                    return true;
                }
                if fuel == 0 {
                    return false;
                }
                next = find_issuer(certs, certs[j].issuer.as_str());
                fuel -= 1;
                if let Some(k) = next {
                    assert(held_views(certs@)[k as int] == certs@[k as int]@);
                }
            },
        }
    }
}

/// The first certificate from index `i` on that is for the key.
pub open spec fn owner_index(certs: Seq<HeldView>, key: Seq<u8>, i: int) -> Option<int>
    decreases certs.len() - i,
{
    if i < 0 || i >= certs.len() {
        None
    } else if certs[i].key_id == Some(key) {
        Some(i)
    } else {
        owner_index(certs, key, i + 1)
    }
}

/// Following the issuers of a key's certificate comes to an end, where the key has one.
pub open spec fn chain_ends(c: ContentsView, key: Seq<u8>) -> bool {
    owner_index(c.certs, key, 0) matches Some(i) ==> issuers_end(c.certs, c.certs[i].issuer, c.certs.len())
}

/// The chains of all keys of a keystore come to an end, as far as the keystore can be
/// read: no certificates issue one another in a circle.
pub open spec fn chains_end(p12: Seq<u8>, password: Seq<char>) -> bool {
    contents_of(p12, password) matches Some(c) ==> forall|k: int|
        0 <= k < c.keys.len() ==> chain_ends(c, #[trigger] c.keys[k])
}

fn key_chain_ends(c: &Contents, key: &[u8]) -> (r: bool)
    ensures
        r == chain_ends(c@, key@),
{
    let mut i: usize = 0;
    while i < c.certs.len()
        invariant
            i <= c.certs.len(),
            owner_index(c@.certs, key@, 0) == owner_index(c@.certs, key@, i as int),
        decreases c.certs.len() - i,
    {
        assert(c@.certs[i as int] == c.certs@[i as int]@);
        let own: bool = match &c.certs[i].key_id {
            None => false,
            Some(id) => bytes_eq(id, key),
        };
        if own {
            assert(c@.certs[i as int].key_id == Some(key@));
            return follow_issuers(&c.certs, c.certs[i].issuer.as_str());
        }
        i += 1;
    }
    true
}

/// Whether the chains of all keys of a keystore come to an end, as far as the keystore can
/// be read.
pub fn has_ending_chains(p12: &[u8], password: &str) -> (r: bool)
    ensures
        r == chains_end(p12@, password@),
{
    match read_contents(p12, password) {
        None => true,
        Some(c) => {
            let mut k: usize = 0;
            while k < c.keys.len()
                invariant
                    k <= c.keys.len(),
                    contents_of(p12@, password@) == Some(c@),
                    forall|n: int| 0 <= n < k ==> chain_ends(c@, #[trigger] c@.keys[n]),
                decreases c.keys.len() - k,
            {
                assert(c@.keys[k as int] == c.keys@[k as int]@);
                if !key_chain_ends(&c, &c.keys[k]) {
                    assert(!chains_end(p12@, password@)) by {
                        let d = contents_of(p12@, password@)->0;
                        assert(0 <= k < d.keys.len() && !chain_ends(d, d.keys[k as int]));
                    }
                    return false;
                }
                k += 1;
            }
            true
        },
    }
}

// ---------------------------------------------------------------------------
// Chains that are to be stored

/// The certificates of a chain as a keystore holds them, the owner's in front, where all
/// can be read.
pub open spec fn held_chain(certs: Seq<Seq<u8>>) -> Option<Seq<HeldView>>
    decreases certs.len(),
{
    if certs.len() == 0 {
        Some(Seq::empty())
    } else {
        match (held_chain(certs.drop_last()), store_names(certs.last())) {
            (Some(rest), Some((subject, issuer))) => Some(
                rest.push(HeldView { subject, issuer, key_id: None, trusted: false }),
            ),
            _ => None,
        }
    }
}

/// Following the issuers of the first certificate of a chain through the chain comes to an
/// end.
pub open spec fn certs_end(certs: Seq<Seq<u8>>) -> bool {
    held_chain(certs) matches Some(h) ==> h.len() > 0 ==> issuers_end(h, h[0].issuer, h.len())
}

/// Whether following the issuers of the first certificate of a chain comes to an end.
pub fn has_ending_issuers(certs: &Vec<Vec<u8>>) -> (r: bool)
    ensures
        r == certs_end(blobs(certs@)),
{
    let mut held: Vec<Held> = Vec::new();
    let mut i: usize = 0;
    assert(blobs(certs@).take(0) =~= Seq::empty());
    assert(held_views(held@) =~= Seq::empty());
    while i < certs.len()
        invariant
            i <= certs.len(),
            held_chain(blobs(certs@).take(i as int)) == Some(held_views(held@)),
        decreases certs.len() - i,
    {
        let ghost before = held_views(held@);
        let ghost all = blobs(certs@);
        assert(all.take(i + 1).drop_last() =~= all.take(i as int));
        assert(all.take(i + 1).last() == certs@[i as int]@);
        match read_names(&certs[i]) {
            None => {
                proof {
                    lemma_unreadable(all, i + 1);
                }
                return true;
            },
            Some((subject, issuer)) => {
                let h: Held = Held { subject, issuer, key_id: None, trusted: false };
                let ghost view = h@;
                held.push(h);
                assert(held_views(held@) =~= before.push(view));
            },
        }
        i += 1;
    }
    assert(blobs(certs@).take(certs@.len() as int) =~= blobs(certs@));
    if held.len() == 0 {
        return true;
    }
    assert(held_views(held@)[0] == held@[0]@);
    follow_issuers(&held, held[0].issuer.as_str())
}

proof fn lemma_unreadable(certs: Seq<Seq<u8>>, n: int)
    requires
        0 <= n <= certs.len(),
        held_chain(certs.take(n)) is None,
    ensures
        held_chain(certs) is None,
    decreases certs.len() - n,
{
    if n < certs.len() {
        assert(certs.take(n + 1).drop_last() =~= certs.take(n));
        lemma_unreadable(certs, n + 1);
    } else {
        assert(certs.take(n) =~= certs);
    }
}

} // verus!
